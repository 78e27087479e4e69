//! The command line: `hedwig <command> [options]`.

use vstd::prelude::*;
use vstd::string::StringSliceAdditionalSpecFns;
use vstd::utf8::*;

use crate::decimal::{all_digits, decimal_value, is_digit, lemma_decimal_step};

verus! {

/// The loopback port the relay listens on unless `--port` says otherwise.
pub const DEFAULT_PORT: u16 = 47470;

/// What `hedwig help` prints.
pub const USAGE: &'static str = "hedwig - forward the Windows gpg-agent to Linux hosts over `ssh -R`

usage:
  hedwig serve     [options]      run the relay in the foreground
  hedwig install   [options]      register per-user autostart and start the relay
  hedwig uninstall                remove the autostart entry
  hedwig status    [options]      check the whole chain and report
  hedwig version
  hedwig help

options:
  --port <n>          loopback TCP port to listen on            [default: 47470]
  --socket <name>     gpg-agent socket to relay to: extra|agent [default: extra]
  --socketdir <path>  GnuPG socket directory                    [default: ask gpgconf]
  --log-file <path>   append log lines to this file
  --verbose           log every connection to stderr

`extra` relays to S.gpg-agent.extra (restricted: signing and decryption, no key
export, no card administration). `agent` relays to the unrestricted socket and
grants the remote end everything the local user can ask of the agent.";

/// Which of gpg-agent's sockets the relay forwards to.
#[derive(Debug, Clone, Copy, PartialEq, Eq, Structural)]
pub enum SocketChoice {
    Extra,
    Agent,
}

impl SocketChoice {
    /// Only the extra socket is restricted.
    pub open spec fn expects_restricted_spec(self) -> bool {
        self == SocketChoice::Extra
    }

    /// The socket file's name in the GnuPG socket directory.
    pub fn file_name(self) -> (r: &'static str)
        ensures
            r@ == (match self {
                SocketChoice::Extra => "S.gpg-agent.extra"@,
                SocketChoice::Agent => "S.gpg-agent"@,
            }),
    {
        match self {
            SocketChoice::Extra => "S.gpg-agent.extra",
            SocketChoice::Agent => "S.gpg-agent",
        }
    }

    /// `GETINFO restricted` answers OK on the extra socket and ERR on the
    /// unrestricted one; status uses this to detect relaying to the wrong socket.
    pub fn expects_restricted(self) -> (r: bool)
        ensures
            r == self.expects_restricted_spec(),
    {
        matches!(self, SocketChoice::Extra)
    }

    /// The name of the choice as `--socket` takes it and as it is shown.
    pub fn name(self) -> (r: &'static str)
        ensures
            r@ == (match self {
                SocketChoice::Extra => "extra"@,
                SocketChoice::Agent => "agent"@,
            }),
            r.spec_bytes() == socket_name(self),
    {
        match self {
            SocketChoice::Extra => "extra",
            SocketChoice::Agent => "agent",
        }
    }
}

/// The bytes of a socket choice's name.
pub open spec fn socket_name(c: SocketChoice) -> Seq<u8> {
    match c {
        SocketChoice::Extra => kw("extra"),
        SocketChoice::Agent => kw("agent"),
    }
}

/// The relay's settings. Paths are held as the platform's encoded bytes of
/// the argument that named them, so that a path which is not text survives.
#[derive(Debug, Clone, PartialEq, Eq)]
pub struct Config {
    pub port: u16,
    pub socket: SocketChoice,
    pub socketdir: Option<Vec<u8>>,
    pub log_file: Option<Vec<u8>>,
    pub verbose: bool,
}

/// A `Config` with its byte strings as sequences.
pub struct ConfigView {
    pub port: u16,
    pub socket: SocketChoice,
    pub socketdir: Option<Seq<u8>>,
    pub log_file: Option<Seq<u8>>,
    pub verbose: bool,
}

/// An optional byte string as an optional sequence.
pub open spec fn opt_view(o: Option<Vec<u8>>) -> Option<Seq<u8>> {
    match o {
        Some(v) => Some(v@),
        None => None,
    }
}

impl View for Config {
    type V = ConfigView;

    open spec fn view(&self) -> ConfigView {
        ConfigView {
            port: self.port,
            socket: self.socket,
            socketdir: opt_view(self.socketdir),
            log_file: opt_view(self.log_file),
            verbose: self.verbose,
        }
    }
}

/// The settings when no option is given.
pub open spec fn default_config() -> ConfigView {
    ConfigView {
        port: DEFAULT_PORT,
        socket: SocketChoice::Extra,
        socketdir: None,
        log_file: None,
        verbose: false,
    }
}

impl Default for Config {
    fn default() -> (r: Config)
        ensures
            r@ == default_config(),
    {
        Config {
            port: DEFAULT_PORT,
            socket: SocketChoice::Extra,
            socketdir: None,
            log_file: None,
            verbose: false,
        }
    }
}

/// What the command line asks for.
#[derive(Debug, PartialEq, Eq)]
pub enum Cmd {
    Serve(Config),
    Install(Config),
    Uninstall,
    Status(Config),
    Version,
    Help,
}

/// A `Cmd` with its settings as views.
pub enum CmdView {
    Serve(ConfigView),
    Install(ConfigView),
    Uninstall,
    Status(ConfigView),
    Version,
    Help,
}

impl View for Cmd {
    type V = CmdView;

    open spec fn view(&self) -> CmdView {
        match self {
            Cmd::Serve(c) => CmdView::Serve(c@),
            Cmd::Install(c) => CmdView::Install(c@),
            Cmd::Uninstall => CmdView::Uninstall,
            Cmd::Status(c) => CmdView::Status(c@),
            Cmd::Version => CmdView::Version,
            Cmd::Help => CmdView::Help,
        }
    }
}

/// The argument that was found not to be text, named as the messages name it.
#[derive(Debug, Clone, Copy, PartialEq, Eq, Structural)]
pub enum TextField {
    /// "command"
    Command,
    /// "option"
    OptionName,
    /// "--port"
    Port,
    /// "--socket"
    Socket,
}

/// An option that takes a value.
#[derive(Debug, Clone, Copy, PartialEq, Eq, Structural)]
pub enum ValueOption {
    Port,
    Socket,
    SocketDir,
    LogFile,
}

/// Why a command line was refused; each carries the argument it is about.
#[derive(Debug, PartialEq, Eq)]
pub enum CliError {
    /// `{what} is not valid text: '{arg}'`
    NotText(TextField, Vec<u8>),
    /// `unknown command '{arg}'`
    UnknownCommand(Vec<u8>),
    /// `unknown option '{arg}'`
    UnknownOption(Vec<u8>),
    /// `{option} needs a value`
    MissingValue(ValueOption),
    /// `--port needs a number in 1..=65535, got '{arg}'`
    BadPort(Vec<u8>),
    /// `--socket must be 'extra' or 'agent', got '{arg}'`
    BadSocket(Vec<u8>),
    /// `unexpected argument '{arg}'`
    UnexpectedArgument(Vec<u8>),
}

/// A `CliError` with its argument as a sequence.
pub enum CliErrorView {
    NotText(TextField, Seq<u8>),
    UnknownCommand(Seq<u8>),
    UnknownOption(Seq<u8>),
    MissingValue(ValueOption),
    BadPort(Seq<u8>),
    BadSocket(Seq<u8>),
    UnexpectedArgument(Seq<u8>),
}

impl View for CliError {
    type V = CliErrorView;

    open spec fn view(&self) -> CliErrorView {
        match self {
            CliError::NotText(w, a) => CliErrorView::NotText(*w, a@),
            CliError::UnknownCommand(a) => CliErrorView::UnknownCommand(a@),
            CliError::UnknownOption(a) => CliErrorView::UnknownOption(a@),
            CliError::MissingValue(o) => CliErrorView::MissingValue(*o),
            CliError::BadPort(a) => CliErrorView::BadPort(a@),
            CliError::BadSocket(a) => CliErrorView::BadSocket(a@),
            CliError::UnexpectedArgument(a) => CliErrorView::UnexpectedArgument(a@),
        }
    }
}

/// A parse result as views.
pub open spec fn result_view(r: Result<Cmd, CliError>) -> Result<CmdView, CliErrorView> {
    match r {
        Ok(c) => Ok(c@),
        Err(e) => Err(e@),
    }
}

/// The options' result as views.
pub open spec fn options_view(r: Result<Config, CliError>) -> Result<ConfigView, CliErrorView> {
    match r {
        Ok(c) => Ok(c@),
        Err(e) => Err(e@),
    }
}

/// The arguments as byte sequences.
pub open spec fn args_view(args: Seq<Vec<u8>>) -> Seq<Seq<u8>> {
    args.map_values(|a: Vec<u8>| a@)
}

/// The value of a `--port` argument as `str::parse::<u16>` reads it: an
/// optional `+`, then one or more ASCII digits whose value fits in 16 bits.
pub open spec fn port_value(v: Seq<u8>) -> Option<u16> {
    let d = if v.len() > 0 && v[0] == 43 {
        v.drop_first()
    } else {
        v
    };
    if d.len() == 0 || !all_digits(d) || decimal_value(d) > 65535 {
        None
    } else {
        Some(decimal_value(d) as u16)
    }
}

/// The command named by the first argument, where it takes options.
pub enum CommandKind {
    Serve,
    Install,
    Status,
}

/// A command that takes no further argument.
pub open spec fn no_more_args(args: Seq<Seq<u8>>, cmd: CmdView) -> Result<CmdView, CliErrorView> {
    if args.len() <= 1 {
        Ok(cmd)
    } else {
        Err(CliErrorView::UnexpectedArgument(args[1]))
    }
}

/// The settings that the options from index `i` on make of `cfg`, or the
/// first reason to refuse them.
pub open spec fn parse_options(args: Seq<Seq<u8>>, i: int, cfg: ConfigView) -> Result<ConfigView, CliErrorView>
    decreases args.len() - i,
{
    if i < 0 || i >= args.len() {
        Ok(cfg)
    } else {
        let a = args[i];
        if !valid_utf8(a) {
            Err(CliErrorView::NotText(TextField::OptionName, a))
        } else if a == kw("--port") {
            if i + 1 >= args.len() {
                Err(CliErrorView::MissingValue(ValueOption::Port))
            } else {
                let v = args[i + 1];
                if !valid_utf8(v) {
                    Err(CliErrorView::NotText(TextField::Port, v))
                } else {
                    match port_value(v) {
                        Some(p) => if p != 0 {
                            parse_options(args, i + 2, ConfigView { port: p, ..cfg })
                        } else {
                            Err(CliErrorView::BadPort(v))
                        },
                        None => Err(CliErrorView::BadPort(v)),
                    }
                }
            }
        } else if a == kw("--socket") {
            if i + 1 >= args.len() {
                Err(CliErrorView::MissingValue(ValueOption::Socket))
            } else {
                let v = args[i + 1];
                if !valid_utf8(v) {
                    Err(CliErrorView::NotText(TextField::Socket, v))
                } else if v == kw("extra") {
                    parse_options(args, i + 2, ConfigView { socket: SocketChoice::Extra, ..cfg })
                } else if v == kw("agent") {
                    parse_options(args, i + 2, ConfigView { socket: SocketChoice::Agent, ..cfg })
                } else {
                    Err(CliErrorView::BadSocket(v))
                }
            }
        } else if a == kw("--socketdir") {
            if i + 1 >= args.len() {
                Err(CliErrorView::MissingValue(ValueOption::SocketDir))
            } else {
                parse_options(args, i + 2, ConfigView { socketdir: Some(args[i + 1]), ..cfg })
            }
        } else if a == kw("--log-file") {
            if i + 1 >= args.len() {
                Err(CliErrorView::MissingValue(ValueOption::LogFile))
            } else {
                parse_options(args, i + 2, ConfigView { log_file: Some(args[i + 1]), ..cfg })
            }
        } else if a == kw("--verbose") {
            parse_options(args, i + 1, ConfigView { verbose: true, ..cfg })
        } else {
            Err(CliErrorView::UnknownOption(a))
        }
    }
}

/// A command that takes options, with the options that follow it.
pub open spec fn with_options(args: Seq<Seq<u8>>, kind: CommandKind) -> Result<CmdView, CliErrorView> {
    match parse_options(args, 1, default_config()) {
        Ok(cfg) => Ok(
            match kind {
                CommandKind::Serve => CmdView::Serve(cfg),
                CommandKind::Install => CmdView::Install(cfg),
                CommandKind::Status => CmdView::Status(cfg),
            },
        ),
        Err(e) => Err(e),
    }
}

/// What the command line `args` (program name excluded) asks for, or the
/// first reason to refuse it. No argument at all asks for help.
pub open spec fn spec_parse(args: Seq<Seq<u8>>) -> Result<CmdView, CliErrorView> {
    if args.len() == 0 {
        Ok(CmdView::Help)
    } else {
        let sub = args[0];
        if !valid_utf8(sub) {
            Err(CliErrorView::NotText(TextField::Command, sub))
        } else if sub == kw("version") || sub == kw("--version") || sub == kw("-V") {
            no_more_args(args, CmdView::Version)
        } else if sub == kw("help") || sub == kw("--help") || sub == kw("-h") {
            no_more_args(args, CmdView::Help)
        } else if sub == kw("uninstall") {
            no_more_args(args, CmdView::Uninstall)
        } else if sub == kw("serve") {
            with_options(args, CommandKind::Serve)
        } else if sub == kw("install") {
            with_options(args, CommandKind::Install)
        } else if sub == kw("status") {
            with_options(args, CommandKind::Status)
        } else {
            Err(CliErrorView::UnknownCommand(sub))
        }
    }
}

/// The ASCII bytes of a keyword of the command line.
pub open spec fn kw(s: &str) -> Seq<u8> {
    s.spec_bytes()
}

/// Every byte of `s` is ASCII.
pub open spec fn all_ascii(s: Seq<u8>) -> bool {
    forall|i: int| 0 <= i < s.len() ==> #[trigger] s[i] < 0x80
}

/// Whether `bytes` is text, as `std::str::from_utf8` decides. The contract
/// claims that `from_utf8` accepts exactly the well-formed UTF-8 sequences,
/// which vstd's `valid_utf8` describes.
#[verifier::external_body]
fn is_text(bytes: &[u8]) -> (r: bool)
    ensures
        r == valid_utf8(bytes@),
{
    std::str::from_utf8(bytes).is_ok()
}

/// Byte-wise equality of two byte strings.
pub fn eq_bytes(a: &[u8], b: &[u8]) -> (r: bool)
    ensures
        r == (a@ == b@),
{
    if a.len() != b.len() {
        return false;
    }
    let mut i: usize = 0;
    while i < a.len()
        invariant
            a@.len() == b@.len(),
            i <= a@.len(),
            forall|j: int| 0 <= j < i ==> a@[j] == b@[j],
        decreases a@.len() - i,
    {
        if a[i] != b[i] {
            return false;
        }
        i = i + 1;
    }
    assert(a@ =~= b@);
    true
}

/// `a` is the keyword `word`.
fn is_keyword(a: &[u8], word: &str) -> (r: bool)
    ensures
        r == (a@ == kw(word)),
{
    eq_bytes(a, word.as_bytes())
}

/// The prefix of an all-digit string never reads larger than the string.
proof fn lemma_prefix_value_le(s: Seq<u8>, i: int)
    requires
        0 <= i <= s.len(),
    ensures
        decimal_value(s.take(i)) <= decimal_value(s),
    decreases s.len(),
{
    if i == s.len() {
        assert(s.take(i) =~= s);
    } else {
        lemma_prefix_value_le(s.drop_last(), i);
        assert(s.drop_last().take(i) =~= s.take(i));
    }
}

/// The value of a `--port` argument, as `str::parse::<u16>` reads it.
pub fn parse_port(v: &[u8]) -> (r: Option<u16>)
    ensures
        r == port_value(v@),
{
    let start: usize = if v.len() > 0 && v[0] == 43 {
        1
    } else {
        0
    };
    let ghost d = if v@.len() > 0 && v@[0] == 43 {
        v@.drop_first()
    } else {
        v@
    };
    assert(d =~= v@.skip(start as int));
    if start == v.len() {
        return None;
    }
    let mut value: u32 = 0;
    let mut i: usize = start;
    while i < v.len()
        invariant
            start <= i <= v@.len(),
            start < v@.len(),
            d == v@.skip(start as int),
            port_value(v@) == (if d.len() == 0 || !all_digits(d) || decimal_value(d) > 65535 {
                None
            } else {
                Some(decimal_value(d) as u16)
            }),
            all_digits(d.take(i - start)),
            value == decimal_value(d.take(i - start)),
            value <= 65535,
        decreases v@.len() - i,
    {
        let b = v[i];
        if b < 48 || b > 57 {
            assert(!is_digit(d[i - start]));
            return None;
        }
        proof {
            lemma_decimal_step(d, i - start);
            assert(d.take(i - start + 1) =~= d.take(i - start).push(b));
        }
        value = value * 10 + (b - 48) as u32;
        if value > 65535 {
            proof {
                if all_digits(d) {
                    lemma_prefix_value_le(d, i - start + 1);
                }
            }
            return None;
        }
        i = i + 1;
    }
    assert(d.take(i - start) =~= d);
    Some(value as u16)
}

/// A copy of `v`.
fn copy_of(v: &[u8]) -> (r: Vec<u8>)
    ensures
        r@ == v@,
{
    vstd::slice::slice_to_vec(v)
}

/// Parses the command line, program name excluded. Each argument is the
/// platform's encoded bytes of one `OsString`.
pub fn parse(args: &[Vec<u8>]) -> (r: Result<Cmd, CliError>)
    ensures
        result_view(r) == spec_parse(args_view(args@)),
{
    let ghost av = args_view(args@);
    if args.len() == 0 {
        return Ok(Cmd::Help);
    }
    let sub = args[0].as_slice();
    assert(sub@ == av[0]);
    if !is_text(sub) {
        return Err(CliError::NotText(TextField::Command, copy_of(sub)));
    }
    if is_keyword(sub, "version") || is_keyword(sub, "--version") || is_keyword(sub, "-V") {
        return no_more(args, Cmd::Version);
    }
    if is_keyword(sub, "help") || is_keyword(sub, "--help") || is_keyword(sub, "-h") {
        return no_more(args, Cmd::Help);
    }
    if is_keyword(sub, "uninstall") {
        return no_more(args, Cmd::Uninstall);
    }
    let kind = if is_keyword(sub, "serve") {
        CommandKind::Serve
    } else if is_keyword(sub, "install") {
        CommandKind::Install
    } else if is_keyword(sub, "status") {
        CommandKind::Status
    } else {
        return Err(CliError::UnknownCommand(copy_of(sub)));
    };
    match options(args) {
        Ok(cfg) => Ok(
            match kind {
                CommandKind::Serve => Cmd::Serve(cfg),
                CommandKind::Install => Cmd::Install(cfg),
                CommandKind::Status => Cmd::Status(cfg),
            },
        ),
        Err(e) => Err(e),
    }
}

/// `cmd`, where nothing follows the command word.
fn no_more(args: &[Vec<u8>], cmd: Cmd) -> (r: Result<Cmd, CliError>)
    requires
        args@.len() >= 1,
    ensures
        result_view(r) == no_more_args(args_view(args@), cmd@),
{
    if args.len() <= 1 {
        Ok(cmd)
    } else {
        Err(CliError::UnexpectedArgument(copy_of(args[1].as_slice())))
    }
}

/// The settings that the options after the command word make.
fn options(args: &[Vec<u8>]) -> (r: Result<Config, CliError>)
    requires
        args@.len() >= 1,
    ensures
        options_view(r) == parse_options(args_view(args@), 1, default_config()),
{
    let ghost av = args_view(args@);
    let mut cfg = Config::default();
    let mut i: usize = 1;
    while i < args.len()
        invariant
            av == args_view(args@),
            1 <= i <= args@.len(),
            parse_options(av, 1, default_config()) == parse_options(av, i as int, cfg@),
        decreases args@.len() - i,
    {
        let a = args[i].as_slice();
        assert(a@ == av[i as int]);
        if !is_text(a) {
            return Err(CliError::NotText(TextField::OptionName, copy_of(a)));
        }
        if is_keyword(a, "--port") {
            if i + 1 >= args.len() {
                return Err(CliError::MissingValue(ValueOption::Port));
            }
            let v = args[i + 1].as_slice();
            assert(v@ == av[i + 1]);
            if !is_text(v) {
                return Err(CliError::NotText(TextField::Port, copy_of(v)));
            }
            match parse_port(v) {
                Some(p) => {
                    if p == 0 {
                        return Err(CliError::BadPort(copy_of(v)));
                    }
                    cfg.port = p;
                },
                None => {
                    return Err(CliError::BadPort(copy_of(v)));
                },
            }
            i = i + 2;
        } else if is_keyword(a, "--socket") {
            if i + 1 >= args.len() {
                return Err(CliError::MissingValue(ValueOption::Socket));
            }
            let v = args[i + 1].as_slice();
            assert(v@ == av[i + 1]);
            if !is_text(v) {
                return Err(CliError::NotText(TextField::Socket, copy_of(v)));
            }
            if is_keyword(v, "extra") {
                cfg.socket = SocketChoice::Extra;
            } else if is_keyword(v, "agent") {
                cfg.socket = SocketChoice::Agent;
            } else {
                return Err(CliError::BadSocket(copy_of(v)));
            }
            i = i + 2;
        } else if is_keyword(a, "--socketdir") {
            if i + 1 >= args.len() {
                return Err(CliError::MissingValue(ValueOption::SocketDir));
            }
            let v = args[i + 1].as_slice();
            assert(v@ == av[i + 1]);
            cfg.socketdir = Some(copy_of(v));
            i = i + 2;
        } else if is_keyword(a, "--log-file") {
            if i + 1 >= args.len() {
                return Err(CliError::MissingValue(ValueOption::LogFile));
            }
            let v = args[i + 1].as_slice();
            assert(v@ == av[i + 1]);
            cfg.log_file = Some(copy_of(v));
            i = i + 2;
        } else if is_keyword(a, "--verbose") {
            cfg.verbose = true;
            i = i + 1;
        } else {
            return Err(CliError::UnknownOption(copy_of(a)));
        }
    }
    Ok(cfg)
}

/// The options are read from index `i` on only: arguments that agree from
/// `i` on give the same settings.
pub proof fn lemma_options_read_only_from(a: Seq<Seq<u8>>, b: Seq<Seq<u8>>, i: int, cfg: ConfigView)
    requires
        0 <= i,
        a.len() == b.len(),
        forall|j: int| i <= j < a.len() ==> a[j] == b[j],
    ensures
        parse_options(a, i, cfg) == parse_options(b, i, cfg),
    decreases a.len() - i,
{
    if i < a.len() {
        assert(a[i] == b[i]);
        if i + 1 < a.len() {
            assert(a[i + 1] == b[i + 1]);
        }
        let a0 = a[i];
        if valid_utf8(a0) {
            if a0 == kw("--port") {
                if i + 1 < a.len() {
                    if let Some(p) = port_value(a[i + 1]) {
                        lemma_options_read_only_from(a, b, i + 2, ConfigView { port: p, ..cfg });
                    }
                }
            } else if a0 == kw("--socket") {
                if i + 1 < a.len() {
                    lemma_options_read_only_from(a, b, i + 2, ConfigView { socket: SocketChoice::Extra, ..cfg });
                    lemma_options_read_only_from(a, b, i + 2, ConfigView { socket: SocketChoice::Agent, ..cfg });
                }
            } else if a0 == kw("--socketdir") {
                if i + 1 < a.len() {
                    lemma_options_read_only_from(a, b, i + 2, ConfigView { socketdir: Some(a[i + 1]), ..cfg });
                }
            } else if a0 == kw("--log-file") {
                if i + 1 < a.len() {
                    lemma_options_read_only_from(a, b, i + 2, ConfigView { log_file: Some(a[i + 1]), ..cfg });
                }
            } else if a0 == kw("--verbose") {
                lemma_options_read_only_from(a, b, i + 1, ConfigView { verbose: true, ..cfg });
            }
        }
    }
}

/// `serve`, `install` and `status` take the same options: whatever follows
/// the command word, the three give the same settings, or the same refusal.
pub proof fn lemma_commands_share_options(rest: Seq<Seq<u8>>)
    ensures
        ({
            let o = parse_options(seq![kw("serve")] + rest, 1, default_config());
            &&& spec_parse(seq![kw("serve")] + rest) == match o {
                Ok(c) => Ok(CmdView::Serve(c)),
                Err(e) => Err::<CmdView, CliErrorView>(e),
            }
            &&& spec_parse(seq![kw("install")] + rest) == match o {
                Ok(c) => Ok(CmdView::Install(c)),
                Err(e) => Err::<CmdView, CliErrorView>(e),
            }
            &&& spec_parse(seq![kw("status")] + rest) == match o {
                Ok(c) => Ok(CmdView::Status(c)),
                Err(e) => Err::<CmdView, CliErrorView>(e),
            }
        }),
{
    lemma_keywords();
    vstd::utf8::encode_utf8_valid_utf8("serve"@);
    vstd::utf8::encode_utf8_valid_utf8("install"@);
    vstd::utf8::encode_utf8_valid_utf8("status"@);
    let s = seq![kw("serve")] + rest;
    let n = seq![kw("install")] + rest;
    let t = seq![kw("status")] + rest;
    assert(s[0] == kw("serve"));
    assert(n[0] == kw("install"));
    assert(t[0] == kw("status"));
    lemma_options_read_only_from(s, n, 1, default_config());
    lemma_options_read_only_from(s, t, 1, default_config());
}

/// `--verbose` takes no value: it turns verbose output on, and the options
/// go on with the argument right after it.
pub proof fn lemma_verbose_takes_no_value(args: Seq<Seq<u8>>, i: int, cfg: ConfigView)
    requires
        0 <= i < args.len(),
        args[i] == kw("--verbose"),
    ensures
        parse_options(args, i, cfg) == parse_options(args, i + 1, ConfigView { verbose: true, ..cfg }),
{
    lemma_keywords();
    vstd::utf8::encode_utf8_valid_utf8("--verbose"@);
}

/// An argument put in front moves the options one place on and changes
/// nothing else: the options of `x` followed by `r`, read from `i + 1`, are
/// those of `r` read from `i`.
pub proof fn lemma_options_shift(x: Seq<u8>, r: Seq<Seq<u8>>, i: int, cfg: ConfigView)
    requires
        0 <= i,
    ensures
        parse_options(seq![x] + r, i + 1, cfg) == parse_options(r, i, cfg),
    decreases r.len() - i,
{
    let a = seq![x] + r;
    if i < r.len() {
        assert(a[i + 1] == r[i]);
        if i + 1 < r.len() {
            assert(a[i + 2] == r[i + 1]);
        }
        let a0 = r[i];
        if valid_utf8(a0) {
            if a0 == kw("--port") {
                if i + 1 < r.len() {
                    if let Some(p) = port_value(r[i + 1]) {
                        lemma_options_shift(x, r, i + 2, ConfigView { port: p, ..cfg });
                    }
                }
            } else if a0 == kw("--socket") {
                if i + 1 < r.len() {
                    lemma_options_shift(x, r, i + 2, ConfigView { socket: SocketChoice::Extra, ..cfg });
                    lemma_options_shift(x, r, i + 2, ConfigView { socket: SocketChoice::Agent, ..cfg });
                }
            } else if a0 == kw("--socketdir") {
                if i + 1 < r.len() {
                    lemma_options_shift(x, r, i + 2, ConfigView { socketdir: Some(r[i + 1]), ..cfg });
                }
            } else if a0 == kw("--log-file") {
                if i + 1 < r.len() {
                    lemma_options_shift(x, r, i + 2, ConfigView { log_file: Some(r[i + 1]), ..cfg });
                }
            } else if a0 == kw("--verbose") {
                lemma_options_shift(x, r, i + 1, ConfigView { verbose: true, ..cfg });
            }
        }
    }
}

/// ASCII text is UTF-8 text.
pub proof fn lemma_ascii_is_utf8(s: Seq<u8>)
    requires
        all_ascii(s),
    ensures
        valid_utf8(s),
{
    assert(s.subrange(0, 0) =~= Seq::<u8>::empty());
    assert(partial_valid_utf8(s, 0));
    assert forall|i: int| 0 <= 0 <= i < s.len() <= s.len() implies #[trigger] is_leading_byte_width_1(s[i]) by {}
    partial_valid_utf8_extend_ascii_block(s, 0, s.len() as int);
    assert(s.subrange(0, s.len() as int) =~= s);
}

/// The keywords of the command line, byte by byte.
pub proof fn lemma_keywords()
    ensures
        kw("version") == seq![118u8, 101, 114, 115, 105, 111, 110],
        kw("--version") == seq![45u8, 45, 118, 101, 114, 115, 105, 111, 110],
        kw("-V") == seq![45u8, 86],
        kw("help") == seq![104u8, 101, 108, 112],
        kw("--help") == seq![45u8, 45, 104, 101, 108, 112],
        kw("-h") == seq![45u8, 104],
        kw("uninstall") == seq![117u8, 110, 105, 110, 115, 116, 97, 108, 108],
        kw("serve") == seq![115u8, 101, 114, 118, 101],
        kw("install") == seq![105u8, 110, 115, 116, 97, 108, 108],
        kw("status") == seq![115u8, 116, 97, 116, 117, 115],
        kw("--port") == seq![45u8, 45, 112, 111, 114, 116],
        kw("--socket") == seq![45u8, 45, 115, 111, 99, 107, 101, 116],
        kw("--socketdir") == seq![45u8, 45, 115, 111, 99, 107, 101, 116, 100, 105, 114],
        kw("--log-file") == seq![45u8, 45, 108, 111, 103, 45, 102, 105, 108, 101],
        kw("--verbose") == seq![45u8, 45, 118, 101, 114, 98, 111, 115, 101],
        kw("extra") == seq![101u8, 120, 116, 114, 97],
        kw("agent") == seq![97u8, 103, 101, 110, 116],
{
    reveal_strlit("version");
    assert("version"@ =~= seq!['v', 'e', 'r', 's', 'i', 'o', 'n']);
    assert(vstd::string::is_ascii("version"));
    assert(kw("version") =~= seq![118u8, 101, 114, 115, 105, 111, 110]);
    reveal_strlit("--version");
    assert("--version"@ =~= seq!['-', '-', 'v', 'e', 'r', 's', 'i', 'o', 'n']);
    assert(vstd::string::is_ascii("--version"));
    assert(kw("--version") =~= seq![45u8, 45, 118, 101, 114, 115, 105, 111, 110]);
    reveal_strlit("-V");
    assert("-V"@ =~= seq!['-', 'V']);
    assert(vstd::string::is_ascii("-V"));
    assert(kw("-V") =~= seq![45u8, 86]);
    reveal_strlit("help");
    assert("help"@ =~= seq!['h', 'e', 'l', 'p']);
    assert(vstd::string::is_ascii("help"));
    assert(kw("help") =~= seq![104u8, 101, 108, 112]);
    reveal_strlit("--help");
    assert("--help"@ =~= seq!['-', '-', 'h', 'e', 'l', 'p']);
    assert(vstd::string::is_ascii("--help"));
    assert(kw("--help") =~= seq![45u8, 45, 104, 101, 108, 112]);
    reveal_strlit("-h");
    assert("-h"@ =~= seq!['-', 'h']);
    assert(vstd::string::is_ascii("-h"));
    assert(kw("-h") =~= seq![45u8, 104]);
    reveal_strlit("uninstall");
    assert("uninstall"@ =~= seq!['u', 'n', 'i', 'n', 's', 't', 'a', 'l', 'l']);
    assert(vstd::string::is_ascii("uninstall"));
    assert(kw("uninstall") =~= seq![117u8, 110, 105, 110, 115, 116, 97, 108, 108]);
    reveal_strlit("serve");
    assert("serve"@ =~= seq!['s', 'e', 'r', 'v', 'e']);
    assert(vstd::string::is_ascii("serve"));
    assert(kw("serve") =~= seq![115u8, 101, 114, 118, 101]);
    reveal_strlit("install");
    assert("install"@ =~= seq!['i', 'n', 's', 't', 'a', 'l', 'l']);
    assert(vstd::string::is_ascii("install"));
    assert(kw("install") =~= seq![105u8, 110, 115, 116, 97, 108, 108]);
    reveal_strlit("status");
    assert("status"@ =~= seq!['s', 't', 'a', 't', 'u', 's']);
    assert(vstd::string::is_ascii("status"));
    assert(kw("status") =~= seq![115u8, 116, 97, 116, 117, 115]);
    reveal_strlit("--port");
    assert("--port"@ =~= seq!['-', '-', 'p', 'o', 'r', 't']);
    assert(vstd::string::is_ascii("--port"));
    assert(kw("--port") =~= seq![45u8, 45, 112, 111, 114, 116]);
    reveal_strlit("--socket");
    assert("--socket"@ =~= seq!['-', '-', 's', 'o', 'c', 'k', 'e', 't']);
    assert(vstd::string::is_ascii("--socket"));
    assert(kw("--socket") =~= seq![45u8, 45, 115, 111, 99, 107, 101, 116]);
    reveal_strlit("--socketdir");
    assert("--socketdir"@ =~= seq!['-', '-', 's', 'o', 'c', 'k', 'e', 't', 'd', 'i', 'r']);
    assert(vstd::string::is_ascii("--socketdir"));
    assert(kw("--socketdir") =~= seq![45u8, 45, 115, 111, 99, 107, 101, 116, 100, 105, 114]);
    reveal_strlit("--log-file");
    assert("--log-file"@ =~= seq!['-', '-', 'l', 'o', 'g', '-', 'f', 'i', 'l', 'e']);
    assert(vstd::string::is_ascii("--log-file"));
    assert(kw("--log-file") =~= seq![45u8, 45, 108, 111, 103, 45, 102, 105, 108, 101]);
    reveal_strlit("--verbose");
    assert("--verbose"@ =~= seq!['-', '-', 'v', 'e', 'r', 'b', 'o', 's', 'e']);
    assert(vstd::string::is_ascii("--verbose"));
    assert(kw("--verbose") =~= seq![45u8, 45, 118, 101, 114, 98, 111, 115, 101]);
    reveal_strlit("extra");
    assert("extra"@ =~= seq!['e', 'x', 't', 'r', 'a']);
    assert(vstd::string::is_ascii("extra"));
    assert(kw("extra") =~= seq![101u8, 120, 116, 114, 97]);
    reveal_strlit("agent");
    assert("agent"@ =~= seq!['a', 'g', 'e', 'n', 't']);
    assert(vstd::string::is_ascii("agent"));
    assert(kw("agent") =~= seq![97u8, 103, 101, 110, 116]);
}

} // verus!
