//! The autostart entry: the arguments and the command line that `install`
//! records under the user's `Run` key.

use vstd::prelude::*;
use vstd::utf8::*;

use crate::cli::{
    args_view, kw, lemma_ascii_is_utf8, lemma_keywords, lemma_options_read_only_from,
    lemma_options_shift, lemma_verbose_takes_no_value, parse_options, port_value,
    socket_name, spec_parse, CmdView, Config, ConfigView, SocketChoice, DEFAULT_PORT,
    default_config, all_ascii,
};
use crate::decimal::{decimal_bytes, decimal_digits, is_digit, lemma_decimal_digits, pow10};

verus! {

/// The registry key under which the autostart entry is written.
pub const RUN_KEY: &'static str = "Software\\Microsoft\\Windows\\CurrentVersion\\Run";

/// The name of the autostart value.
pub const RUN_VALUE: &'static str = "hedwig";

/// The arguments that start a relay with the settings `cfg`: `serve`, then
/// each setting that differs from its default. `--verbose` is not passed.
pub open spec fn spec_serve_args(cfg: ConfigView) -> Seq<Seq<u8>> {
    seq![kw("serve")] + (if cfg.port != DEFAULT_PORT {
        seq![kw("--port"), decimal_digits(cfg.port as nat)]
    } else {
        Seq::empty()
    }) + (if cfg.socket != SocketChoice::Extra {
        seq![kw("--socket"), socket_name(cfg.socket)]
    } else {
        Seq::empty()
    }) + (match cfg.socketdir {
        Some(d) => seq![kw("--socketdir"), d],
        None => Seq::empty(),
    }) + (match cfg.log_file {
        Some(f) => seq![kw("--log-file"), f],
        None => Seq::empty(),
    })
}

/// One argument on a Windows command line: after a space, and in double
/// quotes where it holds a space.
pub open spec fn quoted_arg(a: Seq<u8>) -> Seq<u8> {
    if a.contains(32) {
        seq![32u8, 34] + a + seq![34u8]
    } else {
        seq![32u8] + a
    }
}

/// The arguments as they follow the program on a command line.
pub open spec fn args_line(args: Seq<Seq<u8>>) -> Seq<u8>
    decreases args.len(),
{
    if args.len() == 0 {
        Seq::empty()
    } else {
        args_line(args.drop_last()) + quoted_arg(args.last())
    }
}

/// The command line of the autostart entry: the program in double quotes,
/// then the serve arguments.
pub open spec fn spec_command_line(exe: Seq<u8>, cfg: ConfigView) -> Seq<u8> {
    seq![34u8] + exe + seq![34u8] + args_line(spec_serve_args(cfg))
}

/// What splitting a command line into words has made of a prefix of it: the
/// finished words, the word in progress, whether a word is in progress, and
/// whether a double quote is open.
pub struct WordState {
    pub words: Seq<Seq<u8>>,
    pub current: Seq<u8>,
    pub in_word: bool,
    pub in_quote: bool,
}

/// Nothing read yet.
pub open spec fn no_words() -> WordState {
    WordState { words: Seq::empty(), current: Seq::empty(), in_word: false, in_quote: false }
}

/// One byte of a command line: a double quote opens or closes a quoted part
/// and is dropped; a space or a tab outside quotes ends the word in progress;
/// any other byte belongs to the word.
pub open spec fn word_step(st: WordState, b: u8) -> WordState {
    if b == 34 {
        WordState { in_quote: !st.in_quote, in_word: true, ..st }
    } else if (b == 32 || b == 9) && !st.in_quote {
        if st.in_word {
            WordState { words: st.words.push(st.current), current: Seq::empty(), in_word: false, in_quote: false }
        } else {
            st
        }
    } else {
        WordState { current: st.current.push(b), in_word: true, ..st }
    }
}

/// The state after the bytes of `s`, from `st`.
pub open spec fn word_run(st: WordState, s: Seq<u8>) -> WordState
    decreases s.len(),
{
    if s.len() == 0 {
        st
    } else {
        word_step(word_run(st, s.drop_last()), s.last())
    }
}

/// The words of a command line as a Windows program receives them
/// (`CommandLineToArgvW` and the C runtime split alike here), for a line in
/// which no backslash stands right before a double quote and no two double
/// quotes stand together: the rules for those two cases are left out.
pub open spec fn command_words(line: Seq<u8>) -> Seq<Seq<u8>> {
    let st = word_run(no_words(), line);
    if st.in_word {
        st.words.push(st.current)
    } else {
        st.words
    }
}

/// An argument that a command line carries as it is: not empty, without a
/// double quote or a tab, and, where it holds a space and is quoted, not
/// ending in a backslash (which would escape the closing quote).
pub open spec fn plain_arg(a: Seq<u8>) -> bool {
    &&& a.len() > 0
    &&& forall|k: int| 0 <= k < a.len() ==> a[k] != 34 && a[k] != 9
    &&& a.last() != 92
}

/// Reading a line in two parts reads the first, then the second from there.
proof fn lemma_word_run_append(st: WordState, s: Seq<u8>, t: Seq<u8>)
    ensures
        word_run(st, s + t) == word_run(word_run(st, s), t),
    decreases t.len(),
{
    if t.len() == 0 {
        assert(s + t =~= s);
    } else {
        assert((s + t).drop_last() =~= s + t.drop_last());
        assert((s + t).last() == t.last());
        lemma_word_run_append(st, s, t.drop_last());
    }
}

/// Bytes that neither quote nor, outside quotes, separate go into the word in
/// progress.
proof fn lemma_literal_bytes(st: WordState, a: Seq<u8>)
    requires
        forall|k: int| 0 <= k < a.len() ==> a[k] != 34 && (!st.in_quote ==> a[k] != 32 && a[k] != 9),
    ensures
        word_run(st, a) == (WordState { current: st.current + a, in_word: st.in_word || a.len() > 0, ..st }),
    decreases a.len(),
{
    if a.len() == 0 {
        assert(st.current + a =~= st.current);
    } else {
        let a0 = a.drop_last();
        assert forall|k: int| 0 <= k < a0.len() implies a0[k] != 34 && (!st.in_quote ==> a0[k] != 32
            && a0[k] != 9) by {
            assert(a0[k] == a[k]);
        }
        lemma_literal_bytes(st, a0);
        assert(a[a.len() - 1] != 34);
        assert((st.current + a0).push(a.last()) =~= st.current + a);
    }
}

/// One argument as `quoted_arg` writes it, read after a word: the word is
/// finished and the argument is the word in progress.
proof fn lemma_quoted_arg_words(st: WordState, a: Seq<u8>)
    requires
        st.in_word,
        !st.in_quote,
        plain_arg(a),
    ensures
        word_run(st, quoted_arg(a)) == (WordState {
            words: st.words.push(st.current),
            current: a,
            in_word: true,
            in_quote: false,
        }),
{
    let sp = seq![32u8];
    assert(sp.drop_last() =~= Seq::<u8>::empty());
    assert(sp.last() == 32u8);
    assert(word_run(st, sp.drop_last()) == st);
    let after_space = WordState { words: st.words.push(st.current), current: Seq::empty(), in_word: false, in_quote: false };
    assert(word_run(st, sp) == after_space);
    if a.contains(32) {
        let open = seq![32u8, 34];
        assert(open.drop_last() =~= sp);
        assert(open.last() == 34u8);
        let opened = WordState { in_quote: true, in_word: true, ..after_space };
        assert(word_run(st, open) == opened);
        lemma_literal_bytes(opened, a);
        assert(Seq::<u8>::empty() + a =~= a);
        lemma_word_run_append(st, open, a);
        let closing = seq![34u8];
        assert(closing.drop_last() =~= Seq::<u8>::empty());
        assert(closing.last() == 34u8);
        let filled = WordState { current: a, ..opened };
        assert(word_run(st, open + a) == filled);
        assert(word_run(filled, closing.drop_last()) == filled);
        lemma_word_run_append(st, open + a, closing);
        assert(quoted_arg(a) =~= open + a + closing);
    } else {
        assert forall|k: int| 0 <= k < a.len() implies a[k] != 34 && a[k] != 32 && a[k] != 9 by {
            if a[k] == 32 {
                assert(a.contains(32));
            }
        }
        lemma_literal_bytes(after_space, a);
        assert(Seq::<u8>::empty() + a =~= a);
        lemma_word_run_append(st, sp, a);
        assert(quoted_arg(a) =~= sp + a);
    }
}

/// Arguments as `args_line` writes them, read after a word: that word and
/// all arguments but the last are finished, and the last is in progress.
proof fn lemma_args_line_words(st: WordState, args: Seq<Seq<u8>>)
    requires
        st.in_word,
        !st.in_quote,
        forall|k: int| 0 <= k < args.len() ==> plain_arg(#[trigger] args[k]),
    ensures
        word_run(st, args_line(args)) == (if args.len() == 0 {
            st
        } else {
            WordState {
                words: st.words.push(st.current) + args.drop_last(),
                current: args.last(),
                in_word: true,
                in_quote: false,
            }
        }),
    decreases args.len(),
{
    if args.len() == 0 {
        assert(args_line(args) =~= Seq::<u8>::empty());
    } else {
        let front = args.drop_last();
        assert forall|k: int| 0 <= k < front.len() implies plain_arg(#[trigger] front[k]) by {
            assert(front[k] == args[k]);
        }
        lemma_args_line_words(st, front);
        let st1 = word_run(st, args_line(front));
        assert(plain_arg(args[args.len() - 1]));
        lemma_quoted_arg_words(st1, args.last());
        lemma_word_run_append(st, args_line(front), quoted_arg(args.last()));
        if front.len() == 0 {
            assert(st.words.push(st.current) + args.drop_last() =~= st.words.push(st.current));
        } else {
            assert((st.words.push(st.current) + front.drop_last()).push(front.last())
                =~= st.words.push(st.current) + front);
        }
    }
}

/// A command line written as the autostart entry writes it, the program in
/// double quotes and then each argument after a space, in double quotes where
/// it holds a space, splits back into the program and the arguments.
pub proof fn lemma_command_words_of_line(exe: Seq<u8>, args: Seq<Seq<u8>>)
    requires
        plain_arg(exe),
        forall|k: int| 0 <= k < args.len() ==> plain_arg(#[trigger] args[k]),
    ensures
        command_words(seq![34u8] + exe + seq![34u8] + args_line(args)) == seq![exe] + args,
{
    let q = seq![34u8];
    assert(q.drop_last() =~= Seq::<u8>::empty());
    assert(q.last() == 34u8);
    assert(word_run(no_words(), q.drop_last()) == no_words());
    let opened = WordState { in_quote: true, in_word: true, ..no_words() };
    assert(word_run(no_words(), q) == opened);
    lemma_literal_bytes(opened, exe);
    assert(Seq::<u8>::empty() + exe =~= exe);
    lemma_word_run_append(no_words(), q, exe);
    let filled = WordState { current: exe, ..opened };
    assert(word_run(no_words(), q + exe) == filled);
    assert(word_run(filled, q.drop_last()) == filled);
    lemma_word_run_append(no_words(), q + exe, q);
    let st = WordState { words: Seq::empty(), current: exe, in_word: true, in_quote: false };
    assert(word_run(no_words(), q + exe + q) == st);
    lemma_args_line_words(st, args);
    lemma_word_run_append(no_words(), q + exe + q, args_line(args));
    if args.len() == 0 {
        assert(seq![exe] + args =~= seq![exe]);
        assert(Seq::<Seq<u8>>::empty().push(exe) =~= seq![exe]);
    } else {
        assert((Seq::<Seq<u8>>::empty().push(exe) + args.drop_last()).push(args.last()) =~= seq![exe] + args);
    }
}

/// The keywords and values that the autostart arguments can hold besides the
/// paths are carried as they are.
proof fn lemma_serve_words_plain(cfg: ConfigView)
    requires
        cfg.socketdir matches Some(d) ==> plain_arg(d),
        cfg.log_file matches Some(f) ==> plain_arg(f),
    ensures
        forall|k: int| 0 <= k < spec_serve_args(cfg).len() ==> plain_arg(#[trigger] spec_serve_args(cfg)[k]),
{
    lemma_keywords();
    assert(plain_arg(kw("serve")));
    assert(plain_arg(kw("--port")));
    assert(plain_arg(kw("--socket")));
    assert(plain_arg(kw("--socketdir")));
    assert(plain_arg(kw("--log-file")));
    assert(plain_arg(kw("agent")));
    assert(plain_arg(kw("extra")));
    let d = decimal_digits(cfg.port as nat);
    assert(pow10(5) == 100000) by {
        reveal_with_fuel(pow10, 6);
    }
    lemma_decimal_digits(cfg.port as nat, 5);
    assert(forall|k: int| 0 <= k < d.len() ==> #[trigger] is_digit(d[k]));
    assert(is_digit(d[d.len() - 1]));
    assert(plain_arg(d));
    let a = spec_serve_args(cfg);
    let port_part = if cfg.port != DEFAULT_PORT {
        seq![kw("--port"), d]
    } else {
        Seq::empty()
    };
    let socket_part = if cfg.socket != SocketChoice::Extra {
        seq![kw("--socket"), socket_name(cfg.socket)]
    } else {
        Seq::empty()
    };
    let dir_part = match cfg.socketdir {
        Some(x) => seq![kw("--socketdir"), x],
        None => Seq::empty(),
    };
    let log_part = match cfg.log_file {
        Some(f) => seq![kw("--log-file"), f],
        None => Seq::empty(),
    };
    let parts = seq![kw("serve")] + port_part + socket_part + dir_part + log_part;
    assert(a =~= parts);
    assert forall|k: int| 0 <= k < a.len() implies plain_arg(#[trigger] a[k]) by {
        let i1 = 1int;
        let i2 = i1 + port_part.len();
        let i3 = i2 + socket_part.len();
        let i4 = i3 + dir_part.len();
        if k < i1 {
            assert(a[k] == kw("serve"));
        } else if k < i2 {
            assert(a[k] == port_part[k - i1]);
        } else if k < i3 {
            assert(a[k] == socket_part[k - i2]);
        } else if k < i4 {
            assert(a[k] == dir_part[k - i3]);
        } else {
            assert(a[k] == log_part[k - i4]);
        }
    }
}

/// The autostart entry starts the relay with exactly the serve arguments:
/// the words that Windows makes of its command line are the program and then
/// `serve_args`, every argument that holds a space kept whole by its quotes.
/// Paths with a double quote or a tab, or that hold a space and end in a
/// backslash, are left out: the entry does not escape them.
pub proof fn lemma_command_line_splits_back(exe: Seq<u8>, cfg: ConfigView)
    requires
        plain_arg(exe),
        cfg.socketdir matches Some(d) ==> plain_arg(d),
        cfg.log_file matches Some(f) ==> plain_arg(f),
    ensures
        command_words(spec_command_line(exe, cfg)) == seq![exe] + spec_serve_args(cfg),
{
    lemma_serve_words_plain(cfg);
    lemma_command_words_of_line(exe, spec_serve_args(cfg));
}

/// The bytes of a keyword, as a vector.
fn keyword_bytes(word: &str) -> (r: Vec<u8>)
    ensures
        r@ == kw(word),
{
    vstd::slice::slice_to_vec(word.as_bytes())
}

/// The arguments that start a relay with the settings `cfg`.
pub fn serve_args(cfg: &Config) -> (r: Vec<Vec<u8>>)
    ensures
        args_view(r@) == spec_serve_args(cfg@),
{
    let mut args: Vec<Vec<u8>> = Vec::new();
    args.push(keyword_bytes("serve"));
    let ghost s0 = seq![kw("serve")];
    assert(args_view(args@) =~= s0);
    if cfg.port != DEFAULT_PORT {
        args.push(keyword_bytes("--port"));
        args.push(decimal_bytes(cfg.port as u32));
    }
    let ghost s1 = s0 + (if cfg.port != DEFAULT_PORT {
        seq![kw("--port"), decimal_digits(cfg.port as nat)]
    } else {
        Seq::empty()
    });
    assert(args_view(args@) =~= s1);
    if cfg.socket != SocketChoice::Extra {
        args.push(keyword_bytes("--socket"));
        args.push(vstd::slice::slice_to_vec(cfg.socket.name().as_bytes()));
    }
    let ghost s2 = s1 + (if cfg.socket != SocketChoice::Extra {
        seq![kw("--socket"), socket_name(cfg.socket)]
    } else {
        Seq::empty()
    });
    assert(args_view(args@) =~= s2);
    match &cfg.socketdir {
        Some(dir) => {
            args.push(keyword_bytes("--socketdir"));
            args.push(vstd::slice::slice_to_vec(dir.as_slice()));
        },
        None => {},
    }
    let ghost s3 = s2 + (match cfg@.socketdir {
        Some(d) => seq![kw("--socketdir"), d],
        None => Seq::empty(),
    });
    assert(args_view(args@) =~= s3);
    match &cfg.log_file {
        Some(f) => {
            args.push(keyword_bytes("--log-file"));
            args.push(vstd::slice::slice_to_vec(f.as_slice()));
        },
        None => {},
    }
    assert(args_view(args@) =~= spec_serve_args(cfg@));
    args
}

/// Appends the bytes of `src` to `dst`.
fn append_bytes(dst: &mut Vec<u8>, src: &[u8])
    ensures
        final(dst)@ == old(dst)@ + src@,
{
    let mut i: usize = 0;
    while i < src.len()
        invariant
            i <= src@.len(),
            dst@ == old(dst)@ + src@.take(i as int),
        decreases src@.len() - i,
    {
        dst.push(src[i]);
        i = i + 1;
        assert(dst@ =~= old(dst)@ + src@.take(i as int));
    }
    assert(src@.take(i as int) =~= src@);
}

/// `a` holds a space.
fn has_space(a: &[u8]) -> (r: bool)
    ensures
        r == a@.contains(32),
{
    let mut i: usize = 0;
    while i < a.len()
        invariant
            i <= a@.len(),
            forall|j: int| 0 <= j < i ==> a@[j] != 32,
        decreases a@.len() - i,
    {
        if a[i] == 32 {
            assert(a@[i as int] == 32);
            return true;
        }
        i = i + 1;
    }
    false
}

/// The command line of the autostart entry. A space cannot occur inside a
/// multi-byte sequence, so scanning the encoded form for one is equivalent
/// to scanning the decoded string.
pub fn command_line(exe: &[u8], cfg: &Config) -> (r: Vec<u8>)
    ensures
        r@ == spec_command_line(exe@, cfg@),
{
    let mut line: Vec<u8> = Vec::new();
    line.push(34);
    append_bytes(&mut line, exe);
    line.push(34);
    let args = serve_args(cfg);
    let ghost av = args_view(args@);
    assert(line@ =~= seq![34u8] + exe@ + seq![34u8] + args_line(av.take(0)));
    let mut i: usize = 0;
    while i < args.len()
        invariant
            av == args_view(args@),
            av == spec_serve_args(cfg@),
            i <= args@.len(),
            line@ == seq![34u8] + exe@ + seq![34u8] + args_line(av.take(i as int)),
        decreases args@.len() - i,
    {
        let a = args[i].as_slice();
        assert(av.take(i + 1).drop_last() =~= av.take(i as int));
        assert(av.take(i + 1).last() == a@);
        if has_space(a) {
            line.push(32);
            line.push(34);
            append_bytes(&mut line, a);
            line.push(34);
        } else {
            line.push(32);
            append_bytes(&mut line, a);
        }
        i = i + 1;
        assert(line@ =~= seq![34u8] + exe@ + seq![34u8] + args_line(av.take(i as int)));
    }
    assert(av.take(i as int) =~= av);
    line
}

/// A space cannot occur inside a multi-byte sequence: in UTF-8 text, the
/// encoded bytes hold a space exactly when the text does, so scanning the
/// encoded form for one is scanning the decoded string.
pub proof fn lemma_space_byte_is_space_char(a: Seq<u8>)
    requires
        valid_utf8(a),
    ensures
        a.contains(32) <==> decode_utf8(a).contains(' '),
    decreases a.len(),
{
    if a.len() == 0 {
        assert(decode_utf8(a) =~= Seq::<char>::empty());
    } else {
        let k = length_of_first_scalar(a);
        let rest = pop_first_scalar(a);
        let cp = decode_first_scalar(a);
        let c = cp as char;
        assert(1 <= k <= 4 && k <= a.len());
        assert(rest =~= a.subrange(k, a.len() as int));
        assert(rest.len() < a.len());
        lemma_space_byte_is_space_char(rest);
        let d = decode_utf8(a);
        assert(d == seq![c] + decode_utf8(rest));
        decode_utf8_first_scalar(a);
        assert(encode_scalar(c as u32) == a.subrange(0, k));
        if c == ' ' {
            assert(c as u32 == 32);
            assert((32u32 & 0x7f) as u8 == 32u8) by (bit_vector);
            assert(encode_scalar(32) =~= seq![32u8]);
        }
        assert(c == ' ' <==> (k == 1 && a[0] == 32)) by {
            if k == 1 {
                let b = a[0];
                assert(b <= 0x7f ==> (b & 0x7f) as u32 == b as u32) by (bit_vector);
                assert(cp == a[0] as u32);
                if a[0] == 32 {
                    assert(cp == 32);
                }
            } else {
                if c == ' ' {
                    assert(a.subrange(0, k).len() == k);
                }
            }
        }
        assert forall|i: int| 0 <= i < k implies (#[trigger] a[i] == 32 <==> (k == 1 && a[0] == 32)) by {
            if k > 1 {
                assert(a[i] >= 0x80);
            }
        }
        if a.contains(32) {
            let i = choose|i: int| 0 <= i < a.len() && a[i] == 32;
            if i >= k {
                assert(rest[i - k] == 32);
                assert(rest.contains(32));
                let j = choose|j: int| 0 <= j < decode_utf8(rest).len() && decode_utf8(rest)[j] == ' ';
                assert(d[j + 1] == ' ');
            } else {
                assert(d[0] == ' ');
            }
            assert(d.contains(' '));
        }
        if d.contains(' ') {
            let j = choose|j: int| 0 <= j < d.len() && d[j] == ' ';
            if j > 0 {
                assert(decode_utf8(rest)[j - 1] == ' ');
                assert(decode_utf8(rest).contains(' '));
                let i = choose|i: int| 0 <= i < rest.len() && rest[i] == 32;
                assert(a[i + k] == 32);
            } else {
                assert(a[0] == 32);
            }
            assert(a.contains(32));
        }
    }
}

/// The options of the autostart arguments, read after `serve` from settings
/// that differ from the defaults in `verbose` alone, give back `cfg` with that
/// `verbose`.
proof fn lemma_serve_options(cfg: ConfigView, v: bool)
    requires
        cfg.port != 0,
    ensures
        parse_options(spec_serve_args(cfg), 1, ConfigView { verbose: v, ..default_config() })
            == Ok::<ConfigView, crate::cli::CliErrorView>(ConfigView { verbose: v, ..cfg }),
        spec_serve_args(cfg)[0] == kw("serve"),
{
    lemma_keywords();
    encode_utf8_valid_utf8("serve"@);
    encode_utf8_valid_utf8("--port"@);
    encode_utf8_valid_utf8("--socket"@);
    encode_utf8_valid_utf8("--socketdir"@);
    encode_utf8_valid_utf8("--log-file"@);
    encode_utf8_valid_utf8("agent"@);
    let a = spec_serve_args(cfg);
    let port_part = if cfg.port != DEFAULT_PORT {
        seq![kw("--port"), decimal_digits(cfg.port as nat)]
    } else {
        Seq::empty()
    };
    let socket_part = if cfg.socket != SocketChoice::Extra {
        seq![kw("--socket"), socket_name(cfg.socket)]
    } else {
        Seq::empty()
    };
    let dir_part = match cfg.socketdir {
        Some(d) => seq![kw("--socketdir"), d],
        None => Seq::empty(),
    };
    let log_part = match cfg.log_file {
        Some(f) => seq![kw("--log-file"), f],
        None => Seq::empty(),
    };
    let i1 = 1int;
    let i2 = i1 + port_part.len();
    let i3 = i2 + socket_part.len();
    let i4 = i3 + dir_part.len();
    let i5 = i4 + log_part.len();
    assert(a =~= seq![kw("serve")] + port_part + socket_part + dir_part + log_part);
    assert(a.len() == i5);
    let c0 = ConfigView { verbose: v, ..default_config() };
    let c1 = ConfigView { port: cfg.port, ..c0 };
    let c2 = ConfigView { socket: cfg.socket, ..c1 };
    let c3 = ConfigView { socketdir: cfg.socketdir, ..c2 };
    let c4 = ConfigView { log_file: cfg.log_file, ..c3 };
    if cfg.port != DEFAULT_PORT {
        let d = decimal_digits(cfg.port as nat);
        assert(pow10(5) == 100000) by {
            reveal_with_fuel(pow10, 6);
        }
        lemma_decimal_digits(cfg.port as nat, 5);
        assert(all_ascii(d));
        lemma_ascii_is_utf8(d);
        assert(d[0] != 43);
        assert(port_value(d) == Some(cfg.port));
        assert(a[i1] == kw("--port"));
        assert(a[i1 + 1] == d);
        assert(parse_options(a, i1, c0) == parse_options(a, i2, c1));
    } else {
        assert(c1 == c0);
    }
    if cfg.socket != SocketChoice::Extra {
        assert(a[i2] == kw("--socket"));
        assert(a[i2 + 1] == kw("agent"));
        assert(parse_options(a, i2, c1) == parse_options(a, i3, c2));
    } else {
        assert(c2 == c1);
    }
    if cfg.socketdir is Some {
        assert(a[i3] == kw("--socketdir"));
        assert(parse_options(a, i3, c2) == parse_options(a, i4, c3));
    } else {
        assert(c3 == c2);
    }
    if cfg.log_file is Some {
        assert(a[i4] == kw("--log-file"));
        assert(parse_options(a, i4, c3) == parse_options(a, i5, c4));
    } else {
        assert(c4 == c3);
    }
    assert(parse_options(a, i5, c4) == Ok::<ConfigView, crate::cli::CliErrorView>(c4));
    assert(c4 == ConfigView { verbose: v, ..cfg });
    assert(a[0] == kw("serve"));
}

/// The flags given to `install` are baked into the autostart entry: parsing
/// the arguments that the entry runs gives back `serve` with the same
/// settings. `--verbose` alone is not carried over, so the settings come back
/// with `verbose` off. A port of 0 is left out: the command line refuses it.
pub proof fn lemma_serve_args_parse_back(cfg: ConfigView)
    requires
        cfg.port != 0,
    ensures
        spec_parse(spec_serve_args(cfg)) == Ok::<CmdView, crate::cli::CliErrorView>(
            CmdView::Serve(ConfigView { verbose: false, ..cfg }),
        ),
{
    lemma_keywords();
    encode_utf8_valid_utf8("serve"@);
    lemma_serve_options(cfg, false);
    assert(ConfigView { verbose: false, ..default_config() } == default_config());
}

/// `--verbose` put right after `serve` in the autostart arguments turns
/// verbose output on and takes nothing else with it: every other setting
/// comes back as it was.
pub proof fn lemma_verbose_serve_args_parse_back(cfg: ConfigView)
    requires
        cfg.port != 0,
    ensures
        spec_parse(seq![kw("serve"), kw("--verbose")] + spec_serve_args(cfg).drop_first())
            == Ok::<CmdView, crate::cli::CliErrorView>(CmdView::Serve(ConfigView { verbose: true, ..cfg })),
{
    lemma_keywords();
    encode_utf8_valid_utf8("serve"@);
    let s = spec_serve_args(cfg);
    lemma_serve_options(cfg, true);
    let a = seq![kw("serve"), kw("--verbose")] + s.drop_first();
    let b = seq![kw("--verbose")] + s;
    let c0 = default_config();
    let cv = ConfigView { verbose: true, ..c0 };
    assert(a.len() == b.len());
    assert(a[1] == kw("--verbose"));
    lemma_verbose_takes_no_value(a, 1, c0);
    assert forall|j: int| 2 <= j < a.len() implies a[j] == b[j] by {
        assert(a[j] == s[j - 1]);
        assert(b[j] == s[j - 1]);
    }
    lemma_options_read_only_from(a, b, 2, cv);
    lemma_options_shift(kw("--verbose"), s, 1, cv);
    assert(a[0] == kw("serve"));
}

} // verus!
