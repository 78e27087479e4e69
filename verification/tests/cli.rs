use hedwig::cli::{parse, parse_port, CliError, Cmd, Config, SocketChoice, TextField, ValueOption, DEFAULT_PORT, USAGE};

fn p(args: &[&str]) -> Result<Cmd, CliError> {
    parse(&args.iter().map(|a| a.as_bytes().to_vec()).collect::<Vec<_>>())
}

#[test]
fn no_args_is_help() {
    assert_eq!(p(&[]), Ok(Cmd::Help));
}

#[test]
fn serve_defaults() {
    assert_eq!(p(&["serve"]), Ok(Cmd::Serve(Config::default())));
}

#[test]
fn all_options() {
    let cmd = p(&[
        "serve",
        "--port",
        "5000",
        "--socket",
        "agent",
        "--socketdir",
        r"C:\x",
        "--log-file",
        r"C:\l.txt",
        "--verbose",
    ])
    .unwrap();
    assert_eq!(
        cmd,
        Cmd::Serve(Config {
            port: 5000,
            socket: SocketChoice::Agent,
            socketdir: Some(br"C:\x".to_vec()),
            log_file: Some(br"C:\l.txt".to_vec()),
            verbose: true,
        })
    );
}

#[test]
fn cli_port_zero_rejected() {
    assert!(p(&["serve", "--port", "0"]).is_err());
}

#[test]
fn port_overflow_rejected() {
    assert!(p(&["serve", "--port", "65536"]).is_err());
}

#[test]
fn port_missing_value_rejected() {
    assert!(p(&["serve", "--port"]).is_err());
}

#[test]
fn bad_socket_rejected() {
    assert!(p(&["serve", "--socket", "browser"]).is_err());
}

#[test]
fn unknown_command_rejected() {
    assert!(p(&["frobnicate"]).is_err());
}

#[test]
fn unknown_option_rejected() {
    assert!(p(&["serve", "--frob"]).is_err());
}

#[test]
fn uninstall_takes_no_options() {
    assert!(p(&["uninstall", "--port", "1"]).is_err());
    assert_eq!(p(&["uninstall"]), Ok(Cmd::Uninstall));
}

#[test]
fn version_forms() {
    assert_eq!(p(&["version"]), Ok(Cmd::Version));
    assert_eq!(p(&["--version"]), Ok(Cmd::Version));
    assert_eq!(p(&["-V"]), Ok(Cmd::Version));
}

#[test]
fn each_error_names_its_argument() {
    assert_eq!(p(&["serve", "--port", "0"]), Err(CliError::BadPort(b"0".to_vec())));
    assert_eq!(p(&["serve", "--port", "65536"]), Err(CliError::BadPort(b"65536".to_vec())));
    assert_eq!(p(&["serve", "--port"]), Err(CliError::MissingValue(ValueOption::Port)));
    assert_eq!(p(&["serve", "--socket"]), Err(CliError::MissingValue(ValueOption::Socket)));
    assert_eq!(p(&["serve", "--socketdir"]), Err(CliError::MissingValue(ValueOption::SocketDir)));
    assert_eq!(p(&["serve", "--log-file"]), Err(CliError::MissingValue(ValueOption::LogFile)));
    assert_eq!(
        p(&["serve", "--socket", "browser"]),
        Err(CliError::BadSocket(b"browser".to_vec()))
    );
    assert_eq!(p(&["frobnicate"]), Err(CliError::UnknownCommand(b"frobnicate".to_vec())));
    assert_eq!(p(&["serve", "--frob"]), Err(CliError::UnknownOption(b"--frob".to_vec())));
    assert_eq!(
        p(&["uninstall", "--port", "1"]),
        Err(CliError::UnexpectedArgument(b"--port".to_vec()))
    );
}

#[test]
fn text_is_checked_for_words_and_values_but_not_paths() {
    let bad = vec![0xffu8, 0xfe];
    assert_eq!(
        parse(&[bad.clone()]),
        Err(CliError::NotText(TextField::Command, bad.clone()))
    );
    assert_eq!(
        parse(&[b"status".to_vec(), bad.clone()]),
        Err(CliError::NotText(TextField::OptionName, bad.clone()))
    );
    assert_eq!(
        parse(&[b"serve".to_vec(), b"--port".to_vec(), bad.clone()]),
        Err(CliError::NotText(TextField::Port, bad.clone()))
    );
    assert_eq!(
        parse(&[b"serve".to_vec(), b"--socket".to_vec(), bad.clone()]),
        Err(CliError::NotText(TextField::Socket, bad.clone()))
    );
    // a path need not be text
    assert_eq!(
        parse(&[b"install".to_vec(), b"--socketdir".to_vec(), bad.clone()]),
        Ok(Cmd::Install(Config { socketdir: Some(bad.clone()), ..Config::default() }))
    );
    // extra arguments after version are refused whether text or not
    assert_eq!(
        parse(&[b"help".to_vec(), bad.clone()]),
        Err(CliError::UnexpectedArgument(bad))
    );
}

#[test]
fn help_forms_and_status() {
    assert_eq!(p(&["help"]), Ok(Cmd::Help));
    assert_eq!(p(&["--help"]), Ok(Cmd::Help));
    assert_eq!(p(&["-h"]), Ok(Cmd::Help));
    assert_eq!(
        p(&["status", "--socket", "extra"]),
        Ok(Cmd::Status(Config::default()))
    );
}

#[test]
fn later_options_override_earlier_ones() {
    assert_eq!(
        p(&["serve", "--port", "1", "--port", "2"]),
        Ok(Cmd::Serve(Config { port: 2, ..Config::default() }))
    );
}

#[test]
fn port_reads_as_str_parse_u16_reads() {
    for text in ["5000", "+5000", "065535", "0", "1", "+", "", "-1", "-0", " 1", "1 ", "65536", "99999999999999999999", "0000000000000000047470"] {
        let expected = text.parse::<u16>().ok();
        assert_eq!(parse_port(text.as_bytes()), expected, "for {text:?}");
    }
}

#[test]
fn defaults_and_socket_names() {
    let cfg = Config::default();
    assert_eq!(cfg.port, DEFAULT_PORT);
    assert_eq!(DEFAULT_PORT, 47470);
    assert_eq!(cfg.socket, SocketChoice::Extra);
    assert_eq!(SocketChoice::Extra.file_name(), "S.gpg-agent.extra");
    assert_eq!(SocketChoice::Agent.file_name(), "S.gpg-agent");
    assert!(SocketChoice::Extra.expects_restricted());
    assert!(!SocketChoice::Agent.expects_restricted());
    assert_eq!(SocketChoice::Agent.name(), "agent");
    assert_eq!(SocketChoice::Extra.name(), "extra");
    assert!(USAGE.starts_with("hedwig - forward"));
}
