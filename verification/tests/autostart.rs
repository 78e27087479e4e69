use hedwig::autostart::{command_line, serve_args};
use hedwig::cli::{parse, Cmd, Config, SocketChoice};

fn strings(v: Vec<Vec<u8>>) -> Vec<String> {
    v.into_iter().map(|a| String::from_utf8(a).unwrap()).collect()
}

#[test]
fn default_config_serializes_to_bare_serve() {
    assert_eq!(strings(serve_args(&Config::default())), vec!["serve".to_string()]);
}

#[test]
fn non_default_options_are_passed_through() {
    let cfg = Config {
        port: 5000,
        socket: SocketChoice::Agent,
        socketdir: Some(br"C:\some dir\gnupg".to_vec()),
        log_file: None,
        verbose: false,
    };
    assert_eq!(
        strings(serve_args(&cfg)),
        [
            "serve",
            "--port",
            "5000",
            "--socket",
            "agent",
            "--socketdir",
            r"C:\some dir\gnupg"
        ]
        .map(String::from)
    );
}

#[test]
fn command_line_quotes_paths_with_spaces() {
    let cfg = Config {
        socketdir: Some(br"C:\some dir\gnupg".to_vec()),
        ..Config::default()
    };
    assert_eq!(
        String::from_utf8(command_line(br"C:\Program Files\hedwig.exe", &cfg)).unwrap(),
        r#""C:\Program Files\hedwig.exe" serve --socketdir "C:\some dir\gnupg""#
    );
}

#[test]
fn log_file_is_passed_and_verbose_is_not() {
    let cfg = Config {
        port: 1,
        log_file: Some(br"C:\logs\hedwig.txt".to_vec()),
        verbose: true,
        ..Config::default()
    };
    assert_eq!(
        String::from_utf8(command_line(br"C:\bin\hedwig.exe", &cfg)).unwrap(),
        r#""C:\bin\hedwig.exe" serve --port 1 --log-file C:\logs\hedwig.txt"#
    );
}

#[test]
fn serve_args_parse_back_to_the_same_settings() {
    let cfg = Config {
        port: 8080,
        socket: SocketChoice::Agent,
        socketdir: Some(br"C:\some dir\gnupg".to_vec()),
        log_file: Some(b"log.txt".to_vec()),
        verbose: true,
    };
    assert_eq!(
        parse(&serve_args(&cfg)),
        Ok(Cmd::Serve(Config { verbose: false, ..cfg.clone() }))
    );
    assert_eq!(
        parse(&serve_args(&Config::default())),
        Ok(Cmd::Serve(Config::default()))
    );
}
