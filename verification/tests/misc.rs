use hedwig::decimal::decimal_bytes;
use hedwig::gpgconf::{asks_gpgconf, path_entries, socket_dir, SocketDir};
use hedwig::registry::{delete_succeeded, nul_terminated, units_for_bytes, until_nul, wide_byte_len};
use hedwig::serve::{has_room, MAX_INFLIGHT};
use hedwig::status::{check_greeting, check_mode, finish_line, trimmed, StatusError};
use hedwig::cli::SocketChoice;

fn entries(s: &str) -> Vec<String> {
    path_entries(s.as_bytes())
        .into_iter()
        .map(|e| String::from_utf8(e).unwrap())
        .collect()
}

#[test]
fn path_entries_split_on_semicolons() {
    assert_eq!(entries(r"C:\a;C:\b;C:\c"), vec![r"C:\a", r"C:\b", r"C:\c"]);
}

#[test]
fn path_entries_skip_empty_entries() {
    assert_eq!(entries(r";;C:\a"), vec![r"C:\a"]);
    assert_eq!(entries(""), Vec::<String>::new());
    assert_eq!(entries(";"), Vec::<String>::new());
}

#[test]
fn path_entries_honour_quotes() {
    assert_eq!(
        entries(r#"c:\foo;c:\som"e;di"r;c:\bar"#),
        vec![r"c:\foo", r"c:\some;dir", r"c:\bar"]
    );
    assert_eq!(entries(r#""C:\Program Files\GnuPG\bin""#), vec![r"C:\Program Files\GnuPG\bin"]);
}

#[test]
fn decimal_numerals() {
    for n in [0u32, 7, 10, 47470, 65535, u32::MAX] {
        assert_eq!(decimal_bytes(n), n.to_string().into_bytes());
    }
}

#[test]
fn nul_terminated_is_utf16_with_a_nul() {
    for s in ["", "hedwig", r"Software\Microsoft\Windows\CurrentVersion\Run", "é€😀"] {
        let mut expected: Vec<u16> = s.encode_utf16().collect();
        expected.push(0);
        assert_eq!(nul_terminated(s), expected);
    }
}

#[test]
fn registry_sizes_and_answers() {
    assert!(delete_succeeded(0));
    assert!(delete_succeeded(2));
    assert!(!delete_succeeded(5));
    assert_eq!(wide_byte_len(10), Some(20));
    assert_eq!(wide_byte_len(0x7fff_ffff), Some(0xffff_fffe));
    assert_eq!(wide_byte_len(0x8000_0000), None);
    assert_eq!(units_for_bytes(0), 0);
    assert_eq!(units_for_bytes(5), 3);
    assert_eq!(units_for_bytes(u32::MAX), 0x8000_0000);
    assert_eq!(until_nul(&[65, 66, 0, 67]), 2);
    assert_eq!(until_nul(&[65, 66]), 2);
}

#[test]
fn the_inflight_cap() {
    assert_eq!(MAX_INFLIGHT, 64);
    assert!(has_room(0));
    assert!(has_room(63));
    assert!(!has_room(64));
}

#[test]
fn agent_lines() {
    assert_eq!(finish_line(""), Err(StatusError::AgentClosed));
    assert_eq!(finish_line("OK Pleased to meet you\r\n"), Ok("OK Pleased to meet you".to_string()));
    assert_eq!(finish_line("\n"), Ok(String::new()));
    assert_eq!(finish_line("ERR 67109139 \u{3000}\n"), Ok("ERR 67109139".to_string()));
    assert_eq!(
        check_greeting("OK Pleased to meet you".to_string()),
        Ok("OK Pleased to meet you".to_string())
    );
    assert_eq!(
        check_greeting("ERR 1".to_string()),
        Err(StatusError::UnexpectedGreeting("ERR 1".to_string()))
    );
    assert_eq!(check_mode("OK", SocketChoice::Extra), Ok(true));
    assert_eq!(check_mode("ERR 67109139 not allowed", SocketChoice::Agent), Ok(false));
    assert_eq!(
        check_mode("ERR 67109139 not allowed", SocketChoice::Extra),
        Err(StatusError::WrongSocket { restricted: false, socket: SocketChoice::Extra })
    );
    assert_eq!(
        check_mode("OK", SocketChoice::Agent),
        Err(StatusError::WrongSocket { restricted: true, socket: SocketChoice::Agent })
    );
}

#[test]
fn version_is_the_package_version() {
    assert_eq!(hedwig::version(None), "0.1.0");
    assert_eq!(hedwig::version(Some("v0.1.0-3-gabc1234-dirty")), "0.1.0 (v0.1.0-3-gabc1234-dirty)");
}

#[test]
fn explicit_socketdir_wins() {
    let dir = socket_dir(Some(br"C:\override".as_slice()), Some((true, "C:\\gpg\r\n")), Some(b"C:\\L".as_slice()));
    assert_eq!(dir, Some(SocketDir::Given(br"C:\override".to_vec())));
}

#[test]
fn fallback_socketdir_is_localappdata_gnupg() {
    let local = br"C:\Users\u\AppData\Local";
    let dir = socket_dir(None, None, Some(local.as_slice()));
    assert_eq!(dir, Some(SocketDir::UnderLocalAppData(local.to_vec())));
}

#[test]
fn gpgconf_is_asked_only_without_a_given_directory() {
    assert!(asks_gpgconf(false, true));
    assert!(!asks_gpgconf(true, true));
    assert!(!asks_gpgconf(false, false));
}

#[test]
fn gpgconf_answer_is_trimmed_and_wins_over_localappdata() {
    let dir = socket_dir(None, Some((true, " C:\\Users\\u\\AppData\\Local\\gnupg\r\n")), Some(b"C:\\L".as_slice()));
    assert_eq!(dir, Some(SocketDir::Reported(r"C:\Users\u\AppData\Local\gnupg".to_string())));
}

#[test]
fn failed_or_empty_gpgconf_answer_falls_back() {
    let local = b"C:\\L".as_slice();
    assert_eq!(socket_dir(None, Some((false, "C:\\x\n")), Some(local)), Some(SocketDir::UnderLocalAppData(local.to_vec())));
    assert_eq!(socket_dir(None, Some((true, " \r\n")), Some(local)), Some(SocketDir::UnderLocalAppData(local.to_vec())));
    assert_eq!(socket_dir(None, Some((true, "")), None), None);
    assert_eq!(socket_dir(None, None, None), None);
}

#[test]
fn trimming_drops_white_space_at_both_ends() {
    assert_eq!(trimmed(" \t a b \r\n"), "a b");
    assert_eq!(trimmed("\u{3000}x\u{a0}"), "x");
    assert_eq!(trimmed(" \n "), "");
    assert_eq!(trimmed("plain"), "plain");
}
