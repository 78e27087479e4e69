use hedwig::socketfile::{parse, Nonce, ParseError, MAX_SOCKET_FILE};

fn file(port: &str, nonce_len: usize) -> Vec<u8> {
    let mut v = Vec::from(port.as_bytes());
    v.push(b'\n');
    v.extend(std::iter::repeat_n(0xA5, nonce_len));
    v
}

fn refusal(r: Result<(u16, Nonce), ParseError>) -> ParseError {
    match r {
        Ok((port, _)) => panic!("accepted with port {port}"),
        Err(e) => e,
    }
}

#[test]
fn valid_four_digit_port() {
    let (port, nonce) = parse(&file("8467", 16)).unwrap();
    assert_eq!(port, 8467);
    assert_eq!(nonce.as_bytes(), &[0xA5; 16]);
}

#[test]
fn valid_five_digit_port() {
    let (port, _) = parse(&file("65535", 16)).unwrap();
    assert_eq!(port, 65535);
}

#[test]
fn valid_one_digit_port() {
    let (port, _) = parse(&file("7", 16)).unwrap();
    assert_eq!(port, 7);
}

#[test]
fn empty_file() {
    assert_eq!(refusal(parse(&Vec::new())), ParseError::Empty);
}

#[test]
fn cygwin_format_refused() {
    let err = refusal(parse(b"!<socket >54321 s ABCD-EF01-2345-6789"));
    assert_eq!(err, ParseError::CygwinFormat);
}

#[test]
fn missing_newline() {
    assert_eq!(refusal(parse(b"8467")), ParseError::NoNewline);
}

#[test]
fn socketfile_port_zero_rejected() {
    assert_eq!(refusal(parse(&file("0", 16))), ParseError::BadPort);
}

#[test]
fn port_too_large_rejected() {
    assert_eq!(refusal(parse(&file("65536", 16))), ParseError::BadPort);
}

#[test]
fn port_too_many_digits_rejected() {
    assert_eq!(refusal(parse(&file("123456", 16))), ParseError::BadPort);
}

#[test]
fn port_non_digit_rejected() {
    assert_eq!(refusal(parse(&file("84a7", 16))), ParseError::BadPort);
}

#[test]
fn empty_port_rejected() {
    assert_eq!(refusal(parse(&file("", 16))), ParseError::BadPort);
}

#[test]
fn nonce_too_short_rejected() {
    assert_eq!(
        refusal(parse(&file("8467", 15))),
        ParseError::BadNonceLength(15)
    );
}

#[test]
fn nonce_too_long_rejected() {
    assert_eq!(
        refusal(parse(&file("8467", 17))),
        ParseError::BadNonceLength(17)
    );
}

#[test]
fn debug_never_shows_bytes() {
    let (_, nonce) = parse(&file("8467", 16)).unwrap();
    assert_eq!(nonce.redacted(), "Nonce(redacted)");
}

#[test]
fn leading_zeros_are_read_as_the_number() {
    let (port, _) = parse(&file("00080", 16)).unwrap();
    assert_eq!(port, 80);
}

#[test]
fn nonce_bytes_are_kept_in_order() {
    let mut bytes = b"47470\n".to_vec();
    bytes.extend(0u8..16);
    let (port, nonce) = parse(&bytes).unwrap();
    assert_eq!(port, 47470);
    let expected: Vec<u8> = (0u8..16).collect();
    assert_eq!(nonce.as_bytes().to_vec(), expected);
}

#[test]
fn a_line_feed_in_the_nonce_is_nonce() {
    let mut bytes = b"8467\n".to_vec();
    bytes.extend([b'\n'; 16]);
    let (port, nonce) = parse(&bytes).unwrap();
    assert_eq!(port, 8467);
    assert_eq!(nonce.as_bytes(), &[b'\n'; 16]);
}

#[test]
fn a_carriage_return_before_the_line_feed_is_a_bad_port() {
    assert_eq!(refusal(parse(&file("8467\r", 16))), ParseError::BadPort);
}

#[test]
fn a_full_read_buffer_never_parses() {
    let mut bytes = file("8467", 16);
    bytes.resize(MAX_SOCKET_FILE, 0xA5);
    assert_eq!(
        refusal(parse(&bytes)),
        ParseError::BadNonceLength(MAX_SOCKET_FILE - 5)
    );
}

#[test]
fn written_file_reads_back() {
    for port in [1u16, 9, 10, 99, 100, 8467, 47470, 65535] {
        let mut bytes = port.to_string().into_bytes();
        bytes.push(b'\n');
        bytes.extend([0x3Cu8; 16]);
        let (got, nonce) = parse(&bytes).unwrap();
        assert_eq!(got, port);
        assert_eq!(nonce.as_bytes(), &[0x3C; 16]);
    }
}

#[test]
fn a_cygwin_prefix_wins_over_other_faults() {
    assert_eq!(refusal(parse(b"!<socket >")), ParseError::CygwinFormat);
    assert_eq!(refusal(parse(b"!<socket")), ParseError::NoNewline);
}
