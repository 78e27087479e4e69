use hedwig::peer::{
    admission, convert_row, find_owner, port_of, table_step, Admission, Endpoint, RawTcpRow,
    Refusal, TableStep, TcpRow, TokenFacts, TokenQuery, LOOPBACK, MAX_TABLE_ATTEMPTS,
    STATE_ESTABLISHED,
};

fn addr(port: u16) -> Endpoint {
    Endpoint { ip: LOOPBACK, port }
}

fn row(local: u16, remote: u16, established: bool, pid: u32) -> TcpRow {
    TcpRow {
        local: addr(local),
        remote: addr(remote),
        established,
        pid,
    }
}

#[test]
fn finds_matching_established_row() {
    let rows = [row(50000, 47470, true, 42), row(47470, 50000, true, 7)];
    assert_eq!(find_owner(&rows, addr(50000), addr(47470)), Some(42));
}

#[test]
fn the_mirror_row_does_not_match() {
    let rows = [row(47470, 50000, true, 7)];
    assert_eq!(find_owner(&rows, addr(50000), addr(47470)), None);
}

#[test]
fn non_established_row_rejected() {
    let rows = [row(50000, 47470, false, 42)];
    assert_eq!(find_owner(&rows, addr(50000), addr(47470)), None);
}

#[test]
fn wrong_remote_endpoint_rejected() {
    let rows = [row(50000, 9999, true, 42)];
    assert_eq!(find_owner(&rows, addr(50000), addr(47470)), None);
}

#[test]
fn non_loopback_local_rejected() {
    let rows = [TcpRow {
        local: Endpoint { ip: 0x0a00_0005, port: 50000 },
        remote: addr(47470),
        established: true,
        pid: 42,
    }];
    assert_eq!(find_owner(&rows, addr(50000), addr(47470)), None);
}

#[test]
fn the_first_matching_row_wins() {
    let rows = [
        row(50000, 47470, false, 1),
        row(50000, 47470, true, 2),
        row(50000, 47470, true, 3),
    ];
    assert_eq!(find_owner(&rows, addr(50000), addr(47470)), Some(2));
    assert_eq!(find_owner(&[], addr(50000), addr(47470)), None);
}

#[test]
fn row_conversion_swaps_network_order() {
    let raw = RawTcpRow {
        state: STATE_ESTABLISHED,
        local_addr: u32::from_ne_bytes([127, 0, 0, 1]),
        local_port: u32::from(8467u16.to_be()),
        remote_addr: u32::from_ne_bytes([127, 0, 0, 1]),
        remote_port: u32::from(50000u16.to_be()),
        owning_pid: 1234,
    };
    let converted = convert_row(&raw);
    assert_eq!(converted, row(8467, 50000, true, 1234));
}

#[test]
fn other_states_and_addresses_convert() {
    let raw = RawTcpRow {
        state: 2,
        local_addr: u32::from_ne_bytes([10, 0, 0, 5]),
        local_port: u32::from(1u16.to_be()),
        remote_addr: u32::from_ne_bytes([192, 168, 1, 2]),
        remote_port: u32::from(65535u16.to_be()),
        owning_pid: 9,
    };
    let converted = convert_row(&raw);
    assert_eq!(converted.local, Endpoint { ip: 0x0a00_0005, port: 1 });
    assert_eq!(converted.remote, Endpoint { ip: 0xc0a8_0102, port: 65535 });
    assert!(!converted.established);
    assert_eq!(converted.pid, 9);
}

#[test]
fn port_of_reads_the_leading_bytes() {
    assert_eq!(port_of(u32::from_ne_bytes([0x21, 0x13, 0xff, 0xff])), 0x2113);
    assert_eq!(port_of(0), 0);
}

fn facts(same_user: Option<bool>, app_container: Option<bool>, restricted: Option<bool>) -> TokenFacts {
    TokenFacts { same_user, app_container, restricted }
}

#[test]
fn restricted_token_is_rejected() {
    // A restricted token still carries the user's SID, so admission must
    // fail on the restriction and not on the user check.
    let f = facts(Some(true), Some(false), Some(true));
    assert_eq!(admission(0, &f), Admission::Refuse(Refusal::RestrictedToken(0)));
}

#[test]
fn ordinary_own_token_is_admitted() {
    let f = facts(Some(true), Some(false), Some(false));
    assert_eq!(admission(0, &f), Admission::Admit);
}

#[test]
fn questions_come_in_order_and_stop_at_a_refusal() {
    assert_eq!(admission(5, &facts(None, None, None)), Admission::Ask(TokenQuery::SameUser));
    assert_eq!(
        admission(5, &facts(Some(false), None, None)),
        Admission::Refuse(Refusal::NotSameUser(5))
    );
    assert_eq!(
        admission(5, &facts(Some(true), None, None)),
        Admission::Ask(TokenQuery::AppContainer)
    );
    assert_eq!(
        admission(5, &facts(Some(true), Some(true), None)),
        Admission::Refuse(Refusal::AppContainer(5))
    );
    assert_eq!(
        admission(5, &facts(Some(true), Some(false), None)),
        Admission::Ask(TokenQuery::Restricted)
    );
    // a different user is refused as such even when also restricted
    assert_eq!(
        admission(5, &facts(Some(false), Some(true), Some(true))),
        Admission::Refuse(Refusal::NotSameUser(5))
    );
}

#[test]
fn table_calls_are_read_retried_or_failed() {
    assert_eq!(table_step(1, 0, 100, 100), TableStep::Read);
    assert_eq!(table_step(1, 0, 16, 100), TableStep::Retry);
    assert_eq!(table_step(1, 122, 0, 100), TableStep::Retry);
    assert_eq!(table_step(1, 87, 100, 100), TableStep::Fail(87));
    assert_eq!(table_step(7, 122, 0, 100), TableStep::Retry);
    assert_eq!(table_step(8, 122, 0, 100), TableStep::GiveUp);
    assert_eq!(table_step(8, 0, 100, 100), TableStep::Read);
    assert_eq!(MAX_TABLE_ATTEMPTS, 8);
}
