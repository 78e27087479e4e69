//! Which process is at the other end of a loopback TCP connection, and
//! whether it is admitted: exactly the processes the nonce file's ACL would
//! let in.

use vstd::prelude::*;

verus! {

/// An IPv4 endpoint. `ip` holds the address in host order, so that
/// `127.0.0.1` is `0x7f00_0001`.
#[derive(Debug, Clone, Copy, PartialEq, Eq, Structural)]
pub struct Endpoint {
    pub ip: u32,
    pub port: u16,
}

/// `127.0.0.1` in host order.
pub const LOOPBACK: u32 = 0x7f00_0001;

/// The TCP table's state number for an established connection
/// (`MIB_TCP_STATE_ESTAB`).
pub const STATE_ESTABLISHED: u32 = 5;

/// One row of the system's IPv4 TCP connection table.
#[derive(Debug, Clone, Copy, PartialEq, Eq, Structural)]
pub struct TcpRow {
    pub local: Endpoint,
    pub remote: Endpoint,
    pub established: bool,
    pub pid: u32,
}

/// A row as `GetExtendedTcpTable` writes it (`MIB_TCPROW_OWNER_PID`):
/// addresses in network order, each port widened to a DWORD but left in
/// network order in its leading two bytes.
#[derive(Debug, Clone, Copy, PartialEq, Eq, Structural)]
pub struct RawTcpRow {
    pub state: u32,
    pub local_addr: u32,
    pub local_port: u32,
    pub remote_addr: u32,
    pub remote_port: u32,
    pub owning_pid: u32,
}

/// The row is this exact connection seen from `endpoint`'s side: loopback
/// TCP shows one row per side, so matching both addresses and the
/// established state is what pins the row down.
pub open spec fn row_matches(row: TcpRow, endpoint: Endpoint, to: Endpoint) -> bool {
    row.established && row.local == endpoint && row.remote == to
}

/// The owner of the first matching row.
pub open spec fn spec_find_owner(rows: Seq<TcpRow>, endpoint: Endpoint, to: Endpoint) -> Option<u32>
    decreases rows.len(),
{
    if rows.len() == 0 {
        None
    } else if row_matches(rows[0], endpoint, to) {
        Some(rows[0].pid)
    } else {
        spec_find_owner(rows.drop_first(), endpoint, to)
    }
}

/// The first match, where there is one, belongs to a matching row, and there
/// is none where no row matches.
proof fn lemma_find_owner(rows: Seq<TcpRow>, endpoint: Endpoint, to: Endpoint)
    ensures
        spec_find_owner(rows, endpoint, to) matches Some(pid) ==> exists|i: int|
            0 <= i < rows.len() && row_matches(#[trigger] rows[i], endpoint, to) && rows[i].pid == pid,
        spec_find_owner(rows, endpoint, to) is None ==> forall|i: int|
            0 <= i < rows.len() ==> !row_matches(#[trigger] rows[i], endpoint, to),
    decreases rows.len(),
{
    if rows.len() > 0 {
        lemma_find_owner(rows.drop_first(), endpoint, to);
        if !row_matches(rows[0], endpoint, to) {
            if let Some(pid) = spec_find_owner(rows, endpoint, to) {
                let i = choose|i: int|
                    0 <= i < rows.drop_first().len() && row_matches(
                        #[trigger] rows.drop_first()[i],
                        endpoint,
                        to,
                    ) && rows.drop_first()[i].pid == pid;
                assert(rows[i + 1] == rows.drop_first()[i]);
            } else {
                assert forall|i: int| 0 <= i < rows.len() implies !row_matches(
                    #[trigger] rows[i],
                    endpoint,
                    to,
                ) by {
                    if i > 0 {
                        assert(rows[i] == rows.drop_first()[i - 1]);
                    }
                }
            }
        }
    }
}

/// The process that owns the established loopback connection from
/// `endpoint` to `to`, as the connection table shows it.
pub fn find_owner(rows: &[TcpRow], endpoint: Endpoint, to: Endpoint) -> (r: Option<u32>)
    ensures
        r == spec_find_owner(rows@, endpoint, to),
        r matches Some(pid) ==> exists|i: int|
            0 <= i < rows@.len() && row_matches(#[trigger] rows@[i], endpoint, to) && rows@[i].pid == pid,
        r is None ==> forall|i: int| 0 <= i < rows@.len() ==> !row_matches(#[trigger] rows@[i], endpoint, to),
{
    proof {
        lemma_find_owner(rows@, endpoint, to);
    }
    let mut i: usize = 0;
    assert(rows@.skip(0) =~= rows@);
    while i < rows.len()
        invariant
            i <= rows@.len(),
            spec_find_owner(rows@, endpoint, to) == spec_find_owner(rows@.skip(i as int), endpoint, to),
        decreases rows@.len() - i,
    {
        let row = rows[i];
        assert(rows@.skip(i as int)[0] == row);
        if row.established && row.local == endpoint && row.remote == to {
            return Some(row.pid);
        }
        assert(rows@.skip(i as int).drop_first() =~= rows@.skip(i + 1));
        i = i + 1;
    }
    None
}

/// The port held in a table DWORD: its first two bytes in memory, read in
/// network order. Windows runs little-endian, so the first byte in memory is
/// the low byte of the DWORD.
pub open spec fn spec_port_of(raw: u32) -> u16 {
    ((raw % 256) * 256 + (raw / 256) % 256) as u16
}

/// A network-order address as a host-order number: the byte order reversed.
pub open spec fn spec_from_network(raw: u32) -> u32 {
    ((raw % 256) * 0x100_0000 + ((raw / 0x100) % 256) * 0x1_0000 + ((raw / 0x1_0000) % 256) * 0x100
        + raw / 0x100_0000) as u32
}

/// The table widens each port to a DWORD but leaves it in network order in
/// the leading two bytes, so the value is read positionally rather than
/// numerically.
pub fn port_of(raw: u32) -> (r: u16)
    ensures
        r == spec_port_of(raw),
{
    let r = (((raw & 0xff) << 8) | ((raw >> 8) & 0xff)) as u16;
    assert(r == spec_port_of(raw)) by (bit_vector)
        requires
            r == (((raw & 0xff) << 8) | ((raw >> 8) & 0xff)) as u16,
    ;
    r
}

/// A network-order address as a host-order number.
pub fn from_network(raw: u32) -> (r: u32)
    ensures
        r == spec_from_network(raw),
{
    let r = ((raw & 0xff) << 24) | (((raw >> 8) & 0xff) << 16) | (((raw >> 16) & 0xff) << 8) | (raw
        >> 24);
    assert(r == spec_from_network(raw)) by (bit_vector)
        requires
            r == ((raw & 0xff) << 24) | (((raw >> 8) & 0xff) << 16) | (((raw >> 16) & 0xff) << 8) | (
            raw >> 24),
    ;
    r
}

/// A table row as the relay reads it.
pub fn convert_row(row: &RawTcpRow) -> (r: TcpRow)
    ensures
        r.local == (Endpoint { ip: spec_from_network(row.local_addr), port: spec_port_of(row.local_port) }),
        r.remote == (Endpoint { ip: spec_from_network(row.remote_addr), port: spec_port_of(row.remote_port) }),
        r.established == (row.state == STATE_ESTABLISHED),
        r.pid == row.owning_pid,
{
    TcpRow {
        local: Endpoint { ip: from_network(row.local_addr), port: port_of(row.local_port) },
        remote: Endpoint { ip: from_network(row.remote_addr), port: port_of(row.remote_port) },
        established: row.state == STATE_ESTABLISHED,
        pid: row.owning_pid,
    }
}

/// How many times the connection table is asked for before giving up: the
/// first call sizes the buffer, and the retries cover the table's growth in
/// between.
pub const MAX_TABLE_ATTEMPTS: usize = 8;

/// `GetExtendedTcpTable`'s answer when the buffer offered was too small.
pub const ERROR_INSUFFICIENT_BUFFER: u32 = 122;

/// What to do after one call of `GetExtendedTcpTable`.
#[derive(Debug, Clone, Copy, PartialEq, Eq, Structural)]
pub enum TableStep {
    /// The table is in the buffer: read its rows.
    Read,
    /// Ask again with a buffer of the size now reported.
    Retry,
    /// The call failed with this code.
    Fail(u32),
    /// The table kept growing past every buffer offered.
    GiveUp,
}

/// The decision after the `calls`-th call, counting from 1, returned `rc`,
/// given that a buffer of `offered` bytes was passed and `needed` bytes are
/// now reported. A retry is only ever asked for while fewer than
/// `MAX_TABLE_ATTEMPTS` calls have been made, so the table is asked for at
/// most `MAX_TABLE_ATTEMPTS` times.
pub fn table_step(calls: usize, rc: u32, offered: u32, needed: u32) -> (r: TableStep)
    ensures
        rc == 0 && offered >= needed ==> r == TableStep::Read,
        (rc == 0 && offered < needed) || rc == ERROR_INSUFFICIENT_BUFFER ==> r == (if calls
            < MAX_TABLE_ATTEMPTS {
            TableStep::Retry
        } else {
            TableStep::GiveUp
        }),
        rc != 0 && rc != ERROR_INSUFFICIENT_BUFFER ==> r == TableStep::Fail(rc),
        r == TableStep::Retry ==> calls < MAX_TABLE_ATTEMPTS,
{
    if rc == 0 && offered >= needed {
        TableStep::Read
    } else if rc == 0 || rc == ERROR_INSUFFICIENT_BUFFER {
        if calls < MAX_TABLE_ATTEMPTS {
            TableStep::Retry
        } else {
            TableStep::GiveUp
        }
    } else {
        TableStep::Fail(rc)
    }
}

/// A question about a peer's process token.
#[derive(Debug, Clone, Copy, PartialEq, Eq, Structural)]
pub enum TokenQuery {
    /// Does the token carry the relay's own user SID?
    SameUser,
    /// Is the token an AppContainer token?
    AppContainer,
    /// Is the token restricted?
    Restricted,
}

/// Why a peer was refused.
#[derive(Debug, Clone, Copy, PartialEq, Eq, Structural)]
pub enum Refusal {
    NotSameUser(u32),
    AppContainer(u32),
    RestrictedToken(u32),
}

/// What is known of a peer's token so far.
#[derive(Debug, Clone, Copy, PartialEq, Eq, Structural)]
pub struct TokenFacts {
    pub same_user: Option<bool>,
    pub app_container: Option<bool>,
    pub restricted: Option<bool>,
}

/// The verdict on a peer, or the question to answer first.
#[derive(Debug, Clone, Copy, PartialEq, Eq, Structural)]
pub enum Admission {
    Ask(TokenQuery),
    Refuse(Refusal),
    Admit,
}

/// Admission policy: exactly the processes the nonce file's ACL would let
/// in. AppContainer and restricted tokens carry the user's SID but are
/// denied the file, so they are denied here too. The questions are asked in
/// order, and none after the first refusal.
pub open spec fn spec_admission(pid: u32, facts: TokenFacts) -> Admission {
    match facts.same_user {
        None => Admission::Ask(TokenQuery::SameUser),
        Some(false) => Admission::Refuse(Refusal::NotSameUser(pid)),
        Some(true) => match facts.app_container {
            None => Admission::Ask(TokenQuery::AppContainer),
            Some(true) => Admission::Refuse(Refusal::AppContainer(pid)),
            Some(false) => match facts.restricted {
                None => Admission::Ask(TokenQuery::Restricted),
                Some(true) => Admission::Refuse(Refusal::RestrictedToken(pid)),
                Some(false) => Admission::Admit,
            },
        },
    }
}

/// The verdict on process `pid`, given what is known of its token.
pub fn admission(pid: u32, facts: &TokenFacts) -> (r: Admission)
    ensures
        r == spec_admission(pid, *facts),
{
    match facts.same_user {
        None => Admission::Ask(TokenQuery::SameUser),
        Some(false) => Admission::Refuse(Refusal::NotSameUser(pid)),
        Some(true) => match facts.app_container {
            None => Admission::Ask(TokenQuery::AppContainer),
            Some(true) => Admission::Refuse(Refusal::AppContainer(pid)),
            Some(false) => match facts.restricted {
                None => Admission::Ask(TokenQuery::Restricted),
                Some(true) => Admission::Refuse(Refusal::RestrictedToken(pid)),
                Some(false) => Admission::Admit,
            },
        },
    }
}

/// A peer is admitted exactly when its token carries the relay's user and
/// is neither an AppContainer token nor restricted; a question is asked
/// only about what is not known yet.
pub proof fn lemma_admits_exactly_the_unrestricted_same_user(pid: u32, facts: TokenFacts)
    ensures
        spec_admission(pid, facts) == Admission::Admit <==> (facts.same_user == Some(true)
            && facts.app_container == Some(false) && facts.restricted == Some(false)),
        spec_admission(pid, facts) == Admission::Ask(TokenQuery::SameUser) ==> facts.same_user is None,
        spec_admission(pid, facts) == Admission::Ask(TokenQuery::AppContainer) ==> facts.app_container is None,
        spec_admission(pid, facts) == Admission::Ask(TokenQuery::Restricted) ==> facts.restricted is None,
{
}

/// Answering the question that was asked never goes back to an earlier
/// question: each peer is decided after at most three answers.
pub proof fn lemma_admission_progresses(pid: u32, facts: TokenFacts, answer: bool)
    ensures
        spec_admission(pid, facts) == Admission::Ask(TokenQuery::SameUser) ==> spec_admission(
            pid,
            TokenFacts { same_user: Some(answer), ..facts },
        ) != Admission::Ask(TokenQuery::SameUser),
        spec_admission(pid, facts) == Admission::Ask(TokenQuery::AppContainer) ==> {
            let next = spec_admission(pid, TokenFacts { app_container: Some(answer), ..facts });
            next != Admission::Ask(TokenQuery::SameUser) && next != Admission::Ask(
                TokenQuery::AppContainer,
            )
        },
        spec_admission(pid, facts) == Admission::Ask(TokenQuery::Restricted) ==> !(spec_admission(
            pid,
            TokenFacts { restricted: Some(answer), ..facts },
        ) is Ask),
{
}

} // verus!
