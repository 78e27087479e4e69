//! The checks `hedwig status` makes of what the relay and the agent answer.

use vstd::prelude::*;

use crate::cli::SocketChoice;

verus! {

/// Why `status` reports a broken chain, where the library decides it.
#[derive(Debug, PartialEq, Eq)]
pub enum StatusError {
    /// The connection was closed before a line arrived.
    AgentClosed,
    /// The agent's first line is not an `OK` greeting.
    UnexpectedGreeting(String),
    /// The relay answers in one mode but `--socket` expects the other: it is
    /// relaying to the wrong socket.
    WrongSocket { restricted: bool, socket: SocketChoice },
}

/// `c` has Unicode's White_Space property, which is what
/// `char::is_whitespace` tests.
pub open spec fn is_white_space(c: char) -> bool {
    let v = c as u32;
    ||| 0x09 <= v <= 0x0d
    ||| v == 0x20
    ||| v == 0x85
    ||| v == 0xa0
    ||| v == 0x1680
    ||| 0x2000 <= v <= 0x200a
    ||| v == 0x2028
    ||| v == 0x2029
    ||| v == 0x202f
    ||| v == 0x205f
    ||| v == 0x3000
}

/// `s` without its trailing white space, as `str::trim_end` leaves it.
pub open spec fn trim_end(s: Seq<char>) -> Seq<char>
    decreases s.len(),
{
    if s.len() > 0 && is_white_space(s.last()) {
        trim_end(s.drop_last())
    } else {
        s
    }
}

/// Whether `c` is white space.
pub fn white_space(c: char) -> (r: bool)
    ensures
        r == is_white_space(c),
{
    let v = c as u32;
    (0x09 <= v && v <= 0x0d) || v == 0x20 || v == 0x85 || v == 0xa0 || v == 0x1680 || (0x2000 <= v
        && v <= 0x200a) || v == 0x2028 || v == 0x2029 || v == 0x202f || v == 0x205f || v == 0x3000
}

/// A line as read from the agent, line terminator included, made into the
/// line that is shown and checked: an empty read means the agent closed the
/// connection, and otherwise trailing white space is dropped.
pub fn finish_line(line: &str) -> (r: Result<String, StatusError>)
    ensures
        line@.len() == 0 ==> r == Err::<String, StatusError>(StatusError::AgentClosed),
        line@.len() > 0 ==> (r matches Ok(s) && s@ == trim_end(line@)),
{
    if line.is_empty() {
        return Err(StatusError::AgentClosed);
    }
    let n = line.unicode_len();
    let mut k: usize = n;
    assert(line@.take(n as int) =~= line@);
    while k > 0 && white_space(line.get_char(k - 1))
        invariant
            k <= n,
            n == line@.len(),
            trim_end(line@) == trim_end(line@.take(k as int)),
        decreases k,
    {
        assert(line@.take(k as int).drop_last() =~= line@.take(k - 1));
        k = k - 1;
    }
    proof {
        if k > 0 {
            assert(!is_white_space(line@.take(k as int).last()));
        }
    }
    Ok(String::from_str(line.substring_char(0, k)))
}

/// `s` without its leading white space, as `str::trim_start` leaves it.
pub open spec fn trim_start(s: Seq<char>) -> Seq<char>
    decreases s.len(),
{
    if s.len() > 0 && is_white_space(s[0]) {
        trim_start(s.drop_first())
    } else {
        s
    }
}

/// `s` without leading and trailing white space, as `str::trim` leaves it.
pub open spec fn trim(s: Seq<char>) -> Seq<char> {
    trim_start(trim_end(s))
}

/// Trailing white space is what `trim_end` drops: it keeps a prefix of `s`,
/// ending in a byte that is not white space, and everything after it is.
proof fn lemma_trim_end_shape(s: Seq<char>) -> (j: int)
    ensures
        0 <= j <= s.len(),
        trim_end(s) == s.take(j),
        forall|k: int| j <= k < s.len() ==> is_white_space(#[trigger] s[k]),
        j > 0 ==> !is_white_space(s[j - 1]),
    decreases s.len(),
{
    if s.len() > 0 && is_white_space(s.last()) {
        let j = lemma_trim_end_shape(s.drop_last());
        assert(s.drop_last().take(j) =~= s.take(j));
        assert forall|k: int| j <= k < s.len() implies is_white_space(#[trigger] s[k]) by {
            if k < s.len() - 1 {
                assert(s[k] == s.drop_last()[k]);
            }
        }
        if j > 0 {
            assert(s[j - 1] == s.drop_last()[j - 1]);
        }
        j
    } else {
        assert(s.take(s.len() as int) =~= s);
        s.len() as int
    }
}

/// Leading white space is what `trim_start` drops: it keeps a suffix of `s`,
/// starting with a byte that is not white space, and everything before it is.
proof fn lemma_trim_start_shape(s: Seq<char>) -> (i: int)
    ensures
        0 <= i <= s.len(),
        trim_start(s) == s.subrange(i, s.len() as int),
        forall|k: int| 0 <= k < i ==> is_white_space(#[trigger] s[k]),
        i < s.len() ==> !is_white_space(s[i]),
    decreases s.len(),
{
    if s.len() > 0 && is_white_space(s[0]) {
        let t = s.drop_first();
        let i0 = lemma_trim_start_shape(t);
        assert(t.subrange(i0, t.len() as int) =~= s.subrange(i0 + 1, s.len() as int));
        assert forall|k: int| 0 <= k < i0 + 1 implies is_white_space(#[trigger] s[k]) by {
            if k > 0 {
                assert(s[k] == t[k - 1]);
            }
        }
        if i0 + 1 < s.len() {
            assert(s[i0 + 1] == t[i0]);
        }
        i0 + 1
    } else {
        assert(s.subrange(0, s.len() as int) =~= s);
        0
    }
}

/// What `str::trim` gives: the part of `s` between its first and its last
/// character that is not white space, both included; only white space lies
/// outside it, and where `s` is all white space the result is empty.
pub proof fn lemma_trim_shape(s: Seq<char>) -> (r: (int, int))
    ensures
        0 <= r.0 <= r.1 <= s.len(),
        trim(s) == s.subrange(r.0, r.1),
        forall|k: int| 0 <= k < r.0 ==> is_white_space(#[trigger] s[k]),
        forall|k: int| r.1 <= k < s.len() ==> is_white_space(#[trigger] s[k]),
        r.0 < r.1 ==> !is_white_space(s[r.0]) && !is_white_space(s[r.1 - 1]),
{
    let j = lemma_trim_end_shape(s);
    let t = s.take(j);
    let i = lemma_trim_start_shape(t);
    assert(t.subrange(i, t.len() as int) =~= s.subrange(i, j));
    assert forall|k: int| 0 <= k < i implies is_white_space(#[trigger] s[k]) by {
        assert(s[k] == t[k]);
    }
    if i < j {
        assert(s[i] == t[i]);
    }
    (i, j)
}

/// `text` without leading and trailing white space.
pub fn trimmed(text: &str) -> (r: String)
    ensures
        r@ == trim(text@),
{
    let n = text.unicode_len();
    let mut k: usize = n;
    assert(text@.take(n as int) =~= text@);
    while k > 0 && white_space(text.get_char(k - 1))
        invariant
            k <= n,
            n == text@.len(),
            trim_end(text@) == trim_end(text@.take(k as int)),
        decreases k,
    {
        assert(text@.take(k as int).drop_last() =~= text@.take(k - 1));
        k = k - 1;
    }
    proof {
        if k > 0 {
            assert(!is_white_space(text@.take(k as int).last()));
        }
    }
    let ghost e = text@.take(k as int);
    assert(trim_end(text@) == e);
    let mut j: usize = 0;
    assert(e.subrange(0, k as int) =~= e);
    while j < k && white_space(text.get_char(j))
        invariant
            j <= k <= n,
            n == text@.len(),
            e == text@.take(k as int),
            trim_start(e) == trim_start(e.subrange(j as int, k as int)),
        decreases k - j,
    {
        assert(e.subrange(j as int, k as int).drop_first() =~= e.subrange(j + 1, k as int));
        j = j + 1;
    }
    proof {
        if j < k {
            assert(e.subrange(j as int, k as int)[0] == text@[j as int]);
        }
    }
    let r = String::from_str(text.substring_char(j, k));
    assert(r@ =~= e.subrange(j as int, k as int));
    r
}

/// The line begins with `OK`, Assuan's success answer.
pub open spec fn is_ok_line(s: Seq<char>) -> bool {
    s.len() >= 2 && s[0] == 'O' && s[1] == 'K'
}

/// Whether `line` begins with `OK`.
pub fn starts_with_ok(line: &str) -> (r: bool)
    ensures
        r == is_ok_line(line@),
{
    let n = line.unicode_len();
    n >= 2 && line.get_char(0) == 'O' && line.get_char(1) == 'K'
}

/// The agent's greeting must be an `OK` line.
pub fn check_greeting(greeting: String) -> (r: Result<String, StatusError>)
    ensures
        is_ok_line(greeting@) ==> r == Ok::<String, StatusError>(greeting),
        !is_ok_line(greeting@) ==> r == Err::<String, StatusError>(StatusError::UnexpectedGreeting(greeting)),
{
    if starts_with_ok(greeting.as_str()) {
        Ok(greeting)
    } else {
        Err(StatusError::UnexpectedGreeting(greeting))
    }
}

/// The answer to `GETINFO restricted` says whether the connection is
/// restricted; it must be what the expected socket gives. Returns whether it
/// is restricted.
pub fn check_mode(reply: &str, socket: SocketChoice) -> (r: Result<bool, StatusError>)
    ensures
        is_ok_line(reply@) == socket.expects_restricted_spec() ==> r == Ok::<bool, StatusError>(is_ok_line(reply@)),
        is_ok_line(reply@) != socket.expects_restricted_spec() ==> r == Err::<bool, StatusError>(
            StatusError::WrongSocket { restricted: is_ok_line(reply@), socket },
        ),
{
    let restricted = starts_with_ok(reply);
    if restricted != socket.expects_restricted() {
        Err(StatusError::WrongSocket { restricted, socket })
    } else {
        Ok(restricted)
    }
}

} // verus!
