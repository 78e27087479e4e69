//! The file gpg-agent writes in place of a Unix socket on Windows: the ASCII
//! decimal TCP port of the agent, a line feed, and the 16 nonce bytes that
//! must open every connection to that port.

use vstd::prelude::*;
use zeroize::Zeroize;

use crate::decimal::{
    decimal_digits, decimal_value, is_digit, lemma_decimal_digits, lemma_decimal_step, pow10,
};

verus! {

/// The file is five port digits, an LF and 16 nonce bytes. The slack lets a
/// longer file be rejected rather than silently truncated into something that
/// parses.
pub const MAX_SOCKET_FILE: usize = 64;

/// The number of nonce bytes that follow the line feed.
pub const NONCE_LEN: usize = 16;

/// Why a socket file was refused.
#[derive(Debug, PartialEq, Eq, Clone, Copy)]
pub enum ParseError {
    Empty,
    /// `!<socket >` prefix: Cygwin's emulation, which needs a different
    /// handshake. Gpg4win writes the native format; refusing beats guessing.
    CygwinFormat,
    NoNewline,
    BadPort,
    BadNonceLength(usize),
}

/// The 16 random bytes gpg-agent requires as the first bytes of every
/// connection to its emulated socket. Possession of the nonce is possession of
/// the agent, so the value is zeroised on drop and never printed.
///
/// Boxed because a move is a bitwise copy and `Drop` does not run on what was
/// moved out of: held inline, every move could strand an unzeroised copy in a
/// dead stack slot. Behind a box the moves carry the pointer, so one copy
/// exists and it is erased where it lies.
pub struct Nonce {
    bytes: Box<[u8; 16]>,
}

impl View for Nonce {
    type V = Seq<u8>;

    closed spec fn view(&self) -> Seq<u8> {
        (*self.bytes)@
    }
}

impl Nonce {
    /// The nonce bytes, in the order they are sent.
    pub fn as_bytes(&self) -> (r: &[u8; 16])
        ensures
            r@ == self@,
    {
        &*self.bytes
    }

    /// What a debug rendering of a nonce shows: never the bytes.
    pub fn redacted(&self) -> (r: String)
        ensures
            r@ == "Nonce(redacted)"@,
    {
        String::from_str("Nonce(redacted)")
    }
}

/// Overwrites every byte of `bytes` with zero, through `zeroize::Zeroize` for
/// arrays, whose writes the compiler may not elide. The contract claims that
/// afterwards all 16 bytes are zero.
#[verifier::external_body]
fn wipe(bytes: &mut [u8; 16])
    ensures
        final(bytes)@ == Seq::new(16, |i: int| 0u8),
    opens_invariants none
    no_unwind
{
    bytes.zeroize();
}

impl Drop for Nonce {
    /// The nonce is erased where it lies before its memory is released.
    fn drop(&mut self)
        ensures
            final(self)@ == Seq::new(16, |i: int| 0u8),
        opens_invariants none
        no_unwind
    {
        wipe(&mut *self.bytes);
    }
}

/// The prefix of Cygwin's emulated socket files: `!<socket >`.
pub open spec fn cygwin_prefix() -> Seq<u8> {
    seq![0x21u8, 0x3c, 0x73, 0x6f, 0x63, 0x6b, 0x65, 0x74, 0x20, 0x3e]
}

/// `lf` is the index of the first line feed in `bytes`.
pub open spec fn is_first_newline(bytes: Seq<u8>, lf: int) -> bool {
    &&& 0 <= lf < bytes.len()
    &&& bytes[lf] == 10
    &&& forall|j: int| 0 <= j < lf ==> bytes[j] != 10
}

/// `bytes` holds a line feed.
pub open spec fn has_newline(bytes: Seq<u8>) -> bool {
    exists|i: int| 0 <= i < bytes.len() && bytes[i] == 10
}

/// The index of the first line feed in `bytes`, where there is one.
pub open spec fn first_newline(bytes: Seq<u8>) -> int {
    choose|lf: int| is_first_newline(bytes, lf)
}

/// The port field is one to five ASCII digits.
pub open spec fn port_digits_ok(digits: Seq<u8>) -> bool {
    &&& 0 < digits.len() <= 5
    &&& forall|i: int| 0 <= i < digits.len() ==> is_digit(#[trigger] digits[i])
}

/// What the socket file `bytes` holds: the agent's port and the nonce, or
/// the first reason to refuse it, in the order the checks are made.
pub open spec fn spec_parse(bytes: Seq<u8>) -> Result<(u16, Seq<u8>), ParseError> {
    if bytes.len() == 0 {
        Err(ParseError::Empty)
    } else if cygwin_prefix().is_prefix_of(bytes) {
        Err(ParseError::CygwinFormat)
    } else if !has_newline(bytes) {
        Err(ParseError::NoNewline)
    } else {
        let lf = first_newline(bytes);
        let digits = bytes.take(lf);
        if !port_digits_ok(digits) || decimal_value(digits) == 0 || decimal_value(digits) > 65535 {
            Err(ParseError::BadPort)
        } else if bytes.len() - lf - 1 != NONCE_LEN {
            Err(ParseError::BadNonceLength((bytes.len() - lf - 1) as usize))
        } else {
            Ok((decimal_value(digits) as u16, bytes.skip(lf + 1)))
        }
    }
}

/// Parses the file gpg-agent writes in place of a Unix socket on Windows:
/// ASCII decimal port, LF, 16 nonce bytes.
pub fn parse(bytes: &[u8]) -> (r: Result<(u16, Nonce), ParseError>)
    ensures
        match spec_parse(bytes@) {
            Ok((port, nonce)) => r matches Ok((p, n)) && p == port && n@ == nonce,
            Err(e) => r == Err::<(u16, Nonce), ParseError>(e),
        },
{
    if bytes.len() == 0 {
        return Err(ParseError::Empty);
    }
    if starts_with_cygwin_prefix(bytes) {
        return Err(ParseError::CygwinFormat);
    }
    let mut lf: usize = 0;
    while lf < bytes.len() && bytes[lf] != 10
        invariant
            lf <= bytes@.len(),
            forall|j: int| 0 <= j < lf ==> bytes@[j] != 10,
        decreases bytes@.len() - lf,
    {
        lf = lf + 1;
    }
    if lf == bytes.len() {
        return Err(ParseError::NoNewline);
    }
    proof {
        assert(is_first_newline(bytes@, lf as int));
        let c = first_newline(bytes@);
        assert(is_first_newline(bytes@, c));
        assert(c == lf) by {
            if c < lf {
                assert(bytes@[c] != 10);
            } else if lf < c {
                assert(bytes@[lf as int] != 10);
            }
        }
    }
    let ghost digits = bytes@.take(lf as int);
    if lf == 0 || lf > 5 {
        return Err(ParseError::BadPort);
    }
    // Folded rather than parsed so the untrusted path holds no panic site: the
    // length and digit checks bound the result well inside u32.
    let mut port: u32 = 0;
    let mut i: usize = 0;
    while i < lf
        invariant
            lf <= 5,
            lf < bytes@.len(),
            bytes@.len() > 0,
            !cygwin_prefix().is_prefix_of(bytes@),
            has_newline(bytes@),
            first_newline(bytes@) == lf,
            digits == bytes@.take(lf as int),
            i <= lf,
            forall|j: int| 0 <= j < i ==> is_digit(#[trigger] digits[j]),
            port == decimal_value(digits.take(i as int)),
            port < pow10(i as nat),
        decreases lf - i,
    {
        let d = bytes[i];
        if d < 48 || d > 57 {
            assert(!port_digits_ok(digits)) by {
                assert(!is_digit(digits[i as int]));
            }
            return Err(ParseError::BadPort);
        }
        proof {
            lemma_decimal_step(digits, i as int);
            assert(pow10((i + 1) as nat) == 10 * pow10(i as nat));
            assert(pow10(i as nat) <= 10000) by {
                reveal_with_fuel(pow10, 6);
            }
        }
        port = port * 10 + (d - 48) as u32;
        i = i + 1;
    }
    assert(digits.take(lf as int) =~= digits);
    assert(port_digits_ok(digits));
    if port == 0 || port > 65535 {
        return Err(ParseError::BadPort);
    }
    let nonce_len = bytes.len() - lf - 1;
    if nonce_len != NONCE_LEN {
        return Err(ParseError::BadNonceLength(nonce_len));
    }
    let mut boxed = Box::new([0u8; 16]);
    let mut k: usize = 0;
    while k < 16
        invariant
            lf + 1 + 16 == bytes@.len(),
            bytes@.len() <= usize::MAX,
            k <= 16,
            forall|j: int| 0 <= j < k ==> (*boxed)@[j] == bytes@[lf + 1 + j],
        decreases 16 - k,
    {
        boxed[k] = bytes[lf + 1 + k];
        k = k + 1;
    }
    let nonce = Nonce { bytes: boxed };
    assert(nonce@ =~= bytes@.skip(lf + 1));
    Ok((port as u16, nonce))
}

/// `bytes` begins with `!<socket >`.
fn starts_with_cygwin_prefix(bytes: &[u8]) -> (r: bool)
    ensures
        r == cygwin_prefix().is_prefix_of(bytes@),
{
    let prefix: [u8; 10] = [0x21, 0x3c, 0x73, 0x6f, 0x63, 0x6b, 0x65, 0x74, 0x20, 0x3e];
    assert(prefix@ =~= cygwin_prefix());
    if bytes.len() < 10 {
        return false;
    }
    let mut i: usize = 0;
    while i < 10
        invariant
            bytes@.len() >= 10,
            prefix@ == cygwin_prefix(),
            i <= 10,
            forall|j: int| 0 <= j < i ==> bytes@[j] == cygwin_prefix()[j],
        decreases 10 - i,
    {
        if bytes[i] != prefix[i] {
            return false;
        }
        i = i + 1;
    }
    assert(cygwin_prefix() =~= bytes@.take(10));
    true
}

/// A socket file written as the agent writes it (the canonical numeral of
/// the port, a line feed, the 16 nonce bytes) parses back to that port and
/// that nonce.
pub proof fn lemma_parse_reads_back(port: u16, nonce: Seq<u8>)
    requires
        port > 0,
        nonce.len() == NONCE_LEN,
    ensures
        spec_parse(decimal_digits(port as nat) + seq![10u8] + nonce) == Ok::<(u16, Seq<u8>), ParseError>((port, nonce)),
{
    let d = decimal_digits(port as nat);
    assert(pow10(5) == 100000) by {
        reveal_with_fuel(pow10, 6);
    }
    lemma_decimal_digits(port as nat, 5);
    let b = d + seq![10u8] + nonce;
    let lf = d.len() as int;
    assert(b[0] == d[0]);
    assert(!cygwin_prefix().is_prefix_of(b)) by {
        assert(is_digit(d[0]));
        assert(cygwin_prefix()[0] == 0x21);
    }
    assert(b[lf] == 10);
    assert forall|j: int| 0 <= j < lf implies b[j] != 10 by {
        assert(b[j] == d[j]);
        assert(is_digit(d[j]));
    }
    assert(is_first_newline(b, lf));
    assert(has_newline(b));
    let c = first_newline(b);
    assert(c == lf) by {
        if c < lf {
            assert(b[c] != 10);
        } else if lf < c {
            assert(b[lf] != 10);
        }
    }
    assert(b.take(lf) =~= d);
    assert(b.skip(lf + 1) =~= nonce);
}

/// Only a short file parses: the port takes at most five digits and the
/// nonce exactly 16 bytes, so an accepted file is at most 22 bytes long. A
/// read that filled a `MAX_SOCKET_FILE` buffer, where the file may go on past
/// it, is therefore always refused rather than truncated into something that
/// parses.
pub proof fn lemma_accepted_file_is_short(bytes: Seq<u8>)
    ensures
        spec_parse(bytes) is Ok ==> bytes.len() <= 22,
        bytes.len() >= MAX_SOCKET_FILE ==> spec_parse(bytes) is Err,
{
    if spec_parse(bytes) is Ok {
        lemma_first_newline_from(bytes, 0);
        let lf = first_newline(bytes);
        assert(bytes.take(lf).len() == lf);
    }
}

/// Where `bytes` holds a line feed at or after `k` and none before `k`, it
/// has a first line feed.
proof fn lemma_first_newline_from(bytes: Seq<u8>, k: int)
    requires
        0 <= k <= bytes.len(),
        forall|j: int| 0 <= j < k ==> bytes[j] != 10,
        has_newline(bytes),
    ensures
        is_first_newline(bytes, first_newline(bytes)),
    decreases bytes.len() - k,
{
    if k < bytes.len() {
        if bytes[k] == 10 {
            assert(is_first_newline(bytes, k));
        } else {
            lemma_first_newline_from(bytes, k + 1);
        }
    } else {
        let i = choose|i: int| 0 <= i < bytes.len() && bytes[i] == 10;
        assert(bytes[i] != 10);
    }
}

} // verus!
