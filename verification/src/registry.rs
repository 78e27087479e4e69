//! Strings as the registry functions take them: UTF-16, nul-terminated.

use vstd::prelude::*;

verus! {

/// The UTF-16 code units of one character: one unit inside the Basic
/// Multilingual Plane, a surrogate pair beyond it.
pub open spec fn utf16_char(c: char) -> Seq<u16> {
    let v = c as u32;
    if v < 0x1_0000 {
        seq![v as u16]
    } else {
        let u = (v - 0x1_0000) as u32;
        seq![(0xd800 + u / 0x400) as u16, (0xdc00 + u % 0x400) as u16]
    }
}

/// The UTF-16 encoding of `s`, as `str::encode_utf16` yields it.
pub open spec fn utf16(s: Seq<char>) -> Seq<u16>
    decreases s.len(),
{
    if s.len() == 0 {
        Seq::empty()
    } else {
        utf16(s.drop_last()) + utf16_char(s.last())
    }
}

/// `value` in UTF-16 with a terminating nul, as the wide registry functions
/// take their key and value names.
pub fn nul_terminated(value: &str) -> (r: Vec<u16>)
    ensures
        r@ == utf16(value@).push(0),
{
    let n = value.unicode_len();
    let mut units: Vec<u16> = Vec::new();
    let mut i: usize = 0;
    assert(value@.take(0) =~= Seq::<char>::empty());
    while i < n
        invariant
            n == value@.len(),
            i <= n,
            units@ == utf16(value@.take(i as int)),
        decreases n - i,
    {
        let c = value.get_char(i);
        let v = c as u32;
        proof {
            vstd::utf8::char_is_scalar(c);
        }
        if v < 0x1_0000 {
            units.push(v as u16);
        } else {
            let u = v - 0x1_0000;
            units.push((0xd800 + u / 0x400) as u16);
            units.push((0xdc00 + u % 0x400) as u16);
        }
        assert(value@.take(i + 1).drop_last() =~= value@.take(i as int));
        i = i + 1;
        assert(units@ =~= utf16(value@.take(i as int)));
    }
    assert(value@.take(n as int) =~= value@);
    units.push(0);
    units
}

/// `RegDeleteKeyValueW`'s answer when the value is not there.
pub const ERROR_FILE_NOT_FOUND: u32 = 2;

/// Whether deleting a registry value succeeded: a value that is already
/// absent counts as removed, so a repeated uninstall is not an error.
pub fn delete_succeeded(rc: u32) -> (r: bool)
    ensures
        r == (rc == 0 || rc == ERROR_FILE_NOT_FOUND),
{
    rc == 0 || rc == ERROR_FILE_NOT_FOUND
}

/// The size in bytes of `units` UTF-16 code units, as the registry takes it,
/// or `None` where it does not fit in a `u32`: the value is too long for the
/// registry.
pub fn wide_byte_len(units: usize) -> (r: Option<u32>)
    ensures
        units * 2 <= u32::MAX ==> r == Some((units * 2) as u32),
        units * 2 > u32::MAX ==> r is None,
{
    if units <= 0x7fff_ffff {
        Some((units * 2) as u32)
    } else {
        None
    }
}

/// The number of UTF-16 code units that hold `size` bytes, rounded up.
pub fn units_for_bytes(size: u32) -> (r: usize)
    ensures
        r == (size as int + 1) / 2,
{
    (size / 2 + size % 2) as usize
}

/// The length of the string in `buffer`: up to its first nul, or all of it.
pub fn until_nul(buffer: &[u16]) -> (r: usize)
    ensures
        r <= buffer@.len(),
        forall|i: int| 0 <= i < r ==> buffer@[i] != 0,
        r < buffer@.len() ==> buffer@[r as int] == 0,
{
    let mut i: usize = 0;
    while i < buffer.len() && buffer[i] != 0
        invariant
            i <= buffer@.len(),
            forall|j: int| 0 <= j < i ==> buffer@[j] != 0,
        decreases buffer@.len() - i,
    {
        i = i + 1;
    }
    i
}

} // verus!
