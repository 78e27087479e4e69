//! The entries of the `PATH` variable, where `gpgconf.exe` is looked for
//! first, and where the GnuPG socket directory is taken from.

use vstd::prelude::*;

use crate::status::{trim, trimmed};

verus! {

/// What splitting has made of a prefix of `PATH`: the finished entries, the
/// entry in progress, and whether a double quote is open.
pub struct SplitState {
    pub done: Seq<Seq<u8>>,
    pub current: Seq<u8>,
    pub in_quote: bool,
}

/// The state after the bytes of `s`. On Windows, `PATH` is semicolon
/// separated. Double quotes introduce literal semicolons (since
/// `c:\some;dir` is a valid Windows path) and are themselves dropped; there
/// is no way to escape a double quote.
pub open spec fn split_state(s: Seq<u8>) -> SplitState
    decreases s.len(),
{
    if s.len() == 0 {
        SplitState { done: Seq::empty(), current: Seq::empty(), in_quote: false }
    } else {
        let st = split_state(s.drop_last());
        let b = s.last();
        if b == 34 {
            SplitState { in_quote: !st.in_quote, ..st }
        } else if b == 59 && !st.in_quote {
            SplitState { done: st.done.push(st.current), current: Seq::empty(), in_quote: false }
        } else {
            SplitState { current: st.current.push(b), ..st }
        }
    }
}

/// The entries of `PATH` as `std::env::split_paths` yields them on Windows:
/// one more than there are unquoted semicolons, empty ones included.
pub open spec fn split_paths(s: Seq<u8>) -> Seq<Seq<u8>> {
    split_state(s).done.push(split_state(s).current)
}

/// The entries that are worth looking in: the non-empty ones, in order.
pub open spec fn nonempty_entries(entries: Seq<Seq<u8>>) -> Seq<Seq<u8>> {
    entries.filter(|e: Seq<u8>| e.len() > 0)
}

/// The non-empty entries of the `PATH` value `path_var`, given as the
/// platform's encoded bytes; semicolons and double quotes are ASCII, so
/// splitting the encoded form splits the text.
pub fn path_entries(path_var: &[u8]) -> (r: Vec<Vec<u8>>)
    ensures
        r@.map_values(|e: Vec<u8>| e@) == nonempty_entries(split_paths(path_var@)),
{
    let mut entries: Vec<Vec<u8>> = Vec::new();
    let mut current: Vec<u8> = Vec::new();
    let mut in_quote = false;
    let mut i: usize = 0;
    let ghost s = path_var@;
    assert(s.take(0) =~= Seq::<u8>::empty());
    while i < path_var.len()
        invariant
            s == path_var@,
            i <= s.len(),
            split_state(s.take(i as int)).current == current@,
            split_state(s.take(i as int)).in_quote == in_quote,
            nonempty_entries(split_state(s.take(i as int)).done) == entries@.map_values(|e: Vec<u8>| e@),
        decreases s.len() - i,
    {
        let b = path_var[i];
        let ghost before = split_state(s.take(i as int));
        assert(s.take(i + 1).drop_last() =~= s.take(i as int));
        assert(s.take(i + 1).last() == b);
        if b == 34 {
            in_quote = !in_quote;
        } else if b == 59 && !in_quote {
            proof {
                let d = before.done;
                reveal_with_fuel(Seq::<_>::filter, 1);
        assert(d.push(current@).drop_last() =~= d);
            }
            if current.len() > 0 {
                entries.push(current);
            }
            current = Vec::new();
            assert(entries@.map_values(|e: Vec<u8>| e@) =~= nonempty_entries(split_state(s.take(i + 1)).done));
        } else {
            current.push(b);
        }
        i = i + 1;
    }
    assert(s.take(i as int) =~= s);
    proof {
        let d = split_state(s).done;
        reveal_with_fuel(Seq::<_>::filter, 1);
        assert(d.push(current@).drop_last() =~= d);
    }
    if current.len() > 0 {
        entries.push(current);
    }
    assert(entries@.map_values(|e: Vec<u8>| e@) =~= nonempty_entries(split_paths(s)));
    entries
}

/// Entries written one after the other with a semicolon between each two.
pub open spec fn join_entries(entries: Seq<Seq<u8>>) -> Seq<u8>
    decreases entries.len(),
{
    if entries.len() <= 1 {
        if entries.len() == 1 {
            entries[0]
        } else {
            Seq::empty()
        }
    } else {
        join_entries(entries.drop_last()) + seq![59u8] + entries.last()
    }
}

/// The bytes of `e` hold neither a semicolon nor a double quote.
pub open spec fn plain_entry(e: Seq<u8>) -> bool {
    forall|k: int| 0 <= k < e.len() ==> e[k] != 59 && e[k] != 34
}

/// Bytes that are neither a semicolon nor a double quote go into the entry in
/// progress, and change nothing else.
proof fn lemma_plain_bytes_extend_entry(p: Seq<u8>, w: Seq<u8>)
    requires
        plain_entry(w),
    ensures
        split_state(p + w) == (SplitState { current: split_state(p).current + w, ..split_state(p) }),
    decreases w.len(),
{
    if w.len() == 0 {
        assert(p + w =~= p);
        assert(split_state(p).current + w =~= split_state(p).current);
    } else {
        let w0 = w.drop_last();
        assert((p + w).drop_last() =~= p + w0);
        assert((p + w).last() == w.last());
        assert(plain_entry(w0)) by {
            assert forall|k: int| 0 <= k < w0.len() implies w0[k] != 59 && w0[k] != 34 by {
                assert(w0[k] == w[k]);
            }
        }
        assert(w[w.len() - 1] != 59 && w[w.len() - 1] != 34);
        lemma_plain_bytes_extend_entry(p, w0);
        assert((split_state(p).current + w0).push(w.last()) =~= split_state(p).current + w);
    }
}

/// Only an unquoted semicolon separates entries: entries that hold neither a
/// semicolon nor a double quote (spaces and all), written with a semicolon
/// between each two, split back into exactly those entries.
pub proof fn lemma_split_paths_of_joined(entries: Seq<Seq<u8>>)
    requires
        entries.len() > 0,
        forall|k: int| 0 <= k < entries.len() ==> plain_entry(#[trigger] entries[k]),
    ensures
        split_paths(join_entries(entries)) == entries,
        split_state(join_entries(entries)).in_quote == false,
    decreases entries.len(),
{
    let j = join_entries(entries);
    if entries.len() == 1 {
        lemma_plain_bytes_extend_entry(Seq::empty(), entries[0]);
        assert(Seq::<u8>::empty() + entries[0] =~= entries[0]);
        assert(split_paths(j) =~= entries);
    } else {
        let front = entries.drop_last();
        assert forall|k: int| 0 <= k < front.len() implies plain_entry(#[trigger] front[k]) by {
            assert(front[k] == entries[k]);
        }
        lemma_split_paths_of_joined(front);
        let p = join_entries(front);
        let q = p + seq![59u8];
        assert(q.drop_last() =~= p);
        assert(split_state(q) == SplitState {
            done: split_state(p).done.push(split_state(p).current),
            current: Seq::empty(),
            in_quote: false,
        });
        assert(plain_entry(entries[entries.len() - 1]));
        lemma_plain_bytes_extend_entry(q, entries.last());
        assert(Seq::<u8>::empty() + entries.last() =~= entries.last());
        assert(split_paths(p) == front);
        assert(split_state(p).done.push(split_state(p).current) =~= front);
        assert(split_paths(j) =~= entries);
    }
}

/// Inside double quotes every byte but a double quote goes into the entry in
/// progress, semicolons included.
proof fn lemma_quoted_bytes_extend_entry(p: Seq<u8>, w: Seq<u8>)
    requires
        split_state(p).in_quote,
        forall|k: int| 0 <= k < w.len() ==> w[k] != 34,
    ensures
        split_state(p + w) == (SplitState { current: split_state(p).current + w, ..split_state(p) }),
    decreases w.len(),
{
    if w.len() == 0 {
        assert(p + w =~= p);
        assert(split_state(p).current + w =~= split_state(p).current);
    } else {
        let w0 = w.drop_last();
        assert((p + w).drop_last() =~= p + w0);
        assert((p + w).last() == w.last());
        assert forall|k: int| 0 <= k < w0.len() implies w0[k] != 34 by {
            assert(w0[k] == w[k]);
        }
        assert(w[w.len() - 1] != 34);
        lemma_quoted_bytes_extend_entry(p, w0);
        assert((split_state(p).current + w0).push(w.last()) =~= split_state(p).current + w);
    }
}

/// Double quotes keep semicolons inside one entry and are themselves
/// dropped: a path in double quotes is one entry, the path itself.
pub proof fn lemma_quoted_path_is_one_entry(e: Seq<u8>)
    requires
        forall|k: int| 0 <= k < e.len() ==> e[k] != 34,
    ensures
        split_paths(seq![34u8] + e + seq![34u8]) == seq![e],
{
    let q = seq![34u8];
    assert(q.drop_last() =~= Seq::<u8>::empty());
    assert(q.last() == 34u8);
    assert(q.len() == 1);
    assert(split_state(q.drop_last()) == SplitState { done: Seq::empty(), current: Seq::empty(), in_quote: false });
    assert(split_state(q).in_quote);
    assert(split_state(q).current =~= Seq::<u8>::empty());
    lemma_quoted_bytes_extend_entry(q, e);
    assert(Seq::<u8>::empty() + e =~= e);
    let qe = q + e;
    assert((qe + q).drop_last() =~= qe);
    assert((qe + q).last() == 34u8);
    assert(split_state(qe + q).current == e);
    assert(split_state(qe + q).done =~= Seq::<Seq<u8>>::empty());
    assert(split_paths(qe + q) =~= seq![e]);
}

/// An entry that holds neither a semicolon nor a double quote, a space for
/// instance, is one entry of its own.
pub proof fn lemma_plain_path_is_one_entry(s: Seq<u8>)
    requires
        plain_entry(s),
    ensures
        split_paths(s) == seq![s],
{
    lemma_split_paths_of_joined(seq![s]);
    assert(join_entries(seq![s]) == s);
}

/// Where the directory holding `S.gpg-agent*` is taken from.
#[derive(Debug, PartialEq, Eq)]
pub enum SocketDir {
    /// `--socketdir`, as given.
    Given(Vec<u8>),
    /// What `gpgconf --list-dirs socketdir` printed, trimmed.
    Reported(String),
    /// `%LOCALAPPDATA%`, under which the directory is `gnupg`. This is where
    /// Gpg4win puts it when gpgconf cannot be asked; it is not GnuPG's
    /// documented default and must not be relied on when gpgconf answers.
    UnderLocalAppData(Vec<u8>),
}

/// gpgconf is asked for the socket directory only where none was given and
/// gpgconf was found.
pub fn asks_gpgconf(given: bool, gpgconf_found: bool) -> (r: bool)
    ensures
        r == (!given && gpgconf_found),
{
    !given && gpgconf_found
}

/// The directory that gpgconf's answer names, where it names one: the
/// answer counts when gpgconf succeeded and its output, trimmed, is not
/// empty.
pub open spec fn reported_dir(answer: Option<(bool, Seq<char>)>) -> Option<Seq<char>> {
    match answer {
        Some((true, out)) => if trim(out).len() > 0 {
            Some(trim(out))
        } else {
            None
        },
        _ => None,
    }
}

/// gpgconf's answer names a directory exactly when gpgconf succeeded and its
/// output is not all white space, and the directory is then the output with
/// the white space at both ends taken off, as `str::trim` does.
pub proof fn lemma_reported_dir_is_trimmed_output(ok: bool, out: Seq<char>)
    ensures
        ok && trim(out).len() > 0 ==> reported_dir(Some((ok, out))) == Some(trim(out)),
        !(ok && trim(out).len() > 0) ==> reported_dir(Some((ok, out))) is None,
        reported_dir(None) is None,
{
}

/// An answer as sequences.
pub open spec fn answer_view(answer: Option<(bool, &str)>) -> Option<(bool, Seq<char>)> {
    match answer {
        Some((ok, out)) => Some((ok, out@)),
        None => None,
    }
}

/// The socket directory: the one given wins; then gpgconf's answer, where it
/// was asked (`answer` holds whether it succeeded and its output, decoded);
/// then `gnupg` under `%LOCALAPPDATA%`; else there is none, and
/// `--socketdir` must be passed.
pub fn socket_dir(given: Option<&[u8]>, answer: Option<(bool, &str)>, local_app_data: Option<&[u8]>) -> (r: Option<SocketDir>)
    ensures
        given matches Some(d) ==> (r matches Some(SocketDir::Given(g)) && g@ == d@),
        given is None && reported_dir(answer_view(answer)) is Some ==> (r matches Some(SocketDir::Reported(t))
            && t@ == reported_dir(answer_view(answer))->0),
        given is None ==> match answer {
            Some((ok, out)) => ok && trim(out@).len() > 0 ==> (r matches Some(SocketDir::Reported(t))
                && t@ == trim(out@)),
            None => true,
        },
        given is None && reported_dir(answer_view(answer)) is None ==> match local_app_data {
            Some(l) => (r matches Some(SocketDir::UnderLocalAppData(u)) && u@ == l@),
            None => r is None,
        },
{
    if let Some(d) = given {
        return Some(SocketDir::Given(vstd::slice::slice_to_vec(d)));
    }
    if let Some((ok, out)) = answer {
        if ok {
            let dir = trimmed(out);
            if dir.unicode_len() > 0 {
                return Some(SocketDir::Reported(dir));
            }
        }
    }
    match local_app_data {
        Some(l) => Some(SocketDir::UnderLocalAppData(vstd::slice::slice_to_vec(l))),
        None => None,
    }
}

} // verus!
