//! Reading `git status --porcelain=v1 -z` output into the list of paths a
//! worktree has changed.
use vstd::prelude::*;
use crate::order::{has_view, sorted_unique, strictly_ascending};
use crate::text::{chars_of, split_chars, split_on, string_from_chars, trim, trim_chars, views, views_of_strings};

verus! {

/// The number of bytes UTF-8 takes for `c`.
pub open spec fn utf8_width(c: char) -> nat {
    let u = c as u32;
    if u < 0x80 {
        1
    } else if u < 0x800 {
        2
    } else if u < 0x10000 {
        3
    } else {
        4
    }
}

/// The number of bytes UTF-8 takes for `s` (what `str::len` gives).
pub open spec fn utf8_len(s: Seq<char>) -> nat
    decreases s.len(),
{
    if s.len() == 0 {
        0
    } else {
        utf8_len(s.drop_last()) + utf8_width(s.last())
    }
}

proof fn lemma_utf8_len_prefix(s: Seq<char>, i: int)
    requires
        0 <= i <= s.len(),
    ensures
        utf8_len(s.take(i)) <= utf8_len(s),
    decreases s.len() - i,
{
    if i < s.len() {
        lemma_utf8_len_prefix(s, i + 1);
        assert(s.take(i + 1).drop_last() =~= s.take(i));
    } else {
        assert(s.take(i) =~= s);
    }
}

fn char_width(c: char) -> (w: u64)
    ensures
        w == utf8_width(c),
{
    let u = c as u32;
    if u < 0x80 {
        1
    } else if u < 0x800 {
        2
    } else if u < 0x10000 {
        3
    } else {
        4
    }
}

/// Whether `s` takes fewer than four bytes.
fn shorter_than_four_bytes(s: &[char]) -> (r: bool)
    ensures
        r == (utf8_len(s@) < 4),
{
    let mut total: u64 = 0;
    let mut i: usize = 0;
    assert(s@.take(0) =~= Seq::<char>::empty());
    while i < s.len() && total < 4
        invariant
            i <= s@.len(),
            total == utf8_len(s@.take(i as int)),
            total < 8,
        decreases s@.len() - i,
    {
        assert(s@.take(i + 1).drop_last() =~= s@.take(i as int));
        total = total + char_width(s[i]);
        i = i + 1;
    }
    proof {
        lemma_utf8_len_prefix(s@, i as int);
        if i == s@.len() {
            assert(s@.take(i as int) =~= s@);
        }
    }
    total < 4
}

/// Splits a record of at least four bytes into its two-byte status and
/// the text after the separator byte, as `&entry[0..2]` and `&entry[3..]`
/// do; `None` where a byte offset falls inside a character (the slicing
/// would panic).
pub open spec fn slice_record(e: Seq<char>) -> Option<(Seq<char>, Seq<char>)> {
    if e.len() >= 3 && utf8_width(e[0]) == 1 && utf8_width(e[1]) == 1 {
        if utf8_width(e[2]) == 1 {
            Some((e.take(2), e.skip(3)))
        } else {
            None
        }
    } else if e.len() >= 2 && utf8_width(e[0]) == 2 && utf8_width(e[1]) == 1 {
        Some((e.take(1), e.skip(2)))
    } else {
        None
    }
}

/// Whether a status names a rename or a copy.
pub open spec fn renames(status: Seq<char>) -> bool {
    status.contains('R') || status.contains('C')
}

pub open spec fn prepend(x: Seq<char>, rest: Option<Seq<Seq<char>>>) -> Option<Seq<Seq<char>>> {
    match rest {
        Some(t) => Some(seq![x] + t),
        None => None,
    }
}

/// The paths named by the records from index `i` on, in order; `None`
/// where reading a record would panic.
pub open spec fn status_paths_from(e: Seq<Seq<char>>, i: int) -> Option<Seq<Seq<char>>>
    decreases e.len() - i,
{
    if i < 0 || i >= e.len() {
        Some(Seq::empty())
    } else if utf8_len(e[i]) < 4 {
        status_paths_from(e, i + 1)
    } else {
        match slice_record(e[i]) {
            None => None,
            Some((status, rest)) => {
                let primary = trim(rest);
                if primary.len() == 0 {
                    status_paths_from(e, i + 1)
                } else if renames(status) && i + 1 < e.len() && trim(e[i + 1]).len() > 0 {
                    prepend(trim(e[i + 1]), status_paths_from(e, i + 2))
                } else {
                    prepend(primary, status_paths_from(e, i + 1))
                }
            },
        }
    }
}

/// The non-empty pieces between NUL bytes.
pub open spec fn nonempty(parts: Seq<Seq<char>>) -> Seq<Seq<char>>
    decreases parts.len(),
{
    if parts.len() == 0 {
        Seq::empty()
    } else if parts.last().len() > 0 {
        nonempty(parts.drop_last()).push(parts.last())
    } else {
        nonempty(parts.drop_last())
    }
}

/// The records of porcelain output.
pub open spec fn status_records(raw: Seq<char>) -> Seq<Seq<char>> {
    nonempty(split_on(raw, '\0'))
}

/// Porcelain output that the reader takes without panicking.
pub open spec fn readable_status(raw: Seq<char>) -> bool {
    status_paths_from(status_records(raw), 0) is Some
}

/// The paths named by porcelain output.
pub open spec fn status_paths(raw: Seq<char>) -> Seq<Seq<char>> {
    status_paths_from(status_records(raw), 0)->0
}

fn nonempty_parts(parts: Vec<Vec<char>>) -> (out: Vec<Vec<char>>)
    ensures
        views(out@) == nonempty(views(parts@)),
{
    let mut out: Vec<Vec<char>> = Vec::new();
    let mut i: usize = 0;
    assert(views(parts@).take(0) =~= Seq::<Seq<char>>::empty());
    assert(views(out@) =~= Seq::<Seq<char>>::empty());
    while i < parts.len()
        invariant
            i <= parts@.len(),
            views(out@) == nonempty(views(parts@).take(i as int)),
        decreases parts@.len() - i,
    {
        let ghost before = out@;
        proof {
            let v = views(parts@);
            assert(v.take(i + 1).drop_last() =~= v.take(i as int));
            assert(v.take(i + 1).last() == parts@[i as int]@);
        }
        if parts[i].len() > 0 {
            let part = parts[i].clone();
            assert(part@ =~= parts@[i as int]@);
            out.push(part);
            assert(views(out@) =~= views(before).push(parts@[i as int]@));
        }
        i = i + 1;
    }
    assert(views(parts@).take(parts@.len() as int) =~= views(parts@));
    out
}

fn status_renames(e: &[char], status_len: usize) -> (r: bool)
    requires
        status_len <= e@.len(),
    ensures
        r == renames(e@.take(status_len as int)),
{
    let mut i: usize = 0;
    while i < status_len
        invariant
            status_len <= e@.len(),
            i <= status_len,
            forall|k: int| 0 <= k < i ==> e@[k] != 'R' && e@[k] != 'C',
        decreases status_len - i,
    {
        if e[i] == 'R' || e[i] == 'C' {
            assert(e@.take(status_len as int)[i as int] == e@[i as int]);
            return true;
        }
        i = i + 1;
    }
    assert forall|k: int| 0 <= k < status_len implies e@.take(status_len as int)[k] != 'R' && e@.take(
        status_len as int,
    )[k] != 'C' by {
        assert(e@.take(status_len as int)[k] == e@[k]);
    }
    false
}

fn tail_from(e: &[char], start: usize) -> (out: Vec<char>)
    requires
        start <= e@.len(),
    ensures
        out@ == e@.skip(start as int),
{
    let mut out: Vec<char> = Vec::new();
    let mut i = start;
    while i < e.len()
        invariant
            start <= i <= e@.len(),
            out@ == e@.subrange(start as int, i as int),
        decreases e@.len() - i,
    {
        out.push(e[i]);
        i = i + 1;
        assert(out@ =~= e@.subrange(start as int, i as int));
    }
    out
}

/// Reads `git status --porcelain=v1 -z` output: the changed paths (the
/// new name of a renamed or copied file), sorted, each once; each is
/// non-empty and read from one record (its text after the status,
/// trimmed, or for a rename or copy the next record, trimmed).
pub fn parse_git_status_output(raw: &str) -> (paths: Vec<String>)
    requires
        readable_status(raw@),
    ensures
        strictly_ascending(paths@),
        forall|t: Seq<char>| has_view(paths@, t) <==> status_paths(raw@).contains(t),
        forall|k: int| 0 <= k < paths@.len() ==> (#[trigger] paths@[k])@.len() > 0 && exists|j: int|
            read_from_record(status_records(raw@), j, paths@[k]@),
{
    let paths = parse_status_paths(raw);
    proof {
        assert forall|k: int| 0 <= k < paths@.len() implies (#[trigger] paths@[k])@.len() > 0 && exists|j: int|
            read_from_record(status_records(raw@), j, paths@[k]@) by {
            assert(has_view(paths@, paths@[k]@));
            law_status_paths_come_from_records(raw@, paths@[k]@);
        }
    }
    paths
}

fn parse_status_paths(raw: &str) -> (paths: Vec<String>)
    requires
        readable_status(raw@),
    ensures
        strictly_ascending(paths@),
        forall|t: Seq<char>| has_view(paths@, t) <==> status_paths(raw@).contains(t),
{
    let cs = chars_of(raw);
    let entries = nonempty_parts(split_chars(cs.as_slice(), '\0'));
    let ghost e = views(entries@);
    let mut found: Vec<String> = Vec::new();
    let mut index: usize = 0;
    proof {
        assert(e == status_records(raw@));
        assert(status_paths_from(e, 0) is Some);
    }
    while index < entries.len()
        invariant
            e == views(entries@),
            e == status_records(raw@),
            index <= entries@.len() + 1,
            status_paths_from(e, index as int) is Some,
            status_paths_from(e, 0)->0 == views_of_strings(found@) + status_paths_from(e, index as int)->0,
        decreases entries@.len() + 1 - index,
    {
        let entry = &entries[index];
        assert(entry@ == e[index as int]);
        if shorter_than_four_bytes(entry.as_slice()) {
            index = index + 1;
            continue;
        }
        let w0 = char_width(entry[0]);
        let (status_len, rest_start): (usize, usize) = if w0 == 1 && entry.len() >= 3 && char_width(entry[1]) == 1 {
            (2, 3)
        } else {
            (1, 2)
        };
        proof {
            assert(slice_record(e[index as int]) is Some);
        }
        let renamed = status_renames(entry.as_slice(), status_len);
        let rest = tail_from(entry.as_slice(), rest_start);
        let primary = trim_chars(rest.as_slice());
        if primary.len() == 0 {
            index = index + 1;
            continue;
        }
        if renamed && index + 1 < entries.len() {
            let next = trim_chars(entries[index + 1].as_slice());
            if next.len() > 0 {
                let ghost before = found@;
                found.push(string_from_chars(next.as_slice()));
                proof {
                    assert(views_of_strings(found@) =~= views_of_strings(before).push(next@));
                    assert(seq![next@] + status_paths_from(e, index + 2)->0 =~= status_paths_from(e, index as int)->0);
                    assert(views_of_strings(found@) + status_paths_from(e, index + 2)->0 =~= views_of_strings(before) + status_paths_from(e, index as int)->0);
                }
                index = index + 2;
                continue;
            }
        }
        let ghost before = found@;
        found.push(string_from_chars(primary.as_slice()));
        proof {
            assert(views_of_strings(found@) =~= views_of_strings(before).push(primary@));
            assert(views_of_strings(found@) + status_paths_from(e, index + 1)->0 =~= views_of_strings(before) + status_paths_from(e, index as int)->0);
        }
        index = index + 1;
    }
    proof {
        assert(status_paths_from(e, index as int)->0 =~= Seq::<Seq<char>>::empty());
        assert(views_of_strings(found@) =~= status_paths(raw@));
        assert forall|t: Seq<char>| has_view(found@, t) <==> status_paths(raw@).contains(t) by {
            if has_view(found@, t) {
                let k = choose|k: int| 0 <= k < found@.len() && #[trigger] found@[k]@ == t;
                assert(views_of_strings(found@)[k] == t);
            }
            if status_paths(raw@).contains(t) {
                let k = choose|k: int| 0 <= k < status_paths(raw@).len() && #[trigger] status_paths(raw@)[k] == t;
                assert(found@[k]@ == t);
            }
        }
    }
    sorted_unique(found)
}

/// Whether porcelain output can be read without a byte offset falling
/// inside a character.
pub fn is_readable_status(raw: &str) -> (r: bool)
    ensures
        r == readable_status(raw@),
{
    let cs = chars_of(raw);
    let entries = nonempty_parts(split_chars(cs.as_slice(), '\0'));
    let ghost e = views(entries@);
    let mut index: usize = 0;
    proof {
        assert(e == status_records(raw@));
    }
    while index < entries.len()
        invariant
            e == views(entries@),
            e == status_records(raw@),
            index <= entries@.len() + 1,
            (status_paths_from(e, 0) is Some) == (status_paths_from(e, index as int) is Some),
        decreases entries@.len() + 1 - index,
    {
        let entry = &entries[index];
        assert(entry@ == e[index as int]);
        if shorter_than_four_bytes(entry.as_slice()) {
            index = index + 1;
            continue;
        }
        let w0 = char_width(entry[0]);
        let ok = if entry.len() >= 3 && w0 == 1 && char_width(entry[1]) == 1 {
            char_width(entry[2]) == 1
        } else {
            entry.len() >= 2 && w0 == 2 && char_width(entry[1]) == 1
        };
        if !ok {
            return false;
        }
        let (status_len, rest_start): (usize, usize) = if w0 == 1 && entry.len() >= 3 && char_width(entry[1]) == 1 {
            (2, 3)
        } else {
            (1, 2)
        };
        let renamed = status_renames(entry.as_slice(), status_len);
        let rest = tail_from(entry.as_slice(), rest_start);
        let primary = trim_chars(rest.as_slice());
        if primary.len() == 0 {
            index = index + 1;
            continue;
        }
        if renamed && index + 1 < entries.len() {
            let next = trim_chars(entries[index + 1].as_slice());
            if next.len() > 0 {
                index = index + 2;
                continue;
            }
        }
        index = index + 1;
    }
    true
}

/// Reads porcelain output as `parse_git_status_output` does, or gives
/// nothing where that reading would panic.
pub fn read_git_status(raw: &str) -> (r: Option<Vec<String>>)
    ensures
        match r {
            Some(paths) => readable_status(raw@) && strictly_ascending(paths@) && forall|t: Seq<char>|
                has_view(paths@, t) <==> status_paths(raw@).contains(t),
            None => !readable_status(raw@),
        },
{
    if is_readable_status(raw) {
        Some(parse_git_status_output(raw))
    } else {
        None
    }
}

/// `t` is read from record `j`: it is the text after the status, trimmed,
/// or, when the status names a rename or copy, the next record trimmed.
pub open spec fn read_from_record(e: Seq<Seq<char>>, j: int, t: Seq<char>) -> bool {
    0 <= j < e.len() && match slice_record(e[j]) {
        Some((status, rest)) => t == trim(rest) || (renames(status) && j + 1 < e.len() && t == trim(e[j + 1])),
        None => false,
    }
}

proof fn lemma_paths_from_records(e: Seq<Seq<char>>, i: int)
    requires
        0 <= i,
        status_paths_from(e, i) is Some,
    ensures
        forall|k: int| 0 <= k < status_paths_from(e, i)->0.len() ==> (#[trigger] status_paths_from(e, i)->0[k]).len() > 0
            && exists|j: int| i <= j && #[trigger] read_from_record(e, j, status_paths_from(e, i)->0[k]),
    decreases e.len() - i,
{
    if i < e.len() {
        let out = status_paths_from(e, i)->0;
        if utf8_len(e[i]) < 4 {
            lemma_paths_from_records(e, i + 1);
        } else {
            let (status, rest) = slice_record(e[i])->0;
            let primary = trim(rest);
            if primary.len() == 0 {
                lemma_paths_from_records(e, i + 1);
            } else if renames(status) && i + 1 < e.len() && trim(e[i + 1]).len() > 0 {
                lemma_paths_from_records(e, i + 2);
                let tail = status_paths_from(e, i + 2)->0;
                assert forall|k: int| 0 <= k < out.len() implies (#[trigger] out[k]).len() > 0 && exists|j: int|
                    i <= j && #[trigger] read_from_record(e, j, out[k]) by {
                    if k == 0 {
                        assert(read_from_record(e, i, out[0]));
                    } else {
                        assert(out[k] == tail[k - 1]);
                    }
                }
            } else {
                lemma_paths_from_records(e, i + 1);
                let tail = status_paths_from(e, i + 1)->0;
                assert forall|k: int| 0 <= k < out.len() implies (#[trigger] out[k]).len() > 0 && exists|j: int|
                    i <= j && #[trigger] read_from_record(e, j, out[k]) by {
                    if k == 0 {
                        assert(read_from_record(e, i, out[0]));
                    } else {
                        assert(out[k] == tail[k - 1]);
                    }
                }
            }
        }
    }
}

/// Every path read from porcelain output is non-empty and comes from one
/// record: the record's text after its status, trimmed, or, for a rename
/// or copy, the record that follows it, trimmed.
pub proof fn law_status_paths_come_from_records(raw: Seq<char>, t: Seq<char>)
    requires
        readable_status(raw),
        status_paths(raw).contains(t),
    ensures
        t.len() > 0,
        exists|j: int| #[trigger] read_from_record(status_records(raw), j, t),
{
    let e = status_records(raw);
    lemma_paths_from_records(e, 0);
    let k = choose|k: int| 0 <= k < status_paths(raw).len() && status_paths(raw)[k] == t;
    assert(status_paths_from(e, 0)->0[k] == t);
}

} // verus!
