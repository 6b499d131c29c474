//! What the operating system tells about itself: the Windows build
//! number read from the text the `ver` command prints.
use vstd::prelude::*;
use crate::text::{split_chars, split_on, views};

verus! {

/// A character of a version number: a digit or a dot.
pub open spec fn version_char(c: char) -> bool {
    ('0' <= c && c <= '9') || c == '.'
}

/// The text cut at every character that is not part of a version
/// number, as `str::split` with that pattern does.
pub open spec fn version_runs(s: Seq<char>) -> Seq<Seq<char>>
    decreases s.len(),
{
    if s.len() == 0 {
        seq![Seq::<char>::empty()]
    } else {
        let parts = version_runs(s.drop_last());
        if !version_char(s.last()) {
            parts.push(Seq::<char>::empty())
        } else {
            parts.update(parts.len() - 1, parts.last().push(s.last()))
        }
    }
}

/// The value of a sequence of decimal digits.
pub open spec fn digits_value(s: Seq<char>) -> nat
    decreases s.len(),
{
    if s.len() == 0 {
        0
    } else {
        digits_value(s.drop_last()) * 10 + ((s.last() as u32) - ('0' as u32)) as nat
    }
}

/// What `u32::from_str` reads from a text of digits: its value when it
/// is not empty and fits.
pub open spec fn parsed_u32(s: Seq<char>) -> Option<u32> {
    if s.len() > 0 && (forall|i: int| 0 <= i < s.len() ==> '0' <= #[trigger] s[i] && s[i] <= '9') && digits_value(s)
        <= u32::MAX {
        Some(digits_value(s) as u32)
    } else {
        None
    }
}

/// The numbers read from the pieces of a text, in order, skipping those
/// that do not read.
pub open spec fn parsed_pieces(pieces: Seq<Seq<char>>) -> Seq<u32>
    decreases pieces.len(),
{
    if pieces.len() == 0 {
        Seq::empty()
    } else {
        let rest = parsed_pieces(pieces.drop_last());
        match parsed_u32(pieces.last()) {
            Some(v) => rest.push(v),
            None => rest,
        }
    }
}

/// The numbers of the runs that hold a dot, read between the dots.
pub open spec fn version_numbers(runs: Seq<Seq<char>>) -> Seq<u32>
    decreases runs.len(),
{
    if runs.len() == 0 {
        Seq::empty()
    } else {
        let rest = version_numbers(runs.drop_last());
        if runs.last().contains('.') {
            rest + parsed_pieces(split_on(runs.last(), '.'))
        } else {
            rest
        }
    }
}

/// The build number: the last number of the version in the text.
pub open spec fn build_number(text: Seq<char>) -> Option<u32> {
    let ns = version_numbers(version_runs(text));
    if ns.len() == 0 { None } else { Some(ns.last()) }
}

fn is_version_char(c: char) -> (r: bool)
    ensures
        r == version_char(c),
{
    ('0' <= c && c <= '9') || c == '.'
}

fn split_runs(s: &[char]) -> (parts: Vec<Vec<char>>)
    ensures
        views(parts@) == version_runs(s@),
{
    let mut done: Vec<Vec<char>> = Vec::new();
    let mut cur: Vec<char> = Vec::new();
    let mut i: usize = 0;
    assert(s@.take(0) =~= Seq::<char>::empty());
    while i < s.len()
        invariant
            i <= s@.len(),
            views(done@).push(cur@) == version_runs(s@.take(i as int)),
        decreases s@.len() - i,
    {
        let c = s[i];
        proof {
            assert(s@.take(i + 1).drop_last() =~= s@.take(i as int));
            assert(s@.take(i + 1).last() == c);
        }
        if !is_version_char(c) {
            let ghost before = done@;
            let ghost cv = cur@;
            done.push(cur);
            cur = Vec::new();
            proof {
                assert(views(done@) =~= views(before).push(cv));
            }
        } else {
            cur.push(c);
        }
        i = i + 1;
        proof {
            assert(views(done@).push(cur@) =~= version_runs(s@.take(i as int)));
        }
    }
    assert(s@.take(s@.len() as int) =~= s@);
    done.push(cur);
    assert(views(done@) =~= version_runs(s@));
    done
}

fn parse_digits(s: &[char]) -> (r: Option<u32>)
    ensures
        r == parsed_u32(s@),
{
    if s.len() == 0 {
        return None;
    }
    let mut v: u64 = 0;
    let mut i: usize = 0;
    while i < s.len()
        invariant
            i <= s@.len(),
            v == digits_value(s@.take(i as int)),
            v <= u32::MAX,
            forall|k: int| 0 <= k < i ==> '0' <= #[trigger] s@[k] && s@[k] <= '9',
        decreases s@.len() - i,
    {
        let c = s[i];
        proof {
            assert(s@.take(i + 1).drop_last() =~= s@.take(i as int));
        }
        if !('0' <= c && c <= '9') {
            return None;
        }
        let d = (c as u32 - '0' as u32) as u64;
        let next = v * 10 + d;
        if next > 0xffff_ffff {
            proof {
                assert(digits_value(s@.take(i + 1)) == next);
                if forall|j: int| 0 <= j < s@.len() ==> '0' <= #[trigger] s@[j] && s@[j] <= '9' {
                    lemma_digits_grow(s@, i as int + 1);
                    assert(digits_value(s@.take(s@.len() as int)) >= digits_value(s@.take(i + 1)));
                    assert(s@.take(s@.len() as int) =~= s@);
                }
            }
            return None;
        }
        v = next;
        i = i + 1;
    }
    assert(s@.take(s@.len() as int) =~= s@);
    Some(v as u32)
}

proof fn lemma_digits_grow(s: Seq<char>, k: int)
    requires
        0 <= k <= s.len(),
        forall|i: int| 0 <= i < s.len() ==> '0' <= #[trigger] s[i] && s[i] <= '9',
    ensures
        forall|m: int| k <= m <= s.len() ==> #[trigger] digits_value(s.take(m)) >= digits_value(s.take(k)),
    decreases s.len() - k,
{
    if k < s.len() {
        lemma_digits_grow(s, k + 1);
        assert(s.take(k + 1).drop_last() =~= s.take(k));
        assert(s.take(k + 1).last() == s[k]);
        assert(digits_value(s.take(k + 1)) >= digits_value(s.take(k)));
    }
}

fn has_dot(s: &[char]) -> (r: bool)
    ensures
        r == s@.contains('.'),
{
    let mut i: usize = 0;
    while i < s.len()
        invariant
            i <= s@.len(),
            forall|k: int| 0 <= k < i ==> s@[k] != '.',
        decreases s@.len() - i,
    {
        if s[i] == '.' {
            return true;
        }
        i = i + 1;
    }
    false
}

/// Reads the Windows build number from what `ver` printed: the last of
/// the numbers found between dots in the version.
pub fn windows_build_from_ver(text: &str) -> (r: Option<u32>)
    ensures
        r == build_number(text@),
{
    let cs = crate::text::chars_of(text);
    let runs = split_runs(cs.as_slice());
    let mut numbers: Vec<u32> = Vec::new();
    let mut i: usize = 0;
    while i < runs.len()
        invariant
            i <= runs@.len(),
            numbers@ == version_numbers(views(runs@).take(i as int)),
        decreases runs@.len() - i,
    {
        proof {
            assert(views(runs@).take(i + 1).drop_last() =~= views(runs@).take(i as int));
        }
        if has_dot(runs[i].as_slice()) {
            let pieces = split_chars(runs[i].as_slice(), '.');
            let ghost start = numbers@;
            let mut k: usize = 0;
            while k < pieces.len()
                invariant
                    k <= pieces@.len(),
                    numbers@ == start + parsed_pieces(views(pieces@).take(k as int)),
                decreases pieces@.len() - k,
            {
                proof {
                    assert(views(pieces@).take(k + 1).drop_last() =~= views(pieces@).take(k as int));
                }
                match parse_digits(pieces[k].as_slice()) {
                    Some(v) => {
                        numbers.push(v);
                    },
                    None => {},
                }
                k = k + 1;
                proof {
                    assert(numbers@ =~= start + parsed_pieces(views(pieces@).take(k as int)));
                }
            }
            proof {
                assert(views(pieces@).take(pieces@.len() as int) =~= views(pieces@));
            }
        }
        i = i + 1;
    }
    proof {
        assert(views(runs@).take(runs@.len() as int) =~= views(runs@));
    }
    if numbers.len() == 0 {
        None
    } else {
        Some(numbers[numbers.len() - 1])
    }
}

} // verus!
