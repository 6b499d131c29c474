//! A line-by-line diff of two versions of a file.
use vstd::prelude::*;
use crate::text::{chars_eq, join_chars_with, join_with, lines, lines_of, split_on, strip_cr, string_from_chars, views};

verus! {

/// The line at index `i`, or the empty line past the end.
pub open spec fn line_at(ls: Seq<Seq<char>>, i: int) -> Seq<char> {
    if 0 <= i < ls.len() {
        ls[i]
    } else {
        Seq::empty()
    }
}

/// The diff of the first `k` line positions: the lines written and the
/// numbers of added and deleted lines.
pub open spec fn diff_prefix(b: Seq<Seq<char>>, a: Seq<Seq<char>>, k: int) -> (Seq<Seq<char>>, int, int)
    decreases k,
{
    if k <= 0 {
        (Seq::empty(), 0, 0)
    } else {
        let (d, adds, dels) = diff_prefix(b, a, k - 1);
        let bl = line_at(b, k - 1);
        let al = line_at(a, k - 1);
        if bl == al {
            if d.len() > 0 {
                (d.push(seq![' '] + al), adds, dels)
            } else {
                (d, adds, dels)
            }
        } else {
            let (d1, dels1) = if bl.len() > 0 {
                (d.push(seq!['-'] + bl), dels + 1)
            } else {
                (d, dels)
            };
            if al.len() > 0 {
                (d1.push(seq!['+'] + al), adds + 1, dels1)
            } else {
                (d1, adds, dels1)
            }
        }
    }
}

pub open spec fn max_len(b: Seq<Seq<char>>, a: Seq<Seq<char>>) -> int {
    if b.len() >= a.len() {
        b.len() as int
    } else {
        a.len() as int
    }
}

/// The diff of two texts: lines compared position by position; equal
/// lines are context once the diff has begun, a differing pair gives a
/// `-` line for the old text and a `+` line for the new one (an empty
/// line on either side gives none).
pub open spec fn unified_diff(before: Seq<char>, after: Seq<char>) -> (Seq<char>, int, int) {
    let b = lines_of(before);
    let a = lines_of(after);
    let (d, adds, dels) = diff_prefix(b, a, max_len(b, a));
    (join_with(d, '\n'), adds, dels)
}

proof fn lemma_diff_counts(b: Seq<Seq<char>>, a: Seq<Seq<char>>, k: int)
    requires
        k >= 0,
    ensures
        0 <= diff_prefix(b, a, k).1 <= k,
        0 <= diff_prefix(b, a, k).2 <= k,
    decreases k,
{
    if k > 0 {
        lemma_diff_counts(b, a, k - 1);
    }
}

fn prefixed(prefix: char, line: &Vec<char>) -> (out: Vec<char>)
    ensures
        out@ == seq![prefix] + line@,
{
    let mut out: Vec<char> = Vec::new();
    out.push(prefix);
    crate::text::push_chars(&mut out, line.as_slice());
    assert(out@ =~= seq![prefix] + line@);
    out
}

/// Compares two texts line by line: the diff text and the numbers of
/// added and deleted lines. The diff is empty exactly when both numbers
/// are zero, and is empty when the lines of both texts are the same; the
/// numbers are at most the non-empty lines of each text; a diff that is
/// not empty starts with `-` or `+`.
pub fn compute_unified_diff(before: &str, after: &str) -> (r: (String, i64, i64))
    requires
        before@.len() + after@.len() < i64::MAX,
    ensures
        r.0@ == unified_diff(before@, after@).0,
        r.1 == unified_diff(before@, after@).1,
        r.2 == unified_diff(before@, after@).2,
        r.0@.len() == 0 <==> (r.1 == 0 && r.2 == 0),
        lines_of(before@) == lines_of(after@) ==> r.0@.len() == 0,
        0 <= r.1 <= nonempty_lines(lines_of(after@), lines_of(after@).len() as int),
        0 <= r.2 <= nonempty_lines(lines_of(before@), lines_of(before@).len() as int),
        r.0@.len() > 0 ==> (r.0@[0] == '-' || r.0@[0] == '+'),
{
    proof {
        law_unified_diff_shape(before@, after@);
    }
    let before_lines = lines(before);
    let after_lines = lines(after);
    let ghost b = views(before_lines@);
    let ghost a = views(after_lines@);
    proof {
        lemma_lines_count(before@);
        lemma_lines_count(after@);
    }
    let max = if before_lines.len() >= after_lines.len() {
        before_lines.len()
    } else {
        after_lines.len()
    };
    let mut diff: Vec<Vec<char>> = Vec::new();
    let mut additions: i64 = 0;
    let mut deletions: i64 = 0;
    let empty: Vec<char> = Vec::new();
    let mut i: usize = 0;
    while i < max
        invariant
            b == views(before_lines@),
            a == views(after_lines@),
            max == max_len(b, a),
            max <= i64::MAX,
            i <= max,
            empty@.len() == 0,
            diff_prefix(b, a, i as int) == (views(diff@), additions as int, deletions as int),
        decreases max - i,
    {
        proof {
            lemma_diff_counts(b, a, i as int);
        }
        let bl: &Vec<char> = if i < before_lines.len() { &before_lines[i] } else { &empty };
        let al: &Vec<char> = if i < after_lines.len() { &after_lines[i] } else { &empty };
        assert(bl@ == line_at(b, i as int));
        assert(al@ == line_at(a, i as int));
        let ghost before_diff = diff@;
        if chars_eq(bl.as_slice(), al.as_slice()) {
            if diff.len() > 0 {
                let line = prefixed(' ', al);
                diff.push(line);
                assert(views(diff@) =~= views(before_diff).push(seq![' '] + al@));
            }
        } else {
            if bl.len() > 0 {
                let line = prefixed('-', bl);
                diff.push(line);
                assert(views(diff@) =~= views(before_diff).push(seq!['-'] + bl@));
                deletions = deletions + 1;
            }
            let ghost mid = diff@;
            if al.len() > 0 {
                let line = prefixed('+', al);
                diff.push(line);
                assert(views(diff@) =~= views(mid).push(seq!['+'] + al@));
                additions = additions + 1;
            }
        }
        i = i + 1;
    }
    let text = join_chars_with(&diff, '\n');
    (string_from_chars(text.as_slice()), additions, deletions)
}

pub proof fn lemma_lines_count(s: Seq<char>)
    ensures
        lines_of(s).len() <= s.len() + 1,
{
    crate::text::lemma_split_count(s, '\n');
    crate::text::lemma_split_on_nonempty(s, '\n');
}

/// The number of non-empty lines among the first `k` positions of `ls`.
pub open spec fn nonempty_lines(ls: Seq<Seq<char>>, k: int) -> int
    decreases k,
{
    if k <= 0 {
        0
    } else {
        nonempty_lines(ls, k - 1) + if line_at(ls, k - 1).len() > 0 { 1int } else { 0int }
    }
}

proof fn lemma_nonempty_lines_past_end(ls: Seq<Seq<char>>, k: int)
    requires
        k >= ls.len(),
    ensures
        nonempty_lines(ls, k) == nonempty_lines(ls, ls.len() as int),
    decreases k,
{
    if k > ls.len() {
        lemma_nonempty_lines_past_end(ls, k - 1);
    }
}

proof fn lemma_diff_shape(b: Seq<Seq<char>>, a: Seq<Seq<char>>, k: int)
    requires
        k >= 0,
    ensures
        ({
            let (d, adds, dels) = diff_prefix(b, a, k);
            &&& (d.len() == 0 <==> (adds == 0 && dels == 0))
            &&& forall|i: int| 0 <= i < d.len() ==> (#[trigger] d[i]).len() > 0
            &&& d.len() > 0 ==> (d[0][0] == '-' || d[0][0] == '+')
            &&& adds <= nonempty_lines(a, k)
            &&& dels <= nonempty_lines(b, k)
            &&& b == a ==> d.len() == 0
        }),
    decreases k,
{
    if k > 0 {
        lemma_diff_shape(b, a, k - 1);
        lemma_diff_counts(b, a, k - 1);
        let (d0, _, _) = diff_prefix(b, a, k - 1);
        let (d, _, _) = diff_prefix(b, a, k);
        let bl = line_at(b, k - 1);
        let al = line_at(a, k - 1);
        assert((seq!['-'] + bl)[0] == '-');
        assert((seq!['+'] + al)[0] == '+');
        assert((seq!['-'] + bl).len() > 0);
        assert((seq!['+'] + al).len() > 0);
        assert forall|i: int| 0 <= i < d.len() implies (#[trigger] d[i]).len() > 0 by {
            if i < d0.len() {
                assert(d[i] == d0[i]);
            }
        }
        if d0.len() > 0 {
            assert(d[0] == d0[0]);
        }
    }
}

proof fn lemma_join_first(segs: Seq<Seq<char>>, sep: char)
    requires
        segs.len() > 0,
        segs[0].len() > 0,
    ensures
        join_with(segs, sep).len() > 0,
        join_with(segs, sep)[0] == segs[0][0],
    decreases segs.len(),
{
    if segs.len() > 1 {
        lemma_join_first(segs.drop_last(), sep);
    }
}

/// The diff of two texts is empty exactly when it counts no added and no
/// deleted line, and it is empty when their lines are the same; it counts
/// no more added lines than the new text has non-empty lines, nor more
/// deleted lines than the old one has; a diff that is not empty starts
/// with `-` or `+`.
pub proof fn law_unified_diff_shape(before: Seq<char>, after: Seq<char>)
    ensures
        ({
            let (d, adds, dels) = unified_diff(before, after);
            let b = lines_of(before);
            let a = lines_of(after);
            &&& (d.len() == 0 <==> (adds == 0 && dels == 0))
            &&& b == a ==> d.len() == 0
            &&& 0 <= adds <= nonempty_lines(a, a.len() as int)
            &&& 0 <= dels <= nonempty_lines(b, b.len() as int)
            &&& d.len() > 0 ==> (d[0] == '-' || d[0] == '+')
        }),
{
    let b = lines_of(before);
    let a = lines_of(after);
    let m = max_len(b, a);
    lemma_diff_shape(b, a, m);
    lemma_diff_counts(b, a, m);
    lemma_nonempty_lines_past_end(a, m);
    lemma_nonempty_lines_past_end(b, m);
    let (d, _, _) = diff_prefix(b, a, m);
    if d.len() > 0 {
        lemma_join_first(d, '\n');
    }
}

proof fn lemma_diff_grows(b: Seq<Seq<char>>, a: Seq<Seq<char>>, k1: int, k2: int)
    requires
        0 <= k1 <= k2,
    ensures
        diff_prefix(b, a, k1).0.len() <= diff_prefix(b, a, k2).0.len(),
        forall|x: int| 0 <= x < diff_prefix(b, a, k1).0.len() ==> #[trigger] diff_prefix(b, a, k2).0[x] == diff_prefix(b, a, k1).0[x],
        diff_prefix(b, a, k1).1 <= diff_prefix(b, a, k2).1,
        diff_prefix(b, a, k1).2 <= diff_prefix(b, a, k2).2,
    decreases k2 - k1,
{
    if k1 < k2 {
        lemma_diff_grows(b, a, k1, k2 - 1);
        let d0 = diff_prefix(b, a, k2 - 1).0;
        let d = diff_prefix(b, a, k2).0;
        assert forall|x: int| 0 <= x < d0.len() implies #[trigger] d[x] == d0[x] by {}
    }
}

proof fn lemma_diff_step(b: Seq<Seq<char>>, a: Seq<Seq<char>>, k: int)
    requires
        k >= 1,
        line_at(b, k - 1) != line_at(a, k - 1),
    ensures
        diff_prefix(b, a, k).1 + diff_prefix(b, a, k).2 > diff_prefix(b, a, k - 1).1 + diff_prefix(b, a, k - 1).2,
        line_at(b, k - 1).len() > 0 ==> diff_prefix(b, a, k).0.contains(seq!['-'] + line_at(b, k - 1)),
        line_at(a, k - 1).len() > 0 ==> diff_prefix(b, a, k).0.contains(seq!['+'] + line_at(a, k - 1)),
{
    let bl = line_at(b, k - 1);
    let al = line_at(a, k - 1);
    let d0 = diff_prefix(b, a, k - 1).0;
    let d = diff_prefix(b, a, k).0;
    if bl.len() == 0 && al.len() == 0 {
        assert(bl =~= al);
    }
    if bl.len() > 0 {
        assert(d[d0.len() as int] == seq!['-'] + bl);
    }
    if al.len() > 0 {
        assert(d[d.len() - 1] == seq!['+'] + al);
    }
}

proof fn lemma_lines_no_newline(s: Seq<char>)
    ensures
        forall|i: int| 0 <= i < lines_of(s).len() ==> !(#[trigger] lines_of(s)[i]).contains('\n'),
{
    let parts = split_on(s, '\n');
    crate::paths::lemma_split_parts_no_sep(s, '\n');
    crate::text::lemma_split_on_nonempty(s, '\n');
    assert forall|i: int| 0 <= i < lines_of(s).len() implies !(#[trigger] lines_of(s)[i]).contains('\n') by {
        let l = lines_of(s)[i];
        let n = parts.len();
        if i < n - 1 {
            assert(l == strip_cr(parts[i]));
            assert(!parts[i].contains('\n'));
            if l.contains('\n') {
                let x = choose|x: int| 0 <= x < l.len() && l[x] == '\n';
                assert(parts[i][x] == '\n');
            }
        } else {
            assert(l == parts[n - 1]);
            assert(!parts[n - 1].contains('\n'));
        }
    }
}

proof fn lemma_diff_no_newline(b: Seq<Seq<char>>, a: Seq<Seq<char>>, k: int)
    requires
        k >= 0,
        forall|i: int| 0 <= i < b.len() ==> !(#[trigger] b[i]).contains('\n'),
        forall|i: int| 0 <= i < a.len() ==> !(#[trigger] a[i]).contains('\n'),
    ensures
        forall|x: int| 0 <= x < diff_prefix(b, a, k).0.len() ==> !(#[trigger] diff_prefix(b, a, k).0[x]).contains('\n'),
    decreases k,
{
    if k > 0 {
        lemma_diff_no_newline(b, a, k - 1);
        let d0 = diff_prefix(b, a, k - 1).0;
        let d = diff_prefix(b, a, k).0;
        let bl = line_at(b, k - 1);
        let al = line_at(a, k - 1);
        assert(!bl.contains('\n'));
        assert(!al.contains('\n'));
        assert forall|x: int| 0 <= x < d.len() implies !(#[trigger] d[x]).contains('\n') by {
            if x < d0.len() {
                assert(d[x] == d0[x]);
            } else {
                let l = d[x];
                assert(l == seq![' '] + al || l == seq!['-'] + bl || l == seq!['+'] + al);
                if l.contains('\n') {
                    let y = choose|y: int| 0 <= y < l.len() && l[y] == '\n';
                    assert(y > 0);
                    if l == seq!['-'] + bl {
                        assert(bl[y - 1] == '\n');
                    } else {
                        assert(al[y - 1] == '\n');
                    }
                }
            }
        }
    }
}

/// Where the two texts differ at some line, the diff is not empty, counts
/// at least one added or deleted line, and among its lines shows the old
/// line after `-` and the new one after `+` (an empty line shows none).
pub proof fn law_differing_lines_show(before: Seq<char>, after: Seq<char>, i: int)
    requires
        0 <= i,
        line_at(lines_of(before), i) != line_at(lines_of(after), i),
    ensures
        ({
            let (text, adds, dels) = unified_diff(before, after);
            let old_line = line_at(lines_of(before), i);
            let new_line = line_at(lines_of(after), i);
            &&& text.len() > 0
            &&& adds + dels > 0
            &&& old_line.len() > 0 ==> split_on(text, '\n').contains(seq!['-'] + old_line)
            &&& new_line.len() > 0 ==> split_on(text, '\n').contains(seq!['+'] + new_line)
        }),
{
    let b = lines_of(before);
    let a = lines_of(after);
    let m = max_len(b, a);
    if i >= m {
        assert(line_at(b, i) =~= line_at(a, i));
    }
    lemma_diff_step(b, a, i + 1);
    lemma_diff_counts(b, a, i);
    lemma_diff_grows(b, a, i + 1, m);
    lemma_diff_shape(b, a, m);
    let d = diff_prefix(b, a, m).0;
    let d1 = diff_prefix(b, a, i + 1).0;
    assert(d.len() > 0);
    lemma_join_first(d, '\n');
    lemma_lines_no_newline(before);
    lemma_lines_no_newline(after);
    lemma_diff_no_newline(b, a, m);
    crate::paths::lemma_split_join_with(d, '\n');
    if line_at(b, i).len() > 0 {
        let x = choose|x: int| 0 <= x < d1.len() && d1[x] == seq!['-'] + line_at(b, i);
        assert(d[x] == d1[x]);
    }
    if line_at(a, i).len() > 0 {
        let x = choose|x: int| 0 <= x < d1.len() && d1[x] == seq!['+'] + line_at(a, i);
        assert(d[x] == d1[x]);
    }
}

} // verus!
