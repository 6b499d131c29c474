//! Character-level string helpers used throughout the library.
//!
//! Strings are reasoned about through their view, a `Seq<char>`.
use vstd::prelude::*;

verus! {

/// `String::push` appends one character: the string afterwards is the
/// string before with that character at the end.
pub assume_specification[ String::push ](s: &mut String, ch: char)
    ensures
        final(s)@ == old(s)@.push(ch),
;

/// Collects the characters of a string slice.
pub fn chars_of(s: &str) -> (out: Vec<char>)
    ensures
        out@ == s@,
{
    let mut out: Vec<char> = Vec::new();
    for c in it: s.chars()
        invariant
            out@ == it.seq().take(it.index() as int),
            it.seq() == s@,
    {
        out.push(c);
    }
    out
}

/// Builds a `String` holding exactly the given characters.
pub fn string_from_chars(cs: &[char]) -> (out: String)
    ensures
        out@ == cs@,
{
    let mut out = String::new();
    let mut i: usize = 0;
    while i < cs.len()
        invariant
            i <= cs@.len(),
            out@ == cs@.take(i as int),
        decreases cs@.len() - i,
    {
        out.push(cs[i]);
        i = i + 1;
        assert(cs@.take(i as int) =~= cs@.take((i - 1) as int).push(cs@[i - 1]));
    }
    assert(cs@.take(cs@.len() as int) =~= cs@);
    out
}

/// Appends the characters of `tail` to `out`.
pub fn push_chars(out: &mut Vec<char>, tail: &[char])
    ensures
        final(out)@ == old(out)@ + tail@,
{
    let mut i: usize = 0;
    while i < tail.len()
        invariant
            i <= tail@.len(),
            out@ == old(out)@ + tail@.take(i as int),
        decreases tail@.len() - i,
    {
        out.push(tail[i]);
        i = i + 1;
        assert(tail@.take(i as int) =~= tail@.take((i - 1) as int).push(tail@[i - 1]));
    }
    assert(tail@.take(tail@.len() as int) =~= tail@);
}

/// Appends the characters of a string slice to `out`.
pub fn push_str_chars(out: &mut Vec<char>, tail: &str)
    ensures
        final(out)@ == old(out)@ + tail@,
{
    let cs = chars_of(tail);
    push_chars(out, cs.as_slice());
}

/// Exact equality of two string slices, character by character.
pub fn str_eq(a: &str, b: &str) -> (r: bool)
    ensures
        r == (a@ == b@),
{
    let x: String = a.to_owned();
    let y: String = b.to_owned();
    x == y
}

/// Exact equality of two character sequences.
pub fn chars_eq(a: &[char], b: &[char]) -> (r: bool)
    ensures
        r == (a@ == b@),
{
    if a.len() != b.len() {
        return false;
    }
    let mut i: usize = 0;
    while i < a.len()
        invariant
            a@.len() == b@.len(),
            i <= a@.len(),
            forall|k: int| 0 <= k < i ==> a@[k] == b@[k],
        decreases a@.len() - i,
    {
        if a[i] != b[i] {
            return false;
        }
        i = i + 1;
    }
    assert(a@ =~= b@);
    true
}

/// The characters that `char::is_whitespace` accepts: the Unicode
/// `White_Space` property.
pub open spec fn is_white(c: char) -> bool {
    let u = c as u32;
    ||| 9 <= u <= 13
    ||| u == 32
    ||| u == 0x85
    ||| u == 0xA0
    ||| u == 0x1680
    ||| 0x2000 <= u <= 0x200A
    ||| u == 0x2028
    ||| u == 0x2029
    ||| u == 0x202F
    ||| u == 0x205F
    ||| u == 0x3000
}

pub fn char_is_white(c: char) -> (r: bool)
    ensures
        r == is_white(c),
{
    let u = c as u32;
    (9 <= u && u <= 13) || u == 32 || u == 0x85 || u == 0xA0 || u == 0x1680 || (0x2000 <= u && u
        <= 0x200A) || u == 0x2028 || u == 0x2029 || u == 0x202F || u == 0x205F || u == 0x3000
}

/// `str::trim_start`: drops leading white space.
pub open spec fn trim_start(s: Seq<char>) -> Seq<char>
    decreases s.len(),
{
    if s.len() > 0 && is_white(s[0]) {
        trim_start(s.drop_first())
    } else {
        s
    }
}

/// `str::trim_end`: drops trailing white space.
pub open spec fn trim_end(s: Seq<char>) -> Seq<char>
    decreases s.len(),
{
    if s.len() > 0 && is_white(s.last()) {
        trim_end(s.drop_last())
    } else {
        s
    }
}

/// `str::trim`: drops leading and trailing white space.
pub open spec fn trim(s: Seq<char>) -> Seq<char> {
    trim_end(trim_start(s))
}

proof fn lemma_trim_start_skip(s: Seq<char>, k: int)
    requires
        0 <= k <= s.len(),
        forall|j: int| 0 <= j < k ==> is_white(s[j]),
        k == s.len() || !is_white(s[k]),
    ensures
        trim_start(s) == s.skip(k),
    decreases k,
{
    if k == 0 {
        assert(s.skip(0) =~= s);
    } else {
        let t = s.drop_first();
        assert forall|j: int| 0 <= j < k - 1 implies is_white(t[j]) by {
            assert(t[j] == s[j + 1]);
        }
        if k - 1 < t.len() {
            assert(t[k - 1] == s[k]);
        }
        lemma_trim_start_skip(t, k - 1);
        assert(t.skip(k - 1) =~= s.skip(k));
    }
}

proof fn lemma_trim_end_take(s: Seq<char>, e: int)
    requires
        0 <= e <= s.len(),
        forall|j: int| e <= j < s.len() ==> is_white(s[j]),
        e == 0 || !is_white(s[e - 1]),
    ensures
        trim_end(s) == s.take(e),
    decreases s.len() - e,
{
    if e == s.len() {
        assert(s.take(e) =~= s);
    } else {
        let t = s.drop_last();
        assert forall|j: int| e <= j < t.len() implies is_white(t[j]) by {
            assert(t[j] == s[j]);
        }
        if e > 0 {
            assert(t[e - 1] == s[e - 1]);
        }
        lemma_trim_end_take(t, e);
        assert(t.take(e) =~= s.take(e));
    }
}

/// Finds the bounds of the trimmed part of `s`.
pub fn trim_bounds(s: &[char]) -> (r: (usize, usize))
    ensures
        r.0 <= r.1 <= s@.len(),
        s@.subrange(r.0 as int, r.1 as int) == trim(s@),
{
    let mut start: usize = 0;
    while start < s.len() && char_is_white(s[start])
        invariant
            start <= s@.len(),
            forall|j: int| 0 <= j < start ==> is_white(s@[j]),
        decreases s@.len() - start,
    {
        start = start + 1;
    }
    proof {
        lemma_trim_start_skip(s@, start as int);
    }
    let mut end: usize = s.len();
    while end > start && char_is_white(s[end - 1])
        invariant
            start <= end <= s@.len(),
            forall|j: int| end <= j < s@.len() ==> is_white(s@[j]),
        decreases end,
    {
        end = end - 1;
    }
    proof {
        let t = s@.skip(start as int);
        let e = end - start;
        assert forall|j: int| e <= j < t.len() implies is_white(t[j]) by {
            assert(t[j] == s@[j + start]);
        }
        if e > 0 {
            assert(t[e - 1] == s@[end - 1]);
        }
        lemma_trim_end_take(t, e);
        assert(t.take(e) =~= s@.subrange(start as int, end as int));
    }
    (start, end)
}

/// `str::trim`, returning the characters that remain.
pub fn trim_chars(s: &[char]) -> (r: Vec<char>)
    ensures
        r@ == trim(s@),
{
    let (start, end) = trim_bounds(s);
    let mut out: Vec<char> = Vec::new();
    let mut i = start;
    while i < end
        invariant
            start <= i <= end <= s@.len(),
            out@ == s@.subrange(start as int, i as int),
        decreases end - i,
    {
        out.push(s[i]);
        i = i + 1;
        assert(out@ =~= s@.subrange(start as int, i as int));
    }
    out
}

/// `str::trim` on a string slice.
pub fn trim_str(s: &str) -> (r: Vec<char>)
    ensures
        r@ == trim(s@),
{
    let cs = chars_of(s);
    trim_chars(cs.as_slice())
}

/// Splits a character sequence at every occurrence of `sep`, as
/// `str::split` with a character pattern does (always at least one part).
pub open spec fn split_on(s: Seq<char>, sep: char) -> Seq<Seq<char>>
    decreases s.len(),
{
    if s.len() == 0 {
        seq![Seq::<char>::empty()]
    } else {
        let parts = split_on(s.drop_last(), sep);
        if s.last() == sep {
            parts.push(Seq::<char>::empty())
        } else {
            parts.update(parts.len() - 1, parts.last().push(s.last()))
        }
    }
}

pub proof fn lemma_split_on_nonempty(s: Seq<char>, sep: char)
    ensures
        split_on(s, sep).len() >= 1,
    decreases s.len(),
{
    if s.len() > 0 {
        lemma_split_on_nonempty(s.drop_last(), sep);
    }
}

pub proof fn lemma_split_count(s: Seq<char>, sep: char)
    ensures
        split_on(s, sep).len() <= s.len() + 1,
    decreases s.len(),
{
    if s.len() > 0 {
        lemma_split_count(s.drop_last(), sep);
        lemma_split_on_nonempty(s.drop_last(), sep);
    }
}

/// Views of a vector of character vectors.
pub open spec fn views(v: Seq<Vec<char>>) -> Seq<Seq<char>> {
    Seq::new(v.len(), |i: int| v[i]@)
}

/// Splits `s` at every `sep`.
pub fn split_chars(s: &[char], sep: char) -> (parts: Vec<Vec<char>>)
    ensures
        views(parts@) == split_on(s@, sep),
{
    let mut done: Vec<Vec<char>> = Vec::new();
    let mut cur: Vec<char> = Vec::new();
    let mut i: usize = 0;
    assert(s@.take(0) =~= Seq::<char>::empty());
    while i < s.len()
        invariant
            i <= s@.len(),
            views(done@).push(cur@) == split_on(s@.take(i as int), sep),
        decreases s@.len() - i,
    {
        let c = s[i];
        proof {
            assert(s@.take(i + 1).drop_last() =~= s@.take(i as int));
            assert(s@.take(i + 1).last() == c);
        }
        if c == sep {
            let ghost before = done@;
            let ghost cv = cur@;
            done.push(cur);
            cur = Vec::new();
            proof {
                assert(views(done@) =~= views(before).push(cv));
            }
        } else {
            cur.push(c);
        }
        i = i + 1;
        proof {
            assert(views(done@).push(cur@) =~= split_on(s@.take(i as int), sep));
        }
    }
    assert(s@.take(s@.len() as int) =~= s@);
    done.push(cur);
    assert(views(done@) =~= split_on(s@, sep));
    done
}

/// The decimal digit character for a value below ten.
pub open spec fn digit_char(d: nat) -> char {
    if d == 0 { '0' }
    else if d == 1 { '1' }
    else if d == 2 { '2' }
    else if d == 3 { '3' }
    else if d == 4 { '4' }
    else if d == 5 { '5' }
    else if d == 6 { '6' }
    else if d == 7 { '7' }
    else if d == 8 { '8' }
    else if d == 9 { '9' }
    else if d == 10 { 'a' }
    else if d == 11 { 'b' }
    else if d == 12 { 'c' }
    else if d == 13 { 'd' }
    else if d == 14 { 'e' }
    else { 'f' }
}

fn digit(d: u64) -> (c: char)
    requires
        d < 16,
    ensures
        c == digit_char(d as nat),
{
    if d == 0 { '0' }
    else if d == 1 { '1' }
    else if d == 2 { '2' }
    else if d == 3 { '3' }
    else if d == 4 { '4' }
    else if d == 5 { '5' }
    else if d == 6 { '6' }
    else if d == 7 { '7' }
    else if d == 8 { '8' }
    else if d == 9 { '9' }
    else if d == 10 { 'a' }
    else if d == 11 { 'b' }
    else if d == 12 { 'c' }
    else if d == 13 { 'd' }
    else if d == 14 { 'e' }
    else { 'f' }
}

/// Decimal rendering of a natural number, without leading zeros.
pub open spec fn decimal(n: nat) -> Seq<char>
    decreases n,
{
    if n < 10 {
        seq![digit_char(n)]
    } else {
        decimal(n / 10).push(digit_char(n % 10))
    }
}

/// Decimal rendering of a signed integer, as `i64::to_string` gives it.
pub open spec fn decimal_int(n: int) -> Seq<char> {
    if n < 0 {
        seq!['-'] + decimal((-n) as nat)
    } else {
        decimal(n as nat)
    }
}

/// Renders an unsigned number in decimal.
pub fn u64_decimal(n: u64) -> (out: Vec<char>)
    ensures
        out@ == decimal(n as nat),
    decreases n,
{
    if n < 10 {
        let mut out = Vec::new();
        out.push(digit(n));
        out
    } else {
        let mut out = u64_decimal(n / 10);
        out.push(digit(n % 10));
        out
    }
}

/// Renders a signed number in decimal, as `i64::to_string` does.
pub fn i64_decimal(n: i64) -> (out: Vec<char>)
    ensures
        out@ == decimal_int(n as int),
{
    if n < 0 {
        let magnitude: u64 = (0i128 - n as i128) as u64;
        let mut out = Vec::new();
        out.push('-');
        let digits = u64_decimal(magnitude);
        push_chars(&mut out, digits.as_slice());
        out
    } else {
        u64_decimal(n as u64)
    }
}

/// Lower-case hexadecimal rendering of `n` into exactly `width` digits,
/// keeping the low-order ones.
pub open spec fn hex_digits(n: nat, width: nat) -> Seq<char>
    decreases width,
{
    if width == 0 {
        Seq::<char>::empty()
    } else {
        hex_digits(n / 16, (width - 1) as nat).push(digit_char(n % 16))
    }
}

/// Renders `n` as exactly `width` lower-case hexadecimal digits.
pub fn hex_fixed(n: u64, width: u64) -> (out: Vec<char>)
    ensures
        out@ == hex_digits(n as nat, width as nat),
    decreases width,
{
    if width == 0 {
        Vec::new()
    } else {
        let mut out = hex_fixed(n / 16, width - 1);
        out.push(digit(n % 16));
        out
    }
}

/// Lower-case hexadecimal rendering of a natural number, without leading
/// zeros, as the `{:x}` format gives it.
pub open spec fn hex(n: nat) -> Seq<char>
    decreases n,
{
    if n < 16 {
        seq![digit_char(n)]
    } else {
        hex(n / 16).push(digit_char(n % 16))
    }
}

/// Renders a 128-bit unsigned number in decimal.
pub fn u128_decimal(n: u128) -> (out: Vec<char>)
    ensures
        out@ == decimal(n as nat),
    decreases n,
{
    if n < 10 {
        let mut out = Vec::new();
        out.push(digit((n % 10) as u64));
        out
    } else {
        let mut out = u128_decimal(n / 10);
        out.push(digit((n % 10) as u64));
        out
    }
}

/// Renders an unsigned number in lower-case hexadecimal.
pub fn u64_hex(n: u64) -> (out: Vec<char>)
    ensures
        out@ == hex(n as nat),
    decreases n,
{
    if n < 16 {
        let mut out = Vec::new();
        out.push(digit(n));
        out
    } else {
        let mut out = u64_hex(n / 16);
        out.push(digit(n % 16));
        out
    }
}

/// The name of what `str::to_lowercase` returns: the Unicode lower-case
/// mapping of every character.
pub uninterp spec fn spec_to_lowercase(s: Seq<char>) -> Seq<char>;

/// Calls `str::to_lowercase`. The contract names the result and states
/// nothing else of the Unicode case mapping.
#[verifier::external_body]
pub(crate) fn to_lowercase(s: &str) -> (r: String)
    ensures
        r@ == spec_to_lowercase(s@),
{
    s.to_lowercase()
}

/// Joins pieces with a separator character.
pub open spec fn join_with(segs: Seq<Seq<char>>, sep: char) -> Seq<char>
    decreases segs.len(),
{
    if segs.len() == 0 {
        Seq::empty()
    } else if segs.len() == 1 {
        segs[0]
    } else {
        join_with(segs.drop_last(), sep).push(sep) + segs.last()
    }
}

/// Joins pieces with a separator character.
pub fn join_chars_with(segs: &Vec<Vec<char>>, sep: char) -> (out: Vec<char>)
    ensures
        out@ == join_with(views(segs@), sep),
{
    let mut out: Vec<char> = Vec::new();
    let mut i: usize = 0;
    assert(views(segs@.take(0)) =~= Seq::<Seq<char>>::empty());
    while i < segs.len()
        invariant
            i <= segs@.len(),
            out@ == join_with(views(segs@.take(i as int)), sep),
        decreases segs@.len() - i,
    {
        proof {
            assert(views(segs@.take(i + 1)).drop_last() =~= views(segs@.take(i as int)));
            assert(views(segs@.take(i + 1)).last() == segs@[i as int]@);
        }
        if i > 0 {
            out.push(sep);
        }
        push_chars(&mut out, segs[i].as_slice());
        i = i + 1;
        proof {
            if i == 1 {
                assert(views(segs@.take(1)) =~= seq![segs@[0]@]);
                assert(out@ =~= segs@[0]@);
            }
        }
    }
    assert(segs@.take(segs@.len() as int) =~= segs@);
    out
}

/// `str::lines`: the pieces between `\n`, each without one trailing
/// `\r`, and no final empty piece; the last piece, when it has no `\n`
/// after it, keeps a trailing `\r`.
pub open spec fn lines_of(s: Seq<char>) -> Seq<Seq<char>> {
    let parts = split_on(s, '\n');
    let n = parts.len();
    let ended = Seq::new((n - 1) as nat, |i: int| strip_cr(parts[i]));
    if parts[n - 1].len() > 0 {
        ended.push(parts[n - 1])
    } else {
        ended
    }
}

pub open spec fn strip_cr(l: Seq<char>) -> Seq<char> {
    if l.len() > 0 && l.last() == '\r' {
        l.drop_last()
    } else {
        l
    }
}

/// The lines of a text, as `str::lines` gives them.
pub fn lines(s: &str) -> (out: Vec<Vec<char>>)
    ensures
        views(out@) == lines_of(s@),
{
    let cs = chars_of(s);
    let parts = split_chars(cs.as_slice(), '\n');
    proof {
        lemma_split_on_nonempty(s@, '\n');
    }
    let n = parts.len();
    let mut out: Vec<Vec<char>> = Vec::new();
    let mut i: usize = 0;
    while i + 1 < n
        invariant
            n == parts@.len(),
            n >= 1,
            i < n,
            views(parts@) == split_on(s@, '\n'),
            views(out@) == Seq::new(i as nat, |k: int| strip_cr(parts@[k]@)),
        decreases n - i,
    {
        let mut line: Vec<char> = Vec::new();
        let len = parts[i].len();
        let keep = if len > 0 && parts[i][len - 1] == '\r' { len - 1 } else { len };
        let mut j: usize = 0;
        while j < keep
            invariant
                i < parts@.len(),
                keep <= parts@[i as int]@.len(),
                j <= keep,
                line@ == parts@[i as int]@.take(j as int),
            decreases keep - j,
        {
            line.push(parts[i][j]);
            j = j + 1;
            assert(line@ =~= parts@[i as int]@.take(j as int));
        }
        proof {
            let l = parts@[i as int]@;
            if len > 0 && l.last() == '\r' {
                assert(line@ =~= l.drop_last());
            } else {
                assert(line@ =~= l);
            }
        }
        let ghost before = out@;
        let ghost lv = line@;
        out.push(line);
        assert(views(out@) =~= views(before).push(lv));
        i = i + 1;
        assert(views(out@) =~= Seq::new(i as nat, |k: int| strip_cr(parts@[k]@)));
    }
    if parts[n - 1].len() > 0 {
        let last = parts[n - 1].clone();
        assert(last@ =~= parts@[n - 1]@);
        let ghost before = out@;
        out.push(last);
        assert(views(out@) =~= views(before).push(parts@[n - 1]@));
    }
    proof {
        let ps = split_on(s@, '\n');
        assert(Seq::new((n - 1) as nat, |k: int| strip_cr(parts@[k]@)) =~= Seq::new(
            (ps.len() - 1) as nat,
            |k: int| strip_cr(ps[k]),
        ));
        assert(views(out@) =~= lines_of(s@));
    }
    out
}

/// The characters of each string.
pub open spec fn views_of_strings(s: Seq<String>) -> Seq<Seq<char>> {
    Seq::new(s.len(), |i: int| s[i]@)
}

/// A copy of an optional string.
pub fn clone_opt(o: &Option<String>) -> (r: Option<String>)
    ensures
        r == *o,
{
    match o {
        Some(s) => Some(s.clone()),
        None => None,
    }
}

} // verus!
