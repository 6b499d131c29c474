//! Orderings used to present lists: lexicographic order of strings (as
//! `String`'s `Ord` gives it: UTF-8 byte order, which is the order of code
//! points) and a stable sort on composite keys.
use vstd::prelude::*;
use crate::text::chars_of;

verus! {

/// Strict lexicographic order of character sequences by code point.
pub open spec fn chars_lt(a: Seq<char>, b: Seq<char>) -> bool
    decreases a.len(),
{
    if a.len() == 0 {
        b.len() > 0
    } else if b.len() == 0 {
        false
    } else if (a[0] as u32) < (b[0] as u32) {
        true
    } else if (a[0] as u32) > (b[0] as u32) {
        false
    } else {
        chars_lt(a.drop_first(), b.drop_first())
    }
}

/// Two characters with the same code point are the same character.
pub proof fn lemma_char_code_injective(a: char, b: char)
    requires
        (a as u32) == (b as u32),
    ensures
        a == b,
{
    vstd::utf8::char_u32_cast(a, a as u32);
    vstd::utf8::char_u32_cast(b, b as u32);
}

pub proof fn lemma_chars_lt_irreflexive(a: Seq<char>)
    ensures
        !chars_lt(a, a),
    decreases a.len(),
{
    if a.len() > 0 {
        lemma_chars_lt_irreflexive(a.drop_first());
    }
}

pub proof fn lemma_chars_lt_transitive(a: Seq<char>, b: Seq<char>, c: Seq<char>)
    requires
        chars_lt(a, b),
        chars_lt(b, c),
    ensures
        chars_lt(a, c),
    decreases a.len(),
{
    if a.len() > 0 && b.len() > 0 && c.len() > 0 {
        if (a[0] as u32) == (b[0] as u32) && (b[0] as u32) == (c[0] as u32) {
            lemma_chars_lt_transitive(a.drop_first(), b.drop_first(), c.drop_first());
        }
    }
}

pub proof fn lemma_chars_lt_trichotomy(a: Seq<char>, b: Seq<char>)
    ensures
        chars_lt(a, b) || a == b || chars_lt(b, a),
        !(chars_lt(a, b) && chars_lt(b, a)),
    decreases a.len(),
{
    if a.len() == 0 {
        if b.len() == 0 {
            assert(a =~= b);
        }
    } else if b.len() > 0 {
        if (a[0] as u32) == (b[0] as u32) {
            lemma_chars_lt_trichotomy(a.drop_first(), b.drop_first());
            if a.drop_first() == b.drop_first() {
                lemma_char_code_injective(a[0], b[0]);
                assert forall|k: int| 0 <= k < a.len() implies a[k] == b[k] by {
                    if k > 0 {
                        assert(a[k] == a.drop_first()[k - 1]);
                        assert(b[k] == b.drop_first()[k - 1]);
                    }
                }
                assert(a =~= b);
            }
        }
    }
}

proof fn lemma_chars_lt_skip(a: Seq<char>, b: Seq<char>, i: int)
    requires
        0 <= i < a.len(),
        i < b.len(),
        a[i] == b[i],
    ensures
        chars_lt(a.skip(i), b.skip(i)) == chars_lt(a.skip(i + 1), b.skip(i + 1)),
{
    assert(a.skip(i).drop_first() =~= a.skip(i + 1));
    assert(b.skip(i).drop_first() =~= b.skip(i + 1));
}

/// Whether `a` comes strictly before `b`.
pub fn chars_less(a: &[char], b: &[char]) -> (r: bool)
    ensures
        r == chars_lt(a@, b@),
{
    let mut i: usize = 0;
    assert(a@.skip(0) =~= a@);
    assert(b@.skip(0) =~= b@);
    loop
        invariant
            i <= a@.len(),
            i <= b@.len(),
            chars_lt(a@, b@) == chars_lt(a@.skip(i as int), b@.skip(i as int)),
        decreases a@.len() - i,
    {
        if i == a.len() {
            return i < b.len();
        }
        if i == b.len() {
            return false;
        }
        let x = a[i] as u32;
        let y = b[i] as u32;
        if x < y {
            return true;
        }
        if x > y {
            return false;
        }
        proof {
            lemma_char_code_injective(a@[i as int], b@[i as int]);
            lemma_chars_lt_skip(a@, b@, i as int);
        }
        i = i + 1;
    }
}

/// Whether the string `a` comes strictly before the string `b`.
pub fn str_less(a: &str, b: &str) -> (r: bool)
    ensures
        r == chars_lt(a@, b@),
{
    let x = chars_of(a);
    let y = chars_of(b);
    chars_less(x.as_slice(), y.as_slice())
}

/// A composite sort key: compared by `major`, then `minor`, then `text`.
pub struct SortKey {
    pub major: i128,
    pub minor: i128,
    pub text: Vec<char>,
}

pub open spec fn key_lt(a: SortKey, b: SortKey) -> bool {
    ||| a.major < b.major
    ||| a.major == b.major && a.minor < b.minor
    ||| a.major == b.major && a.minor == b.minor && chars_lt(a.text@, b.text@)
}

pub open spec fn key_le(a: SortKey, b: SortKey) -> bool {
    !key_lt(b, a)
}

pub open spec fn key_eq(a: SortKey, b: SortKey) -> bool {
    !key_lt(a, b) && !key_lt(b, a)
}

proof fn lemma_key_le_transitive(a: SortKey, b: SortKey, c: SortKey)
    requires
        key_le(a, b),
        key_le(b, c),
    ensures
        key_le(a, c),
{
    lemma_chars_lt_trichotomy(a.text@, b.text@);
    lemma_chars_lt_trichotomy(b.text@, c.text@);
    lemma_chars_lt_trichotomy(a.text@, c.text@);
    if chars_lt(c.text@, a.text@) && a.major == b.major && b.major == c.major && a.minor == b.minor
        && b.minor == c.minor {
        if chars_lt(b.text@, a.text@) {
        } else if a.text@ == b.text@ {
        } else {
            lemma_chars_lt_transitive(c.text@, a.text@, b.text@);
        }
    }
}

proof fn lemma_key_lt_le(a: SortKey, b: SortKey)
    ensures
        key_lt(a, b) ==> key_le(a, b),
{
    lemma_chars_lt_trichotomy(a.text@, b.text@);
}

fn key_less(a: &SortKey, b: &SortKey) -> (r: bool)
    ensures
        r == key_lt(*a, *b),
{
    if a.major != b.major {
        a.major < b.major
    } else if a.minor != b.minor {
        a.minor < b.minor
    } else {
        chars_less(a.text.as_slice(), b.text.as_slice())
    }
}

/// `order` lists indices into `keys` once each, in ascending key order,
/// and equal keys keep the order they were given in.
pub open spec fn is_stable_order(keys: Seq<SortKey>, order: Seq<usize>) -> bool {
    &&& order.len() == keys.len()
    &&& forall|i: int| 0 <= i < order.len() ==> order[i] < keys.len()
    &&& forall|i: int, j: int| 0 <= i < j < order.len() ==> order[i] != order[j]
    &&& forall|i: int, j: int|
        0 <= i < j < order.len() ==> key_le(keys[order[i] as int], keys[order[j] as int])
    &&& forall|i: int, j: int|
        0 <= i < j < order.len() && key_eq(keys[order[i] as int], keys[order[j] as int])
            ==> order[i] < order[j]
}

/// A stable order lists every index of the keys.
pub proof fn lemma_stable_order_covers(keys: Seq<SortKey>, order: Seq<usize>, m: int)
    requires
        is_stable_order(keys, order),
        0 <= m < keys.len(),
    ensures
        exists|p: int| 0 <= p < order.len() && order[p] == m,
{
    broadcast use vstd::seq_lib::seq_to_set_is_finite;
    let t: Seq<int> = order.map_values(|v: usize| v as int);
    assert(t.no_duplicates()) by {
        assert forall|i: int, j: int| 0 <= i < t.len() && 0 <= j < t.len() && i != j implies t[i] != t[j] by {
            if i < j {
                assert(order[i] != order[j]);
            } else {
                assert(order[j] != order[i]);
            }
        }
    }
    t.unique_seq_to_set();
    let range = vstd::set_lib::set_int_range(0, keys.len() as int);
    vstd::set_lib::lemma_int_range(0, keys.len() as int);
    assert(t.to_set().subset_of(range)) by {
        assert forall|x: int| t.to_set().contains(x) implies range.contains(x) by {
            let p = choose|p: int| 0 <= p < t.len() && t[p] == x;
            assert(order[p] < keys.len());
        }
    }
    vstd::set_lib::lemma_subset_equality(t.to_set(), range);
    assert(range.contains(m));
    assert(t.to_set().contains(m));
    let p = choose|p: int| 0 <= p < t.len() && t[p] == m;
    assert(order[p] == m);
}

/// A stable sort: the order in which `keys` are listed ascending.
pub fn stable_order(keys: &Vec<SortKey>) -> (order: Vec<usize>)
    ensures
        is_stable_order(keys@, order@),
{
    let mut order: Vec<usize> = Vec::new();
    let mut idx: usize = 0;
    while idx < keys.len()
        invariant
            idx <= keys@.len(),
            order@.len() == idx,
            forall|i: int| 0 <= i < order@.len() ==> order@[i] < idx,
            forall|i: int, j: int| 0 <= i < j < order@.len() ==> order@[i] != order@[j],
            forall|i: int, j: int|
                0 <= i < j < order@.len() ==> key_le(
                    keys@[order@[i] as int],
                    keys@[order@[j] as int],
                ),
            forall|i: int, j: int|
                0 <= i < j < order@.len() && key_eq(
                    keys@[order@[i] as int],
                    keys@[order@[j] as int],
                ) ==> order@[i] < order@[j],
        decreases keys@.len() - idx,
    {
        let mut pos: usize = order.len();
        while pos > 0 && key_less(&keys[idx], &keys[order[pos - 1]])
            invariant
                idx < keys@.len(),
                pos <= order@.len(),
                forall|i: int| 0 <= i < order@.len() ==> order@[i] < idx,
                forall|j: int|
                    pos <= j < order@.len() ==> key_lt(
                        keys@[idx as int],
                        keys@[order@[j] as int],
                    ),
            decreases pos,
        {
            pos = pos - 1;
        }
        let ghost old_order = order@;
        let ghost k = keys@[idx as int];
        proof {
            if pos > 0 {
                let p = old_order[pos - 1] as int;
                assert(key_le(keys@[p], k));
                assert forall|j: int| 0 <= j < pos implies key_le(
                    keys@[old_order[j] as int],
                    k,
                ) by {
                    if j < pos - 1 {
                        lemma_key_le_transitive(keys@[old_order[j] as int], keys@[p], k);
                    }
                }
            }
            assert forall|j: int| pos <= j < old_order.len() implies key_le(
                k,
                keys@[old_order[j] as int],
            ) && !key_eq(k, keys@[old_order[j] as int]) by {
                lemma_key_lt_le(k, keys@[old_order[j] as int]);
            }
        }
        order.insert(pos, idx);
        proof {
            assert(order@ == old_order.insert(pos as int, idx));
            assert forall|i: int, j: int| 0 <= i < j < order@.len() implies key_le(
                keys@[order@[i] as int],
                keys@[order@[j] as int],
            ) by {
                if i < pos && j < pos {
                } else if i < pos && j == pos {
                } else if i < pos && j > pos {
                    assert(order@[j] == old_order[j - 1]);
                } else if i == pos {
                    assert(order@[j] == old_order[j - 1]);
                } else {
                    assert(order@[i] == old_order[i - 1]);
                    assert(order@[j] == old_order[j - 1]);
                }
            }
            assert forall|i: int, j: int|
                0 <= i < j < order@.len() && key_eq(
                    keys@[order@[i] as int],
                    keys@[order@[j] as int],
                ) implies order@[i] < order@[j] by {
                if i < pos && j < pos {
                } else if i < pos && j == pos {
                } else if i < pos && j > pos {
                    assert(order@[j] == old_order[j - 1]);
                } else if i == pos {
                    assert(order@[j] == old_order[j - 1]);
                } else {
                    assert(order@[i] == old_order[i - 1]);
                    assert(order@[j] == old_order[j - 1]);
                }
            }
            assert forall|i: int, j: int| 0 <= i < j < order@.len() implies order@[i]
                != order@[j] by {
                if i < pos && j < pos {
                } else if i < pos && j == pos {
                } else if i < pos && j > pos {
                    assert(order@[j] == old_order[j - 1]);
                } else if i == pos {
                    assert(order@[j] == old_order[j - 1]);
                } else {
                    assert(order@[i] == old_order[i - 1]);
                    assert(order@[j] == old_order[j - 1]);
                }
            }
        }
        idx = idx + 1;
    }
    order
}

/// Some element of `s` has the characters `t`.
pub open spec fn has_view(s: Seq<String>, t: Seq<char>) -> bool {
    exists|i: int| 0 <= i < s.len() && #[trigger] s[i]@ == t
}

/// `new` holds the characters that `old` holds, and `t0`, and no others.
pub open spec fn adds_view(new: Seq<String>, old: Seq<String>, t0: Seq<char>) -> bool {
    forall|t: Seq<char>| has_view(new, t) <==> (has_view(old, t) || t == t0)
}

/// `s` is in strictly ascending order.
pub open spec fn strictly_ascending(s: Seq<String>) -> bool {
    forall|i: int, j: int| 0 <= i < j < s.len() ==> chars_lt(s[i]@, s[j]@)
}

/// Inserts `item` into a strictly ascending list unless it is already
/// there.
pub fn insert_sorted_unique(list: &mut Vec<String>, item: String)
    requires
        strictly_ascending(old(list)@),
    ensures
        strictly_ascending(final(list)@),
        adds_view(final(list)@, old(list)@, item@),
{
    let ghost old_list = list@;
    let key = chars_of(item.as_str());
    let mut pos: usize = list.len();
    while pos > 0 && chars_less(key.as_slice(), chars_of(list[pos - 1].as_str()).as_slice())
        invariant
            pos <= list@.len(),
            list@ == old_list,
            key@ == item@,
            forall|j: int| pos <= j < list@.len() ==> chars_lt(item@, list@[j]@),
        decreases pos,
    {
        pos = pos - 1;
    }
    if pos > 0 {
        let prev = chars_of(list[pos - 1].as_str());
        if crate::text::chars_eq(prev.as_slice(), key.as_slice()) {
            proof {
                assert(list@[pos - 1]@ == item@);
                assert forall|t: Seq<char>| has_view(list@, t) <==> (has_view(old_list, t)
                    || t == item@) by {
                    if t == item@ {
                        assert(list@[pos - 1]@ == t);
                        assert(has_view(list@, t));
                    }
                }
                assert(list@ == old_list);
                assert(adds_view(list@, old_list, item@));
            }
            return;
        }
        proof {
            let p = old_list[pos - 1]@;
            lemma_chars_lt_trichotomy(item@, p);
            assert(chars_lt(p, item@));
            assert forall|j: int| 0 <= j < pos implies chars_lt(old_list[j]@, item@) by {
                if j < pos - 1 {
                    lemma_chars_lt_transitive(old_list[j]@, p, item@);
                }
            }
        }
    }
    list.insert(pos, item);
    proof {
        assert(list@ == old_list.insert(pos as int, item));
        assert forall|i: int, j: int| 0 <= i < j < list@.len() implies chars_lt(
            list@[i]@,
            list@[j]@,
        ) by {
            if i < pos && j < pos {
            } else if i < pos && j == pos {
            } else if i < pos && j > pos {
                assert(list@[j] == old_list[j - 1]);
                lemma_chars_lt_transitive(list@[i]@, item@, list@[j]@);
            } else if i == pos {
                assert(list@[j] == old_list[j - 1]);
            } else {
                assert(list@[i] == old_list[i - 1]);
                assert(list@[j] == old_list[j - 1]);
            }
        }
        assert forall|t: Seq<char>| has_view(list@, t) <==> (has_view(old_list, t) || t
            == item@) by {
            if has_view(list@, t) {
                let k = choose|k: int| 0 <= k < list@.len() && #[trigger] list@[k]@ == t;
                if k < pos {
                    assert(old_list[k]@ == t);
                } else if k > pos {
                    assert(old_list[k - 1]@ == t);
                }
            }
            if has_view(old_list, t) {
                let k = choose|k: int| 0 <= k < old_list.len() && #[trigger] old_list[k]@ == t;
                if k < pos {
                    assert(list@[k]@ == t);
                } else {
                    assert(list@[k + 1]@ == t);
                }
            }
            if t == item@ {
                assert(list@[pos as int]@ == t);
            }
        }
        assert(adds_view(list@, old_list, item@));
    }
}

/// Sorts a list of strings and removes duplicates, as `sort` followed by
/// `dedup` does.
pub fn sorted_unique(items: Vec<String>) -> (out: Vec<String>)
    ensures
        strictly_ascending(out@),
        forall|t: Seq<char>| has_view(out@, t) <==> has_view(items@, t),
{
    let mut out: Vec<String> = Vec::new();
    let mut i: usize = 0;
    while i < items.len()
        invariant
            i <= items@.len(),
            strictly_ascending(out@),
            forall|t: Seq<char>| has_view(out@, t) <==> has_view(items@.take(i as int), t),
        decreases items@.len() - i,
    {
        let item = items[i].clone();
        insert_sorted_unique(&mut out, item);
        proof {
            assert forall|t: Seq<char>| has_view(items@.take(i + 1), t) <==> (has_view(
                items@.take(i as int),
                t,
            ) || t == items@[i as int]@) by {
                let a = items@.take(i + 1);
                let b = items@.take(i as int);
                if has_view(a, t) {
                    let k = choose|k: int| 0 <= k < a.len() && #[trigger] a[k]@ == t;
                    if k < i {
                        assert(b[k]@ == t);
                    }
                }
                if has_view(b, t) {
                    let k = choose|k: int| 0 <= k < b.len() && #[trigger] b[k]@ == t;
                    assert(a[k]@ == t);
                }
                if t == items@[i as int]@ {
                    assert(a[i as int]@ == t);
                }
            }
            assert(item@ == items@[i as int]@);
            assert forall|t: Seq<char>| has_view(out@, t) <==> has_view(
                items@.take(i + 1),
                t,
            ) by {}
        }
        i = i + 1;
    }
    assert(items@.take(items@.len() as int) =~= items@);
    out
}

} // verus!
