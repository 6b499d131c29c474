//! Where the database lives and how its backups are named, made and
//! pruned.
use vstd::prelude::*;
use crate::order::{has_view, sorted_unique, strictly_ascending};
use crate::text::{chars_of, string_from_chars};

verus! {

/// A path with every `\` turned into `/`.
pub open spec fn forward_slashes(s: Seq<char>) -> Seq<char>
    decreases s.len(),
{
    if s.len() == 0 {
        Seq::empty()
    } else {
        forward_slashes(s.drop_last()).push(if s.last() == '\\' { '/' } else { s.last() })
    }
}

/// A text with every `'` doubled, as SQL quotes it.
pub open spec fn sql_quoted(s: Seq<char>) -> Seq<char>
    decreases s.len(),
{
    if s.len() == 0 {
        Seq::empty()
    } else {
        sql_quoted(s.drop_last()) + if s.last() == '\'' { seq!['\'', '\''] } else { seq![s.last()] }
    }
}

fn push_forward(out: &mut Vec<char>, s: &str)
    ensures
        final(out)@ == old(out)@ + forward_slashes(s@),
{
    let cs = chars_of(s);
    let ghost start = out@;
    let mut i: usize = 0;
    while i < cs.len()
        invariant
            i <= cs@.len(),
            cs@ == s@,
            out@ == start + forward_slashes(cs@.take(i as int)),
        decreases cs@.len() - i,
    {
        proof {
            assert(cs@.take(i + 1).drop_last() =~= cs@.take(i as int));
        }
        let c = cs[i];
        out.push(if c == '\\' { '/' } else { c });
        i = i + 1;
        proof {
            assert(out@ =~= start + forward_slashes(cs@.take(i as int)));
        }
    }
    assert(cs@.take(cs@.len() as int) =~= s@);
}

/// The address of the database file for SQLite: `sqlite:` and the path
/// with forward slashes.
pub fn database_url(db_path: &str) -> (url: String)
    ensures
        url@ == "sqlite:"@ + forward_slashes(db_path@),
{
    let mut out = chars_of("sqlite:");
    push_forward(&mut out, db_path);
    string_from_chars(out.as_slice())
}

/// The statement that copies the database into a backup file: `VACUUM
/// INTO` the path with forward slashes, quoted for SQL.
pub fn backup_query_for(backup_path: &str) -> (q: String)
    ensures
        q@ == "VACUUM INTO '"@ + sql_quoted(forward_slashes(backup_path@)) + "'"@,
{
    let mut slashed: Vec<char> = Vec::new();
    push_forward(&mut slashed, backup_path);
    assert(slashed@ =~= forward_slashes(backup_path@));
    let mut out = chars_of("VACUUM INTO '");
    let ghost start = out@;
    let mut i: usize = 0;
    while i < slashed.len()
        invariant
            i <= slashed@.len(),
            out@ == start + sql_quoted(slashed@.take(i as int)),
        decreases slashed@.len() - i,
    {
        proof {
            assert(slashed@.take(i + 1).drop_last() =~= slashed@.take(i as int));
        }
        let c = slashed[i];
        if c == '\'' {
            out.push('\'');
            out.push('\'');
        } else {
            out.push(c);
        }
        i = i + 1;
        proof {
            assert(out@ =~= start + sql_quoted(slashed@.take(i as int)));
        }
    }
    assert(slashed@.take(slashed@.len() as int) =~= slashed@);
    out.push('\'');
    proof {
        reveal_strlit("'");
        assert(out@ =~= "VACUUM INTO '"@ + sql_quoted(forward_slashes(backup_path@)) + "'"@);
    }
    string_from_chars(out.as_slice())
}

/// The day and the week (days since the epoch, weeks of them) a backup
/// taken at `unix_seconds` belongs to.
pub fn backup_buckets(unix_seconds: u64) -> (r: (u64, u64))
    ensures
        r.0 == unix_seconds / 86400,
        r.1 == unix_seconds / 86400 / 7,
{
    let day = unix_seconds / 86400;
    (day, day / 7)
}

/// `s` starts with `p`.
pub open spec fn starts_with(s: Seq<char>, p: Seq<char>) -> bool {
    p.len() <= s.len() && s.take(p.len() as int) == p
}

fn has_prefix(s: &str, p: &str) -> (r: bool)
    ensures
        r == starts_with(s@, p@),
{
    let a = chars_of(s);
    let b = chars_of(p);
    if b.len() > a.len() {
        return false;
    }
    let mut i: usize = 0;
    while i < b.len()
        invariant
            b@.len() <= a@.len(),
            i <= b@.len(),
            a@ == s@,
            b@ == p@,
            forall|k: int| 0 <= k < i ==> a@[k] == b@[k],
        decreases b@.len() - i,
    {
        if a[i] != b[i] {
            assert(s@.take(p@.len() as int)[i as int] != p@[i as int]);
            return false;
        }
        i = i + 1;
    }
    assert(s@.take(p@.len() as int) =~= p@);
    true
}

/// `sorted` lists, once each and in ascending order, the names of
/// `names` that start with `prefix`, and `out` is the oldest of them
/// beyond the `retain` newest.
pub open spec fn prune_choice(names: Seq<String>, prefix: Seq<char>, retain: usize, sorted: Seq<String>, out: Seq<String>) -> bool {
    &&& strictly_ascending(sorted)
    &&& forall|t: Seq<char>| has_view(sorted, t) <==> (has_view(names, t) && starts_with(t, prefix))
    &&& out == sorted.take(if sorted.len() > retain { sorted.len() - retain } else { 0 })
}

/// The backups to delete so that at most `retain` of those whose name
/// starts with `prefix` are left: the oldest by name.
pub fn backups_to_prune(names: &Vec<String>, prefix: &str, retain: usize) -> (out: Vec<String>)
    ensures
        exists|sorted: Seq<String>| #[trigger] prune_choice(names@, prefix@, retain, sorted, out@),
{
    let mut matching: Vec<String> = Vec::new();
    let mut i: usize = 0;
    while i < names.len()
        invariant
            i <= names@.len(),
            forall|t: Seq<char>| has_view(matching@, t) <==> (has_view(names@.take(i as int), t) && starts_with(t, prefix@)),
        decreases names@.len() - i,
    {
        let ghost before = matching@;
        let keep = has_prefix(names[i].as_str(), prefix);
        if keep {
            matching.push(names[i].clone());
        }
        proof {
            assert forall|t: Seq<char>| has_view(matching@, t) <==> (has_view(names@.take(i + 1), t) && starts_with(t, prefix@)) by {
                if has_view(matching@, t) {
                    let k = choose|k: int| 0 <= k < matching@.len() && #[trigger] matching@[k]@ == t;
                    if k < before.len() {
                        assert(before[k] == matching@[k]);
                        assert(has_view(before, t));
                        let j = choose|j: int| 0 <= j < names@.take(i as int).len() && #[trigger] names@.take(i as int)[j]@ == t;
                        assert(names@.take(i + 1)[j] == names@.take(i as int)[j]);
                    } else {
                        assert(names@.take(i + 1)[i as int] == names@[i as int]);
                    }
                }
                if has_view(names@.take(i + 1), t) && starts_with(t, prefix@) {
                    let j = choose|j: int| 0 <= j < names@.take(i + 1).len() && #[trigger] names@.take(i + 1)[j]@ == t;
                    if j < i {
                        assert(names@.take(i as int)[j] == names@.take(i + 1)[j]);
                        assert(has_view(before, t));
                        let k = choose|k: int| 0 <= k < before.len() && #[trigger] before[k]@ == t;
                        assert(matching@[k] == before[k]);
                    } else {
                        assert(matching@[matching@.len() - 1]@ == t);
                    }
                }
            }
        }
        i = i + 1;
    }
    proof {
        assert(names@.take(names@.len() as int) =~= names@);
    }
    let sorted = sorted_unique(matching);
    let remove = if sorted.len() > retain { sorted.len() - retain } else { 0 };
    let mut out: Vec<String> = Vec::new();
    let mut k: usize = 0;
    while k < remove
        invariant
            remove <= sorted@.len(),
            k <= remove,
            out@ == sorted@.take(k as int),
        decreases remove - k,
    {
        out.push(sorted[k].clone());
        k = k + 1;
        proof {
            assert(out@ =~= sorted@.take(k as int));
        }
    }
    assert(prune_choice(names@, prefix@, retain, sorted@, out@));
    out
}

} // verus!
