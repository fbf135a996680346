//! Name-keyed association tables: lookup finds the first entry with the
//! name, insertion overwrites in place or appends. Used for the template
//! table and for the table of loaded include sources.

use vstd::prelude::*;

verus! {

/// Index of the first entry at or after `from` whose name is `key`, or
/// `t.len()` when no entry matches.
pub open spec fn spec_tbl_key_at<V>(t: Seq<(Seq<char>, V)>, key: Seq<char>, from: int) -> int
    decreases t.len() - from,
{
    if from < 0 || from >= t.len() {
        t.len() as int
    } else if t[from].0 == key {
        from
    } else {
        spec_tbl_key_at(t, key, from + 1)
    }
}

/// Index of the first entry named `key`, or `t.len()` when absent.
pub open spec fn spec_tbl_find<V>(t: Seq<(Seq<char>, V)>, key: Seq<char>) -> int {
    spec_tbl_key_at(t, key, 0)
}

pub open spec fn spec_tbl_contains<V>(t: Seq<(Seq<char>, V)>, key: Seq<char>) -> bool {
    spec_tbl_find(t, key) < t.len()
}

/// The value of the first entry named `key`.
pub open spec fn spec_tbl_lookup<V>(t: Seq<(Seq<char>, V)>, key: Seq<char>) -> V
    recommends
        spec_tbl_contains(t, key),
{
    t[spec_tbl_find(t, key)].1
}

/// Insert-or-overwrite: a present name keeps its position and gets the new
/// value; an absent name is appended at the end.
pub open spec fn spec_tbl_insert<V>(t: Seq<(Seq<char>, V)>, key: Seq<char>, value: V) -> Seq<
    (Seq<char>, V),
> {
    if spec_tbl_contains(t, key) {
        t.update(spec_tbl_find(t, key), (key, value))
    } else {
        t.push((key, value))
    }
}

/// What `spec_tbl_key_at` finds: an in-range result carries the name, and
/// no earlier position at or after `from` does.
pub proof fn lemma_tbl_key_at<V>(t: Seq<(Seq<char>, V)>, key: Seq<char>, from: int)
    requires
        0 <= from <= t.len(),
    ensures
        from <= spec_tbl_key_at(t, key, from) <= t.len(),
        spec_tbl_key_at(t, key, from) < t.len() ==> t[spec_tbl_key_at(t, key, from)].0 == key,
        forall|j: int| from <= j < spec_tbl_key_at(t, key, from) ==> t[j].0 != key,
    decreases t.len() - from,
{
    if from < t.len() && t[from].0 != key {
        lemma_tbl_key_at(t, key, from + 1);
    }
}

} // verus!
