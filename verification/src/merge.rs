//! Merging loaded documents into one mapping: later sources win on
//! duplicate keys, but a duplicate key keeps the position of its first
//! occurrence. Sequences of mappings are flattened depth-first; scalars
//! contribute nothing.

use vstd::prelude::*;

use crate::value::{
    lemma_view_entries, lemma_view_items, mapping_insert, spec_insert, view_entries, view_items,
    view_value, SpecValue, Value,
};

verus! {

broadcast use
    vstd::std_specs::vec::axiom_vec_decreases_to_view,
    vstd::seq::axiom_seq_index_decreases,
    vstd::seq::axiom_seq_subrange_decreases;

/// Insert-or-overwrite every pair of `entries`, in order, into `acc`.
pub open spec fn spec_insert_all(
    acc: Seq<(SpecValue, SpecValue)>,
    entries: Seq<(SpecValue, SpecValue)>,
) -> Seq<(SpecValue, SpecValue)>
    decreases entries.len(),
{
    if entries.len() == 0 {
        acc
    } else {
        spec_insert_all(spec_insert(acc, entries.first().0, entries.first().1), entries.drop_first())
    }
}

/// Merge one loaded document into the accumulator: a mapping contributes
/// its entries in order, a sequence contributes its elements depth-first,
/// anything else contributes nothing.
pub open spec fn spec_concat(acc: Seq<(SpecValue, SpecValue)>, v: SpecValue) -> Seq<
    (SpecValue, SpecValue),
>
    decreases v, 0int,
{
    match v {
        SpecValue::Mapping(entries) => {
            proof {
                assert(decreases_to!(v, 0int => entries));
            }
            spec_insert_all(acc, entries)
        },
        SpecValue::Sequence(items) => {
            proof {
                assert(decreases_to!(v, 0int => items));
            }
            spec_concat_items(acc, items)
        },
        _ => acc,
    }
}

/// Merge a sequence of loaded documents into the accumulator, in order.
pub open spec fn spec_concat_items(
    acc: Seq<(SpecValue, SpecValue)>,
    items: Seq<SpecValue>,
) -> Seq<(SpecValue, SpecValue)>
    decreases items, items.len(),
{
    if items.len() == 0 {
        acc
    } else {
        proof {
            assert(decreases_to!(items => items[0]));
            assert(decreases_to!(items => items.subrange(1, items.len() as int)));
        }
        spec_concat_items(spec_concat(acc, items.first()), items.drop_first())
    }
}

/// Merge the content of `v` into the ordered mapping `hash`: entries of a
/// mapping are assigned in order (later values win, first occurrence keeps
/// the position), sequences are flattened depth-first, scalars are ignored.
#[verifier::loop_isolation(false)]
pub fn concat_hash(hash: &mut Vec<(Value, Value)>, v: &Value)
    ensures
        view_entries(final(hash)@) == spec_concat(view_entries(old(hash)@), v@),
    decreases *v,
{
    match v {
        Value::Mapping(entries) => {
            let ghost src = view_entries(entries@);
            proof {
                lemma_view_entries(entries@);
                assert(src.skip(0) =~= src);
            }
            let mut i: usize = 0;
            while i < entries.len()
                invariant
                    i <= entries.len(),
                    spec_insert_all(view_entries(old(hash)@), src) == spec_insert_all(
                        view_entries(hash@),
                        src.skip(i as int),
                    ),
                decreases entries.len() - i,
            {
                let ghost before = view_entries(hash@);
                let pair = (entries[i].0.clone(), entries[i].1.clone());
                mapping_insert(hash, pair.0, pair.1);
                proof {
                    assert(src.skip(i as int).first() == src[i as int]);
                    assert(src.skip(i as int).drop_first() =~= src.skip(i as int + 1));
                }
                i = i + 1;
            }
            proof {
                assert(src.skip(entries@.len() as int) =~= Seq::<(SpecValue, SpecValue)>::empty());
            }
        },
        Value::Sequence(items) => {
            let ghost src = view_items(items@);
            proof {
                lemma_view_items(items@);
                assert(src.skip(0) =~= src);
            }
            let mut i: usize = 0;
            while i < items.len()
                invariant
                    i <= items.len(),
                    spec_concat_items(view_entries(old(hash)@), src) == spec_concat_items(
                        view_entries(hash@),
                        src.skip(i as int),
                    ),
                decreases items.len() - i,
            {
                proof {
                    assert(decreases_to!(*v => *items));
                    assert(decreases_to!(*items => items@));
                    assert(decreases_to!(items@ => items@[i as int]));
                }
                concat_hash(hash, &items[i]);
                proof {
                    assert(src.skip(i as int).first() == src[i as int]);
                    assert(src.skip(i as int).drop_first() =~= src.skip(i as int + 1));
                }
                i = i + 1;
            }
            proof {
                assert(src.skip(items@.len() as int) =~= Seq::<SpecValue>::empty());
            }
        },
        _ => {
        },
    }
}

} // verus!
