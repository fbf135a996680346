//! Laws of the rewriting stages: a tree without reserved markers passes
//! through both stages unchanged, a resolved tree carries no directive,
//! and an unbound placeholder survives substitution verbatim.

use vstd::prelude::*;

use crate::errors::SpecProcessError;
use crate::generics::{
    lemma_replace_entries, spec_generic_def_name, spec_process_entries, spec_process_generics,
    spec_process_items, spec_replace_entries, spec_replace_entry_value,
};
use crate::table::spec_tbl_contains;
use crate::inclusion::{
    spec_including, spec_including_entries, spec_including_items, SpecSourceFile,
};
use crate::merge::{spec_concat, spec_concat_items, spec_insert_all};
use crate::paths::spec_include_path;
use crate::spec_process;
use crate::table::spec_tbl_lookup;
use crate::value::{lemma_key_at, spec_contains_key, spec_insert, spec_key_at, spec_lookup, SpecValue};

verus! {

broadcast use
    vstd::seq::axiom_seq_index_decreases,
    vstd::seq::axiom_seq_subrange_decreases;

/// A tree with no reserved markers: no mapping holds the `$include` or
/// `$generic` key, and no mapping key defines a template.
pub open spec fn spec_plain(v: SpecValue) -> bool
    decreases v, 0int,
{
    match v {
        SpecValue::Sequence(items) => {
            proof {
                assert(decreases_to!(v, 0int => items));
            }
            spec_plain_items(items)
        },
        SpecValue::Mapping(entries) => {
            proof {
                assert(decreases_to!(v, 0int => entries));
            }
            &&& !spec_contains_key(entries, SpecValue::Text("$include"@))
            &&& !spec_contains_key(entries, SpecValue::Text("$generic"@))
            &&& spec_plain_entries(entries)
        },
        _ => true,
    }
}

pub open spec fn spec_plain_items(items: Seq<SpecValue>) -> bool
    decreases items, items.len(),
{
    if items.len() == 0 {
        true
    } else {
        proof {
            assert(decreases_to!(items => items[0]));
            assert(decreases_to!(items => items.subrange(1, items.len() as int)));
        }
        spec_plain(items.first()) && spec_plain_items(items.drop_first())
    }
}

pub open spec fn spec_plain_entries(entries: Seq<(SpecValue, SpecValue)>) -> bool
    decreases entries, entries.len(),
{
    if entries.len() == 0 {
        true
    } else {
        proof {
            assert(decreases_to!(entries => entries[0]));
            assert(decreases_to!(entries[0] => entries[0].1));
            assert(decreases_to!(entries => entries.subrange(1, entries.len() as int)));
        }
        &&& spec_generic_def_name(entries.first().0) is None
        &&& spec_plain(entries.first().1)
        &&& spec_plain_entries(entries.drop_first())
    }
}

/// The inclusion resolver leaves a plain tree untouched, whatever sources
/// were loaded and whatever fuel it runs with.
pub proof fn lemma_plain_including(
    v: SpecValue,
    base: Seq<char>,
    table: Seq<(Seq<char>, Seq<SpecSourceFile>)>,
    fuel: nat,
)
    requires
        spec_plain(v),
    ensures
        spec_including(v, base, table, fuel) == Ok::<SpecValue, SpecProcessError>(v),
    decreases v, 0int,
{
    match v {
        SpecValue::Sequence(items) => {
            lemma_plain_including_items(items, base, table, fuel);
        },
        SpecValue::Mapping(entries) => {
            lemma_plain_including_entries(entries, base, table, fuel);
        },
        _ => {},
    }
}

proof fn lemma_plain_including_items(
    items: Seq<SpecValue>,
    base: Seq<char>,
    table: Seq<(Seq<char>, Seq<SpecSourceFile>)>,
    fuel: nat,
)
    requires
        spec_plain_items(items),
    ensures
        spec_including_items(items, base, table, fuel) == Ok::<
            Seq<SpecValue>,
            SpecProcessError,
        >(items),
    decreases items, items.len(),
{
    if items.len() > 0 {
        lemma_plain_including(items.first(), base, table, fuel);
        lemma_plain_including_items(items.drop_first(), base, table, fuel);
        assert(seq![items.first()] + items.drop_first() =~= items);
    } else {
        assert(items =~= Seq::<SpecValue>::empty());
    }
}

proof fn lemma_plain_including_entries(
    entries: Seq<(SpecValue, SpecValue)>,
    base: Seq<char>,
    table: Seq<(Seq<char>, Seq<SpecSourceFile>)>,
    fuel: nat,
)
    requires
        spec_plain_entries(entries),
    ensures
        spec_including_entries(entries, base, table, fuel) == Ok::<
            Seq<(SpecValue, SpecValue)>,
            SpecProcessError,
        >(entries),
    decreases entries, entries.len(),
{
    if entries.len() > 0 {
        lemma_plain_including(entries.first().1, base, table, fuel);
        lemma_plain_including_entries(entries.drop_first(), base, table, fuel);
        assert(seq![entries.first()] + entries.drop_first() =~= entries);
    } else {
        assert(entries =~= Seq::<(SpecValue, SpecValue)>::empty());
    }
}

/// The generic instantiator leaves a plain tree untouched, whatever
/// template table it runs against.
pub proof fn lemma_plain_generics(v: SpecValue, generics: Seq<(Seq<char>, SpecValue)>)
    requires
        spec_plain(v),
    ensures
        spec_process_generics(v, generics) == Ok::<SpecValue, SpecProcessError>(v),
    decreases v, 0int,
{
    match v {
        SpecValue::Sequence(items) => {
            lemma_plain_generics_items(items, generics);
        },
        SpecValue::Mapping(entries) => {
            lemma_plain_generics_entries(entries, generics);
        },
        _ => {},
    }
}

proof fn lemma_plain_generics_items(items: Seq<SpecValue>, generics: Seq<(Seq<char>, SpecValue)>)
    requires
        spec_plain_items(items),
    ensures
        spec_process_items(items, generics) == Ok::<Seq<SpecValue>, SpecProcessError>(items),
    decreases items, items.len(),
{
    if items.len() > 0 {
        lemma_plain_generics(items.first(), generics);
        lemma_plain_generics_items(items.drop_first(), generics);
        assert(seq![items.first()] + items.drop_first() =~= items);
    } else {
        assert(items =~= Seq::<SpecValue>::empty());
    }
}

proof fn lemma_plain_generics_entries(
    entries: Seq<(SpecValue, SpecValue)>,
    generics: Seq<(Seq<char>, SpecValue)>,
)
    requires
        spec_plain_entries(entries),
    ensures
        spec_process_entries(entries, generics) == Ok::<
            Seq<(SpecValue, SpecValue)>,
            SpecProcessError,
        >(entries),
    decreases entries, entries.len(),
{
    if entries.len() > 0 {
        lemma_plain_generics(entries.first().1, generics);
        lemma_plain_generics_entries(entries.drop_first(), generics);
        assert(seq![entries.first()] + entries.drop_first() =~= entries);
    } else {
        assert(entries =~= Seq::<(SpecValue, SpecValue)>::empty());
    }
}

/// The whole pipeline leaves a plain tree untouched.
pub proof fn lemma_plain_process(
    v: SpecValue,
    base: Seq<char>,
    table: Seq<(Seq<char>, Seq<SpecSourceFile>)>,
)
    requires
        spec_plain(v),
    ensures
        spec_process(v, base, table) == Ok::<SpecValue, SpecProcessError>(v),
{
    lemma_plain_including(v, base, table, table.len() as nat);
    lemma_plain_generics(v, crate::generics::spec_find_generics(v));
}

/// A fully resolved tree: no mapping in value position holds the
/// `$include` key. Mapping keys are never rewritten by resolution, so the
/// predicate follows value positions only, as the resolver does.
pub open spec fn spec_no_includes(v: SpecValue) -> bool
    decreases v, 0int,
{
    match v {
        SpecValue::Sequence(items) => {
            proof {
                assert(decreases_to!(v, 0int => items));
            }
            spec_no_includes_items(items)
        },
        SpecValue::Mapping(entries) => {
            proof {
                assert(decreases_to!(v, 0int => entries));
            }
            &&& !spec_contains_key(entries, SpecValue::Text("$include"@))
            &&& spec_no_includes_entries(entries)
        },
        _ => true,
    }
}

pub open spec fn spec_no_includes_items(items: Seq<SpecValue>) -> bool
    decreases items, items.len(),
{
    if items.len() == 0 {
        true
    } else {
        proof {
            assert(decreases_to!(items => items[0]));
            assert(decreases_to!(items => items.subrange(1, items.len() as int)));
        }
        spec_no_includes(items.first()) && spec_no_includes_items(items.drop_first())
    }
}

pub open spec fn spec_no_includes_entries(entries: Seq<(SpecValue, SpecValue)>) -> bool
    decreases entries, entries.len(),
{
    if entries.len() == 0 {
        true
    } else {
        proof {
            assert(decreases_to!(entries => entries[0]));
            assert(decreases_to!(entries[0] => entries[0].1));
            assert(decreases_to!(entries => entries.subrange(1, entries.len() as int)));
        }
        spec_no_includes(entries.first().1) && spec_no_includes_entries(entries.drop_first())
    }
}

proof fn lemma_no_includes_entries_iff(entries: Seq<(SpecValue, SpecValue)>)
    ensures
        spec_no_includes_entries(entries) <==> (forall|i: int|
            0 <= i < entries.len() ==> spec_no_includes(#[trigger] entries[i].1)),
    decreases entries.len(),
{
    if entries.len() > 0 {
        lemma_no_includes_entries_iff(entries.drop_first());
        assert forall|j: int| 0 <= j < entries.drop_first().len() implies entries.drop_first()[j]
            == entries[j + 1] by {}
        if spec_no_includes_entries(entries) {
            assert forall|i: int| 0 <= i < entries.len() implies spec_no_includes(
                #[trigger] entries[i].1,
            ) by {
                if i == 0 {
                    assert(entries[0] == entries.first());
                } else {
                    assert(entries.drop_first()[i - 1] == entries[i]);
                }
            }
        }
        if forall|i: int| 0 <= i < entries.len() ==> spec_no_includes(#[trigger] entries[i].1) {
            assert(spec_no_includes(entries.first().1));
            assert(spec_no_includes_entries(entries.drop_first()));
        }
    }
}

proof fn lemma_no_includes_items_iff(items: Seq<SpecValue>)
    ensures
        spec_no_includes_items(items) <==> (forall|i: int|
            0 <= i < items.len() ==> spec_no_includes(#[trigger] items[i])),
    decreases items.len(),
{
    if items.len() > 0 {
        lemma_no_includes_items_iff(items.drop_first());
        assert forall|j: int| 0 <= j < items.drop_first().len() implies items.drop_first()[j]
            == items[j + 1] by {}
        if spec_no_includes_items(items) {
            assert forall|i: int| 0 <= i < items.len() implies spec_no_includes(
                #[trigger] items[i],
            ) by {
                if i == 0 {
                    assert(items[0] == items.first());
                } else {
                    assert(items.drop_first()[i - 1] == items[i]);
                }
            }
        }
        if forall|i: int| 0 <= i < items.len() ==> spec_no_includes(#[trigger] items[i]) {
            assert(spec_no_includes(items.first()));
            assert(spec_no_includes_items(items.drop_first()));
        }
    }
}

/// Keys and values stay directive-free across an insert-or-overwrite.
proof fn lemma_insert_no_includes(
    acc: Seq<(SpecValue, SpecValue)>,
    k: SpecValue,
    val: SpecValue,
)
    requires
        !spec_contains_key(acc, SpecValue::Text("$include"@)),
        spec_no_includes_entries(acc),
        k != SpecValue::Text("$include"@),
        spec_no_includes(val),
    ensures
        !spec_contains_key(spec_insert(acc, k, val), SpecValue::Text("$include"@)),
        spec_no_includes_entries(spec_insert(acc, k, val)),
{
    let inc = SpecValue::Text("$include"@);
    let r = spec_insert(acc, k, val);
    lemma_key_at(acc, inc, 0);
    lemma_key_at(acc, k, 0);
    lemma_no_includes_entries_iff(acc);
    assert(forall|j: int| 0 <= j < acc.len() ==> (#[trigger] acc[j]).0 != inc);
    assert(forall|j: int| 0 <= j < r.len() ==> (#[trigger] r[j]).0 != inc);
    lemma_key_at(r, inc, 0);
    assert(!spec_contains_key(r, inc));
    lemma_no_includes_entries_iff(r);
}

/// Merging a directive-free document into a directive-free accumulator
/// keeps the accumulator directive-free.
proof fn lemma_insert_all_no_includes(
    acc: Seq<(SpecValue, SpecValue)>,
    entries: Seq<(SpecValue, SpecValue)>,
)
    requires
        !spec_contains_key(acc, SpecValue::Text("$include"@)),
        spec_no_includes_entries(acc),
        forall|j: int| 0 <= j < entries.len() ==> (#[trigger] entries[j]).0 != SpecValue::Text(
            "$include"@,
        ),
        forall|j: int| 0 <= j < entries.len() ==> spec_no_includes(#[trigger] entries[j].1),
    ensures
        !spec_contains_key(spec_insert_all(acc, entries), SpecValue::Text("$include"@)),
        spec_no_includes_entries(spec_insert_all(acc, entries)),
    decreases entries.len(),
{
    if entries.len() > 0 {
        lemma_insert_no_includes(acc, entries.first().0, entries.first().1);
        assert forall|j: int| 0 <= j < entries.drop_first().len() implies entries.drop_first()[j]
            == entries[j + 1] by {}
        lemma_insert_all_no_includes(
            spec_insert(acc, entries.first().0, entries.first().1),
            entries.drop_first(),
        );
    }
}

proof fn lemma_concat_no_includes(acc: Seq<(SpecValue, SpecValue)>, v: SpecValue)
    requires
        !spec_contains_key(acc, SpecValue::Text("$include"@)),
        spec_no_includes_entries(acc),
        spec_no_includes(v),
    ensures
        !spec_contains_key(spec_concat(acc, v), SpecValue::Text("$include"@)),
        spec_no_includes_entries(spec_concat(acc, v)),
    decreases v, 0int,
{
    match v {
        SpecValue::Mapping(es) => {
            lemma_key_at(es, SpecValue::Text("$include"@), 0);
            lemma_no_includes_entries_iff(es);
            lemma_insert_all_no_includes(acc, es);
        },
        SpecValue::Sequence(items) => {
            lemma_concat_items_no_includes(acc, items);
        },
        _ => {},
    }
}

proof fn lemma_concat_items_no_includes(acc: Seq<(SpecValue, SpecValue)>, items: Seq<SpecValue>)
    requires
        !spec_contains_key(acc, SpecValue::Text("$include"@)),
        spec_no_includes_entries(acc),
        spec_no_includes_items(items),
    ensures
        !spec_contains_key(spec_concat_items(acc, items), SpecValue::Text("$include"@)),
        spec_no_includes_entries(spec_concat_items(acc, items)),
    decreases items, items.len(),
{
    if items.len() > 0 {
        lemma_concat_no_includes(acc, items.first());
        lemma_concat_items_no_includes(spec_concat(acc, items.first()), items.drop_first());
    }
}

/// A successful resolution yields a tree with no directive left: every
/// `$include` mapping was replaced, and what replaced it was fully
/// resolved first.
pub proof fn lemma_including_no_includes(
    v: SpecValue,
    base: Seq<char>,
    table: Seq<(Seq<char>, Seq<crate::inclusion::SpecSourceFile>)>,
    fuel: nat,
)
    ensures
        spec_including(v, base, table, fuel) matches Ok(r) ==> spec_no_includes(r),
    decreases fuel, v, 0int,
{
    match v {
        SpecValue::Sequence(items) => {
            lemma_including_items_no_includes(items, base, table, fuel);
        },
        SpecValue::Mapping(entries) => {
            let inc = SpecValue::Text("$include"@);
            if spec_contains_key(entries, inc) {
                match spec_lookup(entries, inc) {
                    SpecValue::Text(target) => {
                        let full = spec_include_path(base, target);
                        if spec_tbl_contains(table, full) && fuel > 0 {
                            assert(spec_key_at(
                                Seq::<(SpecValue, SpecValue)>::empty(),
                                inc,
                                0,
                            ) == 0);
                            lemma_resolve_files_no_includes(
                                spec_tbl_lookup(table, full),
                                table,
                                (fuel - 1) as nat,
                                Seq::empty(),
                            );
                        }
                    },
                    _ => {},
                }
            } else {
                lemma_including_entries_no_includes(entries, base, table, fuel);
                match spec_including_entries(entries, base, table, fuel) {
                    Ok(es) => {
                        lemma_key_at(entries, inc, 0);
                        assert(forall|j: int|
                            0 <= j < es.len() ==> (#[trigger] es[j]).0 != inc);
                        lemma_key_at(es, inc, 0);
                        lemma_no_includes_entries_iff(es);
                    },
                    Err(_) => {},
                }
            }
        },
        _ => {},
    }
}

proof fn lemma_including_items_no_includes(
    items: Seq<SpecValue>,
    base: Seq<char>,
    table: Seq<(Seq<char>, Seq<crate::inclusion::SpecSourceFile>)>,
    fuel: nat,
)
    ensures
        spec_including_items(items, base, table, fuel) matches Ok(s) ==> (s.len() == items.len()
            && spec_no_includes_items(s)),
    decreases fuel, items, items.len(),
{
    if items.len() > 0 {
        lemma_including_no_includes(items.first(), base, table, fuel);
        lemma_including_items_no_includes(items.drop_first(), base, table, fuel);
        match spec_including(items.first(), base, table, fuel) {
            Ok(h) => {
                match spec_including_items(items.drop_first(), base, table, fuel) {
                    Ok(t) => {
                        let s = seq![h] + t;
                        assert(s.first() == h);
                        assert(s.drop_first() =~= t);
                    },
                    Err(_) => {},
                }
            },
            Err(_) => {},
        }
    }
}

proof fn lemma_including_entries_no_includes(
    entries: Seq<(SpecValue, SpecValue)>,
    base: Seq<char>,
    table: Seq<(Seq<char>, Seq<crate::inclusion::SpecSourceFile>)>,
    fuel: nat,
)
    ensures
        spec_including_entries(entries, base, table, fuel) matches Ok(es) ==> (es.len()
            == entries.len() && (forall|i: int|
            0 <= i < es.len() ==> (#[trigger] es[i]).0 == entries[i].0) && (forall|i: int|
            0 <= i < es.len() ==> spec_no_includes(#[trigger] es[i].1))),
    decreases fuel, entries, entries.len(),
{
    if entries.len() > 0 {
        lemma_including_no_includes(entries.first().1, base, table, fuel);
        lemma_including_entries_no_includes(entries.drop_first(), base, table, fuel);
        match spec_including(entries.first().1, base, table, fuel) {
            Ok(nv) => {
                match spec_including_entries(entries.drop_first(), base, table, fuel) {
                    Ok(t) => {
                        let es = seq![(entries.first().0, nv)] + t;
                        assert forall|i: int| 0 <= i < es.len() implies (#[trigger] es[i]).0
                            == entries[i].0 && spec_no_includes(es[i].1) by {
                            if i > 0 {
                                assert(es[i] == t[i - 1]);
                                assert(entries.drop_first()[i - 1] == entries[i]);
                            }
                        }
                    },
                    Err(_) => {},
                }
            },
            Err(_) => {},
        }
    }
}

proof fn lemma_resolve_files_no_includes(
    files: Seq<crate::inclusion::SpecSourceFile>,
    table: Seq<(Seq<char>, Seq<crate::inclusion::SpecSourceFile>)>,
    fuel: nat,
    acc: Seq<(SpecValue, SpecValue)>,
)
    requires
        !spec_contains_key(acc, SpecValue::Text("$include"@)),
        spec_no_includes_entries(acc),
    ensures
        crate::inclusion::spec_resolve_files(files, table, fuel, acc) matches Ok(m) ==> (
        !spec_contains_key(m, SpecValue::Text("$include"@)) && spec_no_includes_entries(m)),
    decreases fuel, files, files.len(),
{
    if files.len() > 0 {
        let f = files.first();
        lemma_including_no_includes(f.1, f.0, table, fuel);
        match spec_including(f.1, f.0, table, fuel) {
            Ok(r) => {
                lemma_concat_no_includes(acc, r);
                lemma_resolve_files_no_includes(
                    files.drop_first(),
                    table,
                    fuel,
                    spec_concat(acc, r),
                );
            },
            Err(_) => {},
        }
    }
}

/// A template body value that is a text naming no binding is preserved
/// verbatim by substitution: the entry keeps its key and its value.
pub proof fn lemma_replace_unbound(
    entries: Seq<(SpecValue, SpecValue)>,
    bindings: Seq<(Seq<char>, SpecValue)>,
    i: int,
    s: Seq<char>,
)
    requires
        0 <= i < entries.len(),
        entries[i].1 == SpecValue::Text(s),
        !spec_tbl_contains(bindings, s),
    ensures
        spec_replace_entries(entries, bindings)[i] == entries[i],
{
    lemma_replace_entries(entries, bindings);
    assert(spec_replace_entry_value(entries[i].1, bindings) == entries[i].1);
}

} // verus!
