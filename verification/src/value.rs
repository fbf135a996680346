//! The document value model: a recursive tree of scalars, ordered
//! sequences, and ordered mappings (insertion order preserved).

use vstd::prelude::*;

verus! {

broadcast use
    vstd::std_specs::vec::axiom_vec_decreases_to_view,
    vstd::seq::axiom_seq_index_decreases,
    vstd::seq::axiom_seq_subrange_decreases;

/// Mathematical model of a document tree. Mappings are ordered lists of
/// key/value pairs; insertion order is significant for merging and output.
#[verifier::ext_equal]
pub enum SpecValue {
    Null,
    Bool(bool),
    Int(i64),
    /// A real number kept as its textual form from the document.
    Real(Seq<char>),
    Text(Seq<char>),
    Sequence(Seq<SpecValue>),
    Mapping(Seq<(SpecValue, SpecValue)>),
}

/// A document tree as held at run time. `Real` keeps the textual form of
/// the number exactly as the document carries it.
pub enum Value {
    Null,
    Bool(bool),
    Int(i64),
    Real(String),
    Text(String),
    Sequence(Vec<Value>),
    Mapping(Vec<(Value, Value)>),
}

/// The model of a run-time tree: scalars keep their payloads (strings as
/// sequences of characters), containers keep the models of their children.
pub open spec fn view_value(v: Value) -> SpecValue
    decreases v, 0int,
{
    match v {
        Value::Null => SpecValue::Null,
        Value::Bool(b) => SpecValue::Bool(b),
        Value::Int(i) => SpecValue::Int(i),
        Value::Real(s) => SpecValue::Real(s@),
        Value::Text(s) => SpecValue::Text(s@),
        Value::Sequence(items) => {
            proof {
                assert(decreases_to!(v, 0int => items));
                assert(decreases_to!(items => items@));
            }
            SpecValue::Sequence(view_items(items@))
        },
        Value::Mapping(entries) => {
            proof {
                assert(decreases_to!(v, 0int => entries));
                assert(decreases_to!(entries => entries@));
            }
            SpecValue::Mapping(view_entries(entries@))
        },
    }
}

/// Models of the elements of a sequence node, in order.
pub open spec fn view_items(items: Seq<Value>) -> Seq<SpecValue>
    decreases items, items.len(),
{
    if items.len() == 0 {
        Seq::empty()
    } else {
        proof {
            assert(decreases_to!(items => items.subrange(0, items.len() - 1)));
            assert(decreases_to!(items => items[items.len() - 1]));
        }
        view_items(items.drop_last()).push(view_value(items.last()))
    }
}

/// Models of the key/value pairs of a mapping node, in order.
pub open spec fn view_entries(entries: Seq<(Value, Value)>) -> Seq<(SpecValue, SpecValue)>
    decreases entries, entries.len(),
{
    if entries.len() == 0 {
        Seq::empty()
    } else {
        proof {
            assert(decreases_to!(entries => entries.subrange(0, entries.len() - 1)));
            assert(decreases_to!(entries => entries[entries.len() - 1]));
        }
        view_entries(entries.drop_last()).push(
            (view_value(entries.last().0), view_value(entries.last().1)),
        )
    }
}

impl View for Value {
    type V = SpecValue;

    open spec fn view(&self) -> SpecValue {
        view_value(*self)
    }
}

/// The model of a sequence node has one element per child, each the model
/// of that child.
pub proof fn lemma_view_items(items: Seq<Value>)
    ensures
        view_items(items).len() == items.len(),
        forall|i: int| 0 <= i < items.len() ==> view_items(items)[i] == view_value(items[i]),
    decreases items.len(),
{
    if items.len() > 0 {
        lemma_view_items(items.drop_last());
    }
}

/// The model of a mapping node has one pair per entry, each the models of
/// that entry's key and value.
pub proof fn lemma_view_entries(entries: Seq<(Value, Value)>)
    ensures
        view_entries(entries).len() == entries.len(),
        forall|i: int|
            0 <= i < entries.len() ==> view_entries(entries)[i] == (
            view_value(entries[i].0),
            view_value(entries[i].1),
            ),
    decreases entries.len(),
{
    if entries.len() > 0 {
        lemma_view_entries(entries.drop_last());
    }
}

impl Clone for Value {
    /// A clone models the same tree as the value it was made from.
    #[verifier::loop_isolation(false)]
    fn clone(&self) -> (r: Value)
        ensures
            r@ == self@,
        decreases *self,
    {
        match self {
            Value::Null => Value::Null,
            Value::Bool(b) => Value::Bool(*b),
            Value::Int(i) => Value::Int(*i),
            Value::Real(s) => Value::Real(s.clone()),
            Value::Text(s) => Value::Text(s.clone()),
            Value::Sequence(items) => {
                let mut out: Vec<Value> = Vec::new();
                let mut i: usize = 0;
                while i < items.len()
                    invariant
                        i <= items.len(),
                        out@.len() == i,
                        forall|j: int| 0 <= j < i ==> view_value(out@[j]) == view_value(items@[j]),
                    decreases items.len() - i,
                {
                    proof {
                        assert(decreases_to!(*self => *items));
                        assert(decreases_to!(*items => items@));
                        assert(decreases_to!(items@ => items@[i as int]));
                    }
                    out.push(items[i].clone());
                    i = i + 1;
                }
                proof {
                    lemma_view_items(out@);
                    lemma_view_items(items@);
                    assert(view_items(out@) =~= view_items(items@));
                }
                Value::Sequence(out)
            },
            Value::Mapping(entries) => {
                let mut out: Vec<(Value, Value)> = Vec::new();
                let mut i: usize = 0;
                while i < entries.len()
                    invariant
                        i <= entries.len(),
                        out@.len() == i,
                        forall|j: int|
                            0 <= j < i ==> view_value(out@[j].0) == view_value(entries@[j].0)
                                && view_value(out@[j].1) == view_value(entries@[j].1),
                    decreases entries.len() - i,
                {
                    proof {
                        assert(decreases_to!(*self => *entries));
                        assert(decreases_to!(*entries => entries@));
                        assert(decreases_to!(entries@ => entries@[i as int]));
                    }
                    let pair = (entries[i].0.clone(), entries[i].1.clone());
                    out.push(pair);
                    i = i + 1;
                }
                proof {
                    lemma_view_entries(out@);
                    lemma_view_entries(entries@);
                    assert(view_entries(out@) =~= view_entries(entries@));
                }
                Value::Mapping(out)
            },
        }
    }
}

/// Structural equality of two trees: equal exactly when their models are.
#[verifier::loop_isolation(false)]
pub fn value_eq(a: &Value, b: &Value) -> (r: bool)
    ensures
        r == (a@ == b@),
    decreases *a,
{
    match (a, b) {
        (Value::Null, Value::Null) => true,
        (Value::Bool(x), Value::Bool(y)) => x == y,
        (Value::Int(x), Value::Int(y)) => x == y,
        (Value::Real(x), Value::Real(y)) => x.eq(y),
        (Value::Text(x), Value::Text(y)) => x.eq(y),
        (Value::Sequence(x), Value::Sequence(y)) => {
            proof {
                lemma_view_items(x@);
                lemma_view_items(y@);
            }
            if x.len() != y.len() {
                return false;
            }
            let mut i: usize = 0;
            while i < x.len()
                invariant
                    i <= x.len(),
                    forall|j: int| 0 <= j < i ==> view_value(x@[j]) == view_value(y@[j]),
                decreases x.len() - i,
            {
                proof {
                    assert(decreases_to!(*a => *x));
                    assert(decreases_to!(*x => x@));
                    assert(decreases_to!(x@ => x@[i as int]));
                }
                if !value_eq(&x[i], &y[i]) {
                    proof {
                        assert(view_items(x@)[i as int] != view_items(y@)[i as int]);
                    }
                    return false;
                }
                i = i + 1;
            }
            proof {
                assert(view_items(x@) =~= view_items(y@));
            }
            true
        },
        (Value::Mapping(x), Value::Mapping(y)) => {
            proof {
                lemma_view_entries(x@);
                lemma_view_entries(y@);
            }
            if x.len() != y.len() {
                return false;
            }
            let mut i: usize = 0;
            while i < x.len()
                invariant
                    i <= x.len(),
                    forall|j: int|
                        0 <= j < i ==> view_value(x@[j].0) == view_value(y@[j].0) && view_value(
                            x@[j].1,
                        ) == view_value(y@[j].1),
                decreases x.len() - i,
            {
                proof {
                    assert(decreases_to!(*a => *x));
                    assert(decreases_to!(*x => x@));
                    assert(decreases_to!(x@ => x@[i as int]));
                }
                if !value_eq(&x[i].0, &y[i].0) || !value_eq(&x[i].1, &y[i].1) {
                    proof {
                        assert(view_entries(x@)[i as int] != view_entries(y@)[i as int]);
                    }
                    return false;
                }
                i = i + 1;
            }
            proof {
                assert(view_entries(x@) =~= view_entries(y@));
            }
            true
        },
        _ => {
            proof {
                assert(a@ != b@);
            }
            false
        },
    }
}

/// Index of the first entry at or after `from` whose key is `key`, or
/// `entries.len()` when no such entry exists.
pub open spec fn spec_key_at(
    entries: Seq<(SpecValue, SpecValue)>,
    key: SpecValue,
    from: int,
) -> int
    decreases entries.len() - from,
{
    if from < 0 || from >= entries.len() {
        entries.len() as int
    } else if entries[from].0 == key {
        from
    } else {
        spec_key_at(entries, key, from + 1)
    }
}

/// Index of the first entry with key `key`, or `entries.len()` when absent.
pub open spec fn spec_find(entries: Seq<(SpecValue, SpecValue)>, key: SpecValue) -> int {
    spec_key_at(entries, key, 0)
}

pub open spec fn spec_contains_key(entries: Seq<(SpecValue, SpecValue)>, key: SpecValue) -> bool {
    spec_find(entries, key) < entries.len()
}

/// The value of the first entry with key `key`.
pub open spec fn spec_lookup(entries: Seq<(SpecValue, SpecValue)>, key: SpecValue) -> SpecValue
    recommends
        spec_contains_key(entries, key),
{
    entries[spec_find(entries, key)].1
}

/// Insert-or-overwrite: a present key keeps its position (first occurrence)
/// and gets the new value; an absent key is appended at the end.
pub open spec fn spec_insert(
    entries: Seq<(SpecValue, SpecValue)>,
    key: SpecValue,
    value: SpecValue,
) -> Seq<(SpecValue, SpecValue)> {
    if spec_contains_key(entries, key) {
        entries.update(spec_find(entries, key), (key, value))
    } else {
        entries.push((key, value))
    }
}

/// What `spec_key_at` finds: an in-range result carries the key, and no
/// earlier position at or after `from` does.
pub proof fn lemma_key_at(entries: Seq<(SpecValue, SpecValue)>, key: SpecValue, from: int)
    requires
        0 <= from <= entries.len(),
    ensures
        from <= spec_key_at(entries, key, from) <= entries.len(),
        spec_key_at(entries, key, from) < entries.len() ==> entries[spec_key_at(
            entries,
            key,
            from,
        )].0 == key,
        forall|j: int| from <= j < spec_key_at(entries, key, from) ==> entries[j].0 != key,
    decreases entries.len() - from,
{
    if from < entries.len() && entries[from].0 != key {
        lemma_key_at(entries, key, from + 1);
    }
}

/// Index of the first entry of `entries` whose key equals `key`, or the
/// number of entries when no key matches.
#[verifier::loop_isolation(false)]
pub fn mapping_find(entries: &Vec<(Value, Value)>, key: &Value) -> (r: usize)
    ensures
        r == spec_find(view_entries(entries@), key@),
{
    proof {
        lemma_view_entries(entries@);
    }
    let ghost model = view_entries(entries@);
    let mut i: usize = 0;
    while i < entries.len()
        invariant
            i <= entries.len(),
            spec_key_at(model, key@, 0) == spec_key_at(model, key@, i as int),
            forall|j: int| 0 <= j < i ==> model[j].0 != key@,
        decreases entries.len() - i,
    {
        if value_eq(&entries[i].0, key) {
            return i;
        }
        i = i + 1;
    }
    entries.len()
}

pub fn mapping_contains_key(entries: &Vec<(Value, Value)>, key: &Value) -> (r: bool)
    ensures
        r == spec_contains_key(view_entries(entries@), key@),
{
    proof {
        lemma_view_entries(entries@);
    }
    mapping_find(entries, key) < entries.len()
}

/// The value of the first entry whose key equals `key`, if any.
pub fn mapping_get<'a>(entries: &'a Vec<(Value, Value)>, key: &Value) -> (r: Option<&'a Value>)
    ensures
        spec_contains_key(view_entries(entries@), key@) ==> (r matches Some(v) && v@ == spec_lookup(
            view_entries(entries@),
            key@,
        )),
        !spec_contains_key(view_entries(entries@), key@) ==> r is None,
{
    proof {
        lemma_view_entries(entries@);
    }
    let i = mapping_find(entries, key);
    if i < entries.len() {
        Some(&entries[i].1)
    } else {
        None
    }
}

/// Insert-or-overwrite into an ordered mapping: a present key keeps its
/// position and gets the new value, an absent key is appended.
pub fn mapping_insert(entries: &mut Vec<(Value, Value)>, key: Value, value: Value)
    ensures
        view_entries(final(entries)@) == spec_insert(view_entries(old(entries)@), key@, value@),
{
    proof {
        lemma_view_entries(entries@);
    }
    let i = mapping_find(entries, &key);
    if i < entries.len() {
        entries[i] = (key, value);
    } else {
        entries.push((key, value));
    }
    proof {
        lemma_view_entries(entries@);
        assert(view_entries(entries@) =~= spec_insert(
            view_entries(old(entries)@),
            key@,
            value@,
        ));
    }
}

} // verus!
