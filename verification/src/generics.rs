//! Generic templates: definitions are mapping entries whose key ends in
//! the reserved `<GENERIC>` suffix; invocations are mappings holding the
//! reserved `$generic` key. Definitions are collected into a flat
//! name-to-body table; invocations are replaced by the named body with its
//! bound placeholder strings substituted.

use vstd::prelude::*;

use crate::errors::{spec_result_matches, ProcessError, SpecProcessError};
use crate::table::{
    spec_tbl_contains, spec_tbl_find, spec_tbl_insert, spec_tbl_key_at, spec_tbl_lookup,
};
use crate::value::{
    lemma_view_entries, lemma_view_items, mapping_contains_key, mapping_get, spec_contains_key,
    spec_lookup, view_entries, view_items, view_value, SpecValue, Value,
};

verus! {

broadcast use
    vstd::std_specs::vec::axiom_vec_decreases_to_view,
    vstd::seq::axiom_seq_index_decreases,
    vstd::seq::axiom_seq_subrange_decreases;

/// The decimal digit characters.
pub open spec fn digit_char(d: int) -> char {
    if d == 0 {
        '0'
    } else if d == 1 {
        '1'
    } else if d == 2 {
        '2'
    } else if d == 3 {
        '3'
    } else if d == 4 {
        '4'
    } else if d == 5 {
        '5'
    } else if d == 6 {
        '6'
    } else if d == 7 {
        '7'
    } else if d == 8 {
        '8'
    } else {
        '9'
    }
}

/// Decimal digits of a non-negative number, most significant first.
pub open spec fn spec_nat_string(n: int) -> Seq<char>
    decreases n,
{
    if n < 10 {
        seq![digit_char(n)]
    } else {
        spec_nat_string(n / 10).push(digit_char(n % 10))
    }
}

/// Decimal rendering of an integer, with a leading minus sign when
/// negative.
pub open spec fn spec_int_string(i: int) -> Seq<char> {
    if i < 0 {
        seq!['-'] + spec_nat_string(-i)
    } else {
        spec_nat_string(i)
    }
}

/// The string a document node is read as when it stands where a name is
/// expected: texts and reals give their own text, integers and booleans
/// their usual rendering, and containers and null a fixed kind word.
pub open spec fn spec_yaml_to_string(v: SpecValue) -> Seq<char> {
    match v {
        SpecValue::Null => "Null"@,
        SpecValue::Bool(b) => if b {
            "true"@
        } else {
            "false"@
        },
        SpecValue::Int(i) => spec_int_string(i as int),
        SpecValue::Real(s) => s,
        SpecValue::Text(s) => s,
        SpecValue::Sequence(_) => "Array"@,
        SpecValue::Mapping(_) => "Object"@,
    }
}

/// The one-character string for a decimal digit.
fn digit_str(d: u64) -> (r: &'static str)
    requires
        d < 10,
    ensures
        r@ == seq![digit_char(d as int)],
{
    proof {
        reveal_strlit("0");
        reveal_strlit("1");
        reveal_strlit("2");
        reveal_strlit("3");
        reveal_strlit("4");
        reveal_strlit("5");
        reveal_strlit("6");
        reveal_strlit("7");
        reveal_strlit("8");
        reveal_strlit("9");
    }
    let r = if d == 0 {
        "0"
    } else if d == 1 {
        "1"
    } else if d == 2 {
        "2"
    } else if d == 3 {
        "3"
    } else if d == 4 {
        "4"
    } else if d == 5 {
        "5"
    } else if d == 6 {
        "6"
    } else if d == 7 {
        "7"
    } else if d == 8 {
        "8"
    } else {
        "9"
    };
    proof {
        assert(r@ =~= seq![digit_char(d as int)]);
    }
    r
}

/// Append the decimal digits of `n` to `out`, most significant first.
fn push_digits(out: &mut String, n: u64)
    ensures
        final(out)@ == old(out)@ + spec_nat_string(n as int),
    decreases n,
{
    if n >= 10 {
        push_digits(out, n / 10);
    }
    out.append(digit_str(n % 10));
    proof {
        assert(final(out)@ =~= old(out)@ + spec_nat_string(n as int));
    }
}

/// Decimal rendering of a signed number.
pub fn int_to_string(i: i64) -> (r: String)
    ensures
        r@ == spec_int_string(i as int),
{
    let mut out = String::new();
    let mag: u64;
    if i < 0 {
        out.append("-");
        mag = ((-(i + 1)) as u64) + 1;
        proof {
            reveal_strlit("-");
            assert(("-")@ =~= seq!['-']);
            assert(mag as int == -(i as int));
        }
    } else {
        mag = i as u64;
    }
    push_digits(&mut out, mag);
    proof {
        assert(out@ =~= spec_int_string(i as int));
    }
    out
}

/// The string a node is read as where a name is expected.
pub fn yaml_to_string(v: &Value) -> (r: String)
    ensures
        r@ == spec_yaml_to_string(v@),
{
    match v {
        Value::Null => "Null".to_owned(),
        Value::Bool(b) => if *b {
            "true".to_owned()
        } else {
            "false".to_owned()
        },
        Value::Int(i) => int_to_string(*i),
        Value::Real(s) => s.clone(),
        Value::Text(s) => s.clone(),
        Value::Sequence(_) => "Array".to_owned(),
        Value::Mapping(_) => "Object".to_owned(),
    }
}

/// Model of a name-keyed table of document values.
pub open spec fn view_tbl(t: Seq<(String, Value)>) -> Seq<(Seq<char>, SpecValue)>
    decreases t.len(),
{
    if t.len() == 0 {
        Seq::empty()
    } else {
        view_tbl(t.drop_last()).push((t.last().0@, view_value(t.last().1)))
    }
}

/// The model of a table has one pair per entry: the name's characters and
/// the value's model.
pub proof fn lemma_view_tbl(t: Seq<(String, Value)>)
    ensures
        view_tbl(t).len() == t.len(),
        forall|i: int| 0 <= i < t.len() ==> view_tbl(t)[i] == (t[i].0@, view_value(t[i].1)),
    decreases t.len(),
{
    if t.len() > 0 {
        lemma_view_tbl(t.drop_last());
    }
}

/// Index of the first table entry named `key`, or the table's length when
/// no entry matches.
#[verifier::loop_isolation(false)]
pub fn tbl_find(t: &Vec<(String, Value)>, key: &str) -> (r: usize)
    ensures
        r == spec_tbl_find(view_tbl(t@), key@),
{
    proof {
        lemma_view_tbl(t@);
    }
    let ghost model = view_tbl(t@);
    let mut i: usize = 0;
    while i < t.len()
        invariant
            i <= t.len(),
            spec_tbl_key_at(model, key@, 0) == spec_tbl_key_at(model, key@, i as int),
            forall|j: int| 0 <= j < i ==> model[j].0 != key@,
        decreases t.len() - i,
    {
        if str_eq(t[i].0.as_str(), key) {
            return i;
        }
        i = i + 1;
    }
    t.len()
}

pub fn tbl_contains(t: &Vec<(String, Value)>, key: &str) -> (r: bool)
    ensures
        r == spec_tbl_contains(view_tbl(t@), key@),
{
    proof {
        lemma_view_tbl(t@);
    }
    tbl_find(t, key) < t.len()
}

/// The value of the first table entry named `key`, if any.
pub fn tbl_get<'a>(t: &'a Vec<(String, Value)>, key: &str) -> (r: Option<&'a Value>)
    ensures
        spec_tbl_contains(view_tbl(t@), key@) ==> (r matches Some(v) && v@ == spec_tbl_lookup(
            view_tbl(t@),
            key@,
        )),
        !spec_tbl_contains(view_tbl(t@), key@) ==> r is None,
{
    proof {
        lemma_view_tbl(t@);
    }
    let i = tbl_find(t, key);
    if i < t.len() {
        Some(&t[i].1)
    } else {
        None
    }
}

/// Insert-or-overwrite into a name-keyed table: a present name keeps its
/// position and gets the new value, an absent name is appended.
pub fn tbl_insert(t: &mut Vec<(String, Value)>, key: String, value: Value)
    ensures
        view_tbl(final(t)@) == spec_tbl_insert(view_tbl(old(t)@), key@, value@),
{
    proof {
        lemma_view_tbl(t@);
    }
    let i = tbl_find(t, key.as_str());
    if i < t.len() {
        t[i] = (key, value);
    } else {
        t.push((key, value));
    }
    proof {
        lemma_view_tbl(t@);
        assert(view_tbl(t@) =~= spec_tbl_insert(view_tbl(old(t)@), key@, value@));
    }
}

/// The template name defined by a mapping key: a text key ending in the
/// reserved suffix defines the key with exactly the suffix's characters
/// stripped; any other key defines nothing.
pub open spec fn spec_generic_def_name(k: SpecValue) -> Option<Seq<char>> {
    match k {
        SpecValue::Text(s) => {
            if s.len() >= 9 && s.subrange(s.len() - 9, s.len() as int) == "<GENERIC>"@ {
                Some(s.subrange(0, s.len() - 9))
            } else {
                None
            }
        },
        _ => None,
    }
}

/// The template name a mapping key defines, if any.
pub fn generic_def_name(key: &Value) -> (r: Option<String>)
    ensures
        match spec_generic_def_name(key@) {
            Some(name) => r matches Some(n) && n@ == name,
            None => r is None,
        },
{
    match key {
        Value::Text(s) => {
            let n = s.as_str().unicode_len();
            if n >= 9 {
                let suffix = s.as_str().substring_char(n - 9, n);
                if str_eq(suffix, "<GENERIC>") {
                    return Some(s.as_str().substring_char(0, n - 9).to_owned());
                }
            }
            None
        },
        _ => None,
    }
}

/// Character-wise string equality: true exactly when the views are equal.
#[verifier::loop_isolation(false)]
pub fn str_eq(a: &str, b: &str) -> (r: bool)
    ensures
        r == (a@ == b@),
{
    let la = a.unicode_len();
    let lb = b.unicode_len();
    if la != lb {
        return false;
    }
    let mut i: usize = 0;
    while i < la
        invariant
            i <= la,
            forall|j: int| 0 <= j < i ==> a@[j] == b@[j],
        decreases la - i,
    {
        if a.get_char(i) != b.get_char(i) {
            return false;
        }
        i = i + 1;
    }
    proof {
        assert(a@ =~= b@);
    }
    true
}

/// Collect template definitions found anywhere under `v` into `acc`: a
/// defining entry registers its stripped name (a later definition of the
/// same name wins) and its body is not scanned further; every other entry
/// value and every sequence element is scanned in document order.
pub open spec fn spec_find_generics_in(
    acc: Seq<(Seq<char>, SpecValue)>,
    v: SpecValue,
) -> Seq<(Seq<char>, SpecValue)>
    decreases v, 0int,
{
    match v {
        SpecValue::Sequence(items) => {
            proof {
                assert(decreases_to!(v, 0int => items));
            }
            spec_find_generics_items(acc, items)
        },
        SpecValue::Mapping(entries) => {
            proof {
                assert(decreases_to!(v, 0int => entries));
            }
            spec_find_generics_entries(acc, entries)
        },
        _ => acc,
    }
}

pub open spec fn spec_find_generics_items(
    acc: Seq<(Seq<char>, SpecValue)>,
    items: Seq<SpecValue>,
) -> Seq<(Seq<char>, SpecValue)>
    decreases items, items.len(),
{
    if items.len() == 0 {
        acc
    } else {
        proof {
            assert(decreases_to!(items => items[0]));
            assert(decreases_to!(items => items.subrange(1, items.len() as int)));
        }
        spec_find_generics_items(spec_find_generics_in(acc, items.first()), items.drop_first())
    }
}

pub open spec fn spec_find_generics_entries(
    acc: Seq<(Seq<char>, SpecValue)>,
    entries: Seq<(SpecValue, SpecValue)>,
) -> Seq<(Seq<char>, SpecValue)>
    decreases entries, entries.len(),
{
    if entries.len() == 0 {
        acc
    } else {
        proof {
            assert(decreases_to!(entries => entries[0]));
            assert(decreases_to!(entries => entries.subrange(1, entries.len() as int)));
        }
        let e = entries.first();
        let next = match spec_generic_def_name(e.0) {
            Some(name) => spec_tbl_insert(acc, name, e.1),
            None => spec_find_generics_in(acc, e.1),
        };
        spec_find_generics_entries(next, entries.drop_first())
    }
}

/// The whole template table of a document.
pub open spec fn spec_find_generics(v: SpecValue) -> Seq<(Seq<char>, SpecValue)> {
    spec_find_generics_in(Seq::empty(), v)
}

#[verifier::loop_isolation(false)]
fn find_generics_into(acc: &mut Vec<(String, Value)>, v: &Value)
    ensures
        view_tbl(final(acc)@) == spec_find_generics_in(view_tbl(old(acc)@), v@),
    decreases *v,
{
    match v {
        Value::Sequence(items) => {
            let ghost src = view_items(items@);
            proof {
                lemma_view_items(items@);
                assert(src.skip(0) =~= src);
            }
            let mut i: usize = 0;
            while i < items.len()
                invariant
                    i <= items.len(),
                    spec_find_generics_items(view_tbl(old(acc)@), src) == spec_find_generics_items(
                        view_tbl(acc@),
                        src.skip(i as int),
                    ),
                decreases items.len() - i,
            {
                proof {
                    assert(decreases_to!(*v => *items));
                    assert(decreases_to!(*items => items@));
                    assert(decreases_to!(items@ => items@[i as int]));
                }
                find_generics_into(acc, &items[i]);
                proof {
                    assert(src.skip(i as int).first() == src[i as int]);
                    assert(src.skip(i as int).drop_first() =~= src.skip(i as int + 1));
                }
                i = i + 1;
            }
            proof {
                assert(src.skip(items@.len() as int) =~= Seq::<SpecValue>::empty());
            }
        },
        Value::Mapping(entries) => {
            let ghost src = view_entries(entries@);
            proof {
                lemma_view_entries(entries@);
                assert(src.skip(0) =~= src);
            }
            let mut i: usize = 0;
            while i < entries.len()
                invariant
                    i <= entries.len(),
                    spec_find_generics_entries(view_tbl(old(acc)@), src)
                        == spec_find_generics_entries(view_tbl(acc@), src.skip(i as int)),
                decreases entries.len() - i,
            {
                match generic_def_name(&entries[i].0) {
                    Some(name) => {
                        tbl_insert(acc, name, entries[i].1.clone());
                    },
                    None => {
                        proof {
                            assert(decreases_to!(*v => *entries));
                            assert(decreases_to!(*entries => entries@));
                            assert(decreases_to!(entries@ => entries@[i as int]));
                        }
                        find_generics_into(acc, &entries[i].1);
                    },
                }
                proof {
                    assert(src.skip(i as int).first() == src[i as int]);
                    assert(src.skip(i as int).drop_first() =~= src.skip(i as int + 1));
                }
                i = i + 1;
            }
            proof {
                assert(src.skip(entries@.len() as int) =~= Seq::<(SpecValue, SpecValue)>::empty());
            }
        },
        _ => {
        },
    }
}

/// Collect every template definition of the document into a flat
/// name-to-body table; on a name defined more than once the definition
/// found last in document order wins.
pub fn find_generics(v: &Value) -> (r: Vec<(String, Value)>)
    ensures
        view_tbl(r@) == spec_find_generics(v@),
{
    let mut acc: Vec<(String, Value)> = Vec::new();
    proof {
        assert(view_tbl(acc@) =~= Seq::<(Seq<char>, SpecValue)>::empty());
    }
    find_generics_into(&mut acc, v);
    acc
}

/// Collect the binding set of an invocation into `acc`: every entry except
/// those whose key is read as the reserved `target` name, keyed by the
/// string the key is read as.
pub open spec fn spec_bindings_from(
    acc: Seq<(Seq<char>, SpecValue)>,
    consumer: Seq<(SpecValue, SpecValue)>,
) -> Seq<(Seq<char>, SpecValue)>
    decreases consumer.len(),
{
    if consumer.len() == 0 {
        acc
    } else {
        let e = consumer.first();
        let key = spec_yaml_to_string(e.0);
        let next = if key == "target"@ {
            acc
        } else {
            spec_tbl_insert(acc, key, e.1)
        };
        spec_bindings_from(next, consumer.drop_first())
    }
}

/// The binding table an invocation's binding set supplies.
pub open spec fn spec_bindings(consumer: Seq<(SpecValue, SpecValue)>) -> Seq<
    (Seq<char>, SpecValue),
> {
    spec_bindings_from(Seq::empty(), consumer)
}

/// The binding table of an invocation's binding set: every entry but the
/// `target` one, keyed by the string its key is read as.
#[verifier::loop_isolation(false)]
pub fn extract_generic_types(consumer: &Vec<(Value, Value)>) -> (r: Vec<(String, Value)>)
    ensures
        view_tbl(r@) == spec_bindings(view_entries(consumer@)),
{
    let ghost src = view_entries(consumer@);
    proof {
        lemma_view_entries(consumer@);
        assert(src.skip(0) =~= src);
    }
    let mut acc: Vec<(String, Value)> = Vec::new();
    proof {
        assert(view_tbl(acc@) =~= Seq::<(Seq<char>, SpecValue)>::empty());
    }
    let mut i: usize = 0;
    while i < consumer.len()
        invariant
            i <= consumer.len(),
            spec_bindings(src) == spec_bindings_from(view_tbl(acc@), src.skip(i as int)),
        decreases consumer.len() - i,
    {
        let key = yaml_to_string(&consumer[i].0);
        if !str_eq(key.as_str(), "target") {
            tbl_insert(&mut acc, key, consumer[i].1.clone());
        }
        proof {
            assert(src.skip(i as int).first() == src[i as int]);
            assert(src.skip(i as int).drop_first() =~= src.skip(i as int + 1));
        }
        i = i + 1;
    }
    proof {
        assert(src.skip(consumer@.len() as int) =~= Seq::<(SpecValue, SpecValue)>::empty());
    }
    acc
}

/// Substitute bound placeholders in a template body: a text standing as a
/// mapping entry's value and naming a binding is replaced by the bound
/// value, an unbound text is kept verbatim, containers are walked, and
/// mapping keys and sequence elements are never substitution sites.
pub open spec fn spec_replace(v: SpecValue, bindings: Seq<(Seq<char>, SpecValue)>) -> SpecValue
    decreases v, 0int,
{
    match v {
        SpecValue::Sequence(items) => {
            proof {
                assert(decreases_to!(v, 0int => items));
            }
            SpecValue::Sequence(spec_replace_items(items, bindings))
        },
        SpecValue::Mapping(entries) => {
            proof {
                assert(decreases_to!(v, 0int => entries));
            }
            SpecValue::Mapping(spec_replace_entries(entries, bindings))
        },
        _ => v,
    }
}

pub open spec fn spec_replace_items(
    items: Seq<SpecValue>,
    bindings: Seq<(Seq<char>, SpecValue)>,
) -> Seq<SpecValue>
    decreases items, items.len(),
{
    if items.len() == 0 {
        Seq::empty()
    } else {
        proof {
            assert(decreases_to!(items => items.subrange(0, items.len() - 1)));
            assert(decreases_to!(items => items[items.len() - 1]));
        }
        spec_replace_items(items.drop_last(), bindings).push(spec_replace(items.last(), bindings))
    }
}

/// The rewritten value of one mapping entry of a template body.
pub open spec fn spec_replace_entry_value(
    val: SpecValue,
    bindings: Seq<(Seq<char>, SpecValue)>,
) -> SpecValue
    decreases val, 1int,
{
    match val {
        SpecValue::Text(s) => {
            if spec_tbl_contains(bindings, s) {
                spec_tbl_lookup(bindings, s)
            } else {
                val
            }
        },
        _ => spec_replace(val, bindings),
    }
}

pub open spec fn spec_replace_entries(
    entries: Seq<(SpecValue, SpecValue)>,
    bindings: Seq<(Seq<char>, SpecValue)>,
) -> Seq<(SpecValue, SpecValue)>
    decreases entries, entries.len(),
{
    if entries.len() == 0 {
        Seq::empty()
    } else {
        proof {
            assert(decreases_to!(entries => entries.subrange(0, entries.len() - 1)));
            assert(decreases_to!(entries => entries[entries.len() - 1]));
            assert(decreases_to!(entries[entries.len() - 1] => entries[entries.len() - 1].1));
        }
        spec_replace_entries(entries.drop_last(), bindings).push(
            (entries.last().0, spec_replace_entry_value(entries.last().1, bindings)),
        )
    }
}

pub proof fn lemma_replace_items(items: Seq<SpecValue>, bindings: Seq<(Seq<char>, SpecValue)>)
    ensures
        spec_replace_items(items, bindings).len() == items.len(),
        forall|i: int|
            0 <= i < items.len() ==> spec_replace_items(items, bindings)[i] == spec_replace(
                items[i],
                bindings,
            ),
    decreases items.len(),
{
    if items.len() > 0 {
        lemma_replace_items(items.drop_last(), bindings);
    }
}

pub proof fn lemma_replace_entries(
    entries: Seq<(SpecValue, SpecValue)>,
    bindings: Seq<(Seq<char>, SpecValue)>,
)
    ensures
        spec_replace_entries(entries, bindings).len() == entries.len(),
        forall|i: int|
            0 <= i < entries.len() ==> spec_replace_entries(entries, bindings)[i] == (
            entries[i].0,
            spec_replace_entry_value(entries[i].1, bindings),
            ),
    decreases entries.len(),
{
    if entries.len() > 0 {
        lemma_replace_entries(entries.drop_last(), bindings);
    }
}

/// Substitute bound placeholder strings in a template body.
#[verifier::loop_isolation(false)]
pub fn replace_generic(yaml: &Value, types: &Vec<(String, Value)>) -> (r: Value)
    ensures
        r@ == spec_replace(yaml@, view_tbl(types@)),
    decreases *yaml,
{
    let ghost bindings = view_tbl(types@);
    match yaml {
        Value::Sequence(items) => {
            let ghost src = view_items(items@);
            proof {
                lemma_view_items(items@);
                lemma_replace_items(src, bindings);
            }
            let mut out: Vec<Value> = Vec::new();
            let mut i: usize = 0;
            while i < items.len()
                invariant
                    i <= items.len(),
                    out@.len() == i,
                    forall|j: int|
                        0 <= j < i ==> view_value(out@[j]) == spec_replace(src[j], bindings),
                decreases items.len() - i,
            {
                proof {
                    assert(decreases_to!(*yaml => *items));
                    assert(decreases_to!(*items => items@));
                    assert(decreases_to!(items@ => items@[i as int]));
                }
                out.push(replace_generic(&items[i], types));
                i = i + 1;
            }
            proof {
                lemma_view_items(out@);
                assert(view_items(out@) =~= spec_replace_items(src, bindings));
            }
            Value::Sequence(out)
        },
        Value::Mapping(entries) => {
            let ghost src = view_entries(entries@);
            proof {
                lemma_view_entries(entries@);
                lemma_replace_entries(src, bindings);
            }
            let mut out: Vec<(Value, Value)> = Vec::new();
            let mut i: usize = 0;
            while i < entries.len()
                invariant
                    i <= entries.len(),
                    out@.len() == i,
                    forall|j: int|
                        0 <= j < i ==> view_value(out@[j].0) == src[j].0 && view_value(out@[j].1)
                            == spec_replace_entry_value(src[j].1, bindings),
                decreases entries.len() - i,
    {
                let key = entries[i].0.clone();
                let new_val: Value;
                match &entries[i].1 {
                    Value::Text(s) => {
                        match tbl_get(types, s.as_str()) {
                            Some(bound) => {
                                new_val = bound.clone();
                            },
                            None => {
                                new_val = entries[i].1.clone();
                            },
                        }
                    },
                    other => {
                        proof {
                            assert(decreases_to!(*yaml => *entries));
                            assert(decreases_to!(*entries => entries@));
                            assert(decreases_to!(entries@ => entries@[i as int]));
                            assert(decreases_to!(entries@[i as int] => entries@[i as int].1));
                        }
                        new_val = replace_generic(other, types);
                    },
                }
                out.push((key, new_val));
                i = i + 1;
            }
            proof {
                lemma_view_entries(out@);
                assert(view_entries(out@) =~= spec_replace_entries(src, bindings));
            }
            Value::Mapping(out)
        },
        _ => {
            yaml.clone()
        },
    }
}

/// Instantiate a template body with the bindings supplied at an invocation
/// site.
pub fn make_generic_to_type(generic_definition: &Value, consumer: &Vec<(Value, Value)>) -> (r:
    Value)
    ensures
        r@ == spec_replace(generic_definition@, spec_bindings(view_entries(consumer@))),
{
    let types = extract_generic_types(consumer);
    replace_generic(generic_definition, &types)
}

/// Instantiate every invocation under `v` against the template table: an
/// invocation mapping is wholly replaced by its instantiated template (or
/// the run fails on a malformed invocation or an unknown target), a
/// definition entry is stripped, and everything else is rewritten in
/// place.
pub open spec fn spec_process_generics(
    v: SpecValue,
    generics: Seq<(Seq<char>, SpecValue)>,
) -> Result<SpecValue, SpecProcessError>
    decreases v, 0int,
{
    match v {
        SpecValue::Sequence(items) => {
            proof {
                assert(decreases_to!(v, 0int => items));
            }
            match spec_process_items(items, generics) {
                Ok(s) => Ok(SpecValue::Sequence(s)),
                Err(e) => Err(e),
            }
        },
        SpecValue::Mapping(entries) => {
            proof {
                assert(decreases_to!(v, 0int => entries));
            }
            if spec_contains_key(entries, SpecValue::Text("$generic"@)) {
                match spec_lookup(entries, SpecValue::Text("$generic"@)) {
                    SpecValue::Mapping(consumer) => {
                        if !spec_contains_key(consumer, SpecValue::Text("target"@)) {
                            Err(SpecProcessError::MalformedGeneric)
                        } else {
                            match spec_lookup(consumer, SpecValue::Text("target"@)) {
                                SpecValue::Text(name) => {
                                    if spec_tbl_contains(generics, name) {
                                        Ok(
                                            spec_replace(
                                                spec_tbl_lookup(generics, name),
                                                spec_bindings(consumer),
                                            ),
                                        )
                                    } else {
                                        Err(SpecProcessError::UnknownTemplate(name))
                                    }
                                },
                                _ => Err(SpecProcessError::MalformedGeneric),
                            }
                        }
                    },
                    _ => Err(SpecProcessError::MalformedGeneric),
                }
            } else {
                match spec_process_entries(entries, generics) {
                    Ok(es) => Ok(SpecValue::Mapping(es)),
                    Err(e) => Err(e),
                }
            }
        },
        _ => Ok(v),
    }
}

/// Prepend already rewritten elements to the outcome of the rest.
pub open spec fn spec_items_join(
    prefix: Seq<SpecValue>,
    rest: Result<Seq<SpecValue>, SpecProcessError>,
) -> Result<Seq<SpecValue>, SpecProcessError> {
    match rest {
        Ok(t) => Ok(prefix + t),
        Err(e) => Err(e),
    }
}

pub open spec fn spec_process_items(
    items: Seq<SpecValue>,
    generics: Seq<(Seq<char>, SpecValue)>,
) -> Result<Seq<SpecValue>, SpecProcessError>
    decreases items, items.len(),
{
    if items.len() == 0 {
        Ok(Seq::empty())
    } else {
        proof {
            assert(decreases_to!(items => items[0]));
            assert(decreases_to!(items => items.subrange(1, items.len() as int)));
        }
        match spec_process_generics(items.first(), generics) {
            Err(e) => Err(e),
            Ok(h) => spec_items_join(seq![h], spec_process_items(items.drop_first(), generics)),
        }
    }
}

/// Prepend already rewritten entries to the outcome of the rest.
pub open spec fn spec_entries_join(
    prefix: Seq<(SpecValue, SpecValue)>,
    rest: Result<Seq<(SpecValue, SpecValue)>, SpecProcessError>,
) -> Result<Seq<(SpecValue, SpecValue)>, SpecProcessError> {
    match rest {
        Ok(t) => Ok(prefix + t),
        Err(e) => Err(e),
    }
}

pub open spec fn spec_process_entries(
    entries: Seq<(SpecValue, SpecValue)>,
    generics: Seq<(Seq<char>, SpecValue)>,
) -> Result<Seq<(SpecValue, SpecValue)>, SpecProcessError>
    decreases entries, entries.len(),
{
    if entries.len() == 0 {
        Ok(Seq::empty())
    } else {
        proof {
            assert(decreases_to!(entries => entries[0]));
            assert(decreases_to!(entries[0] => entries[0].1));
            assert(decreases_to!(entries => entries.subrange(1, entries.len() as int)));
        }
        let e = entries.first();
        if spec_generic_def_name(e.0) is Some {
            spec_process_entries(entries.drop_first(), generics)
        } else {
            match spec_process_generics(e.1, generics) {
                Err(err) => Err(err),
                Ok(nv) => spec_entries_join(
                    seq![(e.0, nv)],
                    spec_process_entries(entries.drop_first(), generics),
                ),
            }
        }
    }
}

/// Rewrite `yaml` against the template table: replace invocations by their
/// instantiated templates, strip definition entries, and fail on a
/// malformed invocation or an unknown target.
#[verifier::loop_isolation(false)]
pub fn process_generics(yaml: &Value, generics: &Vec<(String, Value)>) -> (r: Result<
    Value,
    ProcessError,
>)
    ensures
        spec_result_matches(r, spec_process_generics(yaml@, view_tbl(generics@))),
    decreases *yaml,
{
    let ghost gt = view_tbl(generics@);
    match yaml {
        Value::Sequence(items) => {
            let ghost src = view_items(items@);
            proof {
                lemma_view_items(items@);
                assert(src.skip(0) =~= src);
            }
            let mut out: Vec<Value> = Vec::new();
            let mut i: usize = 0;
            while i < items.len()
                invariant
                    i <= items.len(),
                    out@.len() == i,
                    spec_process_items(src, gt) == spec_items_join(
                        view_items(out@),
                        spec_process_items(src.skip(i as int), gt),
                    ),
                decreases items.len() - i,
            {
                proof {
                    assert(decreases_to!(*yaml => *items));
                    assert(decreases_to!(*items => items@));
                    assert(decreases_to!(items@ => items@[i as int]));
                    assert(src.skip(i as int).first() == src[i as int]);
                    assert(src.skip(i as int).drop_first() =~= src.skip(i as int + 1));
                }
                match process_generics(&items[i], generics) {
                    Ok(nv) => {
                        let ghost before = view_items(out@);
                        let ghost prev = out@;
                        let ghost nview = nv@;
                        out.push(nv);
                        proof {
                            assert(out@.drop_last() =~= prev);
                            assert(out@.last() == prev.push(out@.last()).last());
                            assert(view_items(out@) == before.push(nview));
                            let ghost rest = spec_process_items(src.skip(i as int + 1), gt);
                            match rest {
                                Ok(t) => {
                                    assert(before + (seq![nview] + t) =~= view_items(out@) + t);
                                },
                                Err(_) => {},
                            }
                        }
                    },
                    Err(e) => {
                        return Err(e);
                    },
                }
                i = i + 1;
            }
            proof {
                assert(src.skip(items@.len() as int) =~= Seq::<SpecValue>::empty());
                assert(view_items(out@) + Seq::<SpecValue>::empty() =~= view_items(out@));
            }
            Ok(Value::Sequence(out))
        },
        Value::Mapping(entries) => {
            let gkey = Value::Text("$generic".to_owned());
            if mapping_contains_key(entries, &gkey) {
                match mapping_get(entries, &gkey) {
                    Some(Value::Mapping(consumer)) => {
                        let tkey = Value::Text("target".to_owned());
                        match mapping_get(consumer, &tkey) {
                            Some(Value::Text(name)) => {
                                match tbl_get(generics, name.as_str()) {
                                    Some(def) => Ok(make_generic_to_type(def, consumer)),
                                    None => Err(ProcessError::UnknownTemplate(name.clone())),
                                }
                            },
                            Some(_) => Err(ProcessError::MalformedGeneric),
                            None => Err(ProcessError::MalformedGeneric),
                        }
                    },
                    Some(_) => Err(ProcessError::MalformedGeneric),
                    None => Err(ProcessError::MalformedGeneric),
                }
            } else {
                let ghost src = view_entries(entries@);
                proof {
                    lemma_view_entries(entries@);
                    assert(src.skip(0) =~= src);
                }
                let mut out: Vec<(Value, Value)> = Vec::new();
                let mut i: usize = 0;
                while i < entries.len()
                    invariant
                        i <= entries.len(),
                        spec_process_entries(src, gt) == spec_entries_join(
                            view_entries(out@),
                            spec_process_entries(src.skip(i as int), gt),
                        ),
                    decreases entries.len() - i,
                {
                    proof {
                        assert(src.skip(i as int).first() == src[i as int]);
                        assert(src.skip(i as int).drop_first() =~= src.skip(i as int + 1));
                    }
                    match generic_def_name(&entries[i].0) {
                        Some(_) => {
                        },
                        None => {
                            proof {
                                assert(decreases_to!(*yaml => *entries));
                                assert(decreases_to!(*entries => entries@));
                                assert(decreases_to!(entries@ => entries@[i as int]));
                                assert(decreases_to!(entries@[i as int] => entries@[i as int].1));
                            }
                            match process_generics(&entries[i].1, generics) {
                                Ok(nv) => {
                                    let ghost before = view_entries(out@);
                                    let ghost prev = out@;
                                    let ghost pushed = (src[i as int].0, nv@);
                                    let key = entries[i].0.clone();
                                    out.push((key, nv));
                                    proof {
                                        assert(out@.drop_last() =~= prev);
                                        assert(view_entries(out@) == before.push(pushed));
                                        let ghost rest = spec_process_entries(
                                            src.skip(i as int + 1),
                                            gt,
                                        );
                                        match rest {
                                            Ok(t) => {
                                                assert(before + (seq![pushed] + t) =~= view_entries(
                                                    out@,
                                                ) + t);
                                            },
                                            Err(_) => {},
                                        }
                                    }
                                },
                                Err(e) => {
                                    return Err(e);
                                },
                            }
                        },
                    }
                    i = i + 1;
                }
                proof {
                    assert(src.skip(entries@.len() as int) =~= Seq::<(SpecValue, SpecValue)>::empty());
                    assert(view_entries(out@) + Seq::<(SpecValue, SpecValue)>::empty()
                        =~= view_entries(out@));
                }
                Ok(Value::Mapping(out))
            }
        },
        _ => {
            Ok(yaml.clone())
        },
    }
}

/// The whole template stage: collect the document's definitions, then
/// instantiate its invocations against them.
pub open spec fn spec_apply_generic(v: SpecValue) -> Result<SpecValue, SpecProcessError> {
    spec_process_generics(v, spec_find_generics(v))
}

/// Collect the document's template definitions and instantiate its
/// invocations against them.
pub fn apply_generic(yaml: &Value) -> (r: Result<Value, ProcessError>)
    ensures
        spec_result_matches(r, spec_apply_generic(yaml@)),
{
    let generics = find_generics(yaml);
    process_generics(yaml, &generics)
}

} // verus!
