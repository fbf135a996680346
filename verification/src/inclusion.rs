//! Inclusion resolution: a mapping holding the reserved `$include` key is
//! wholly replaced by the merge of the documents its glob pattern loaded,
//! each of them fully resolved first. The caller loads files and hands
//! them over in a table keyed by the joined pattern; resolution itself
//! never touches the file system.

use vstd::prelude::*;

use crate::errors::{spec_result_matches, ProcessError, SpecProcessError};
use crate::generics::{spec_entries_join, spec_items_join};
use crate::merge::{concat_hash, spec_concat};
use crate::paths::{get_include_path, spec_include_path};
use crate::table::{lemma_tbl_key_at, spec_tbl_contains, spec_tbl_key_at, spec_tbl_lookup};
use crate::value::{
    lemma_view_entries, lemma_view_items, mapping_contains_key, mapping_get, spec_contains_key,
    spec_lookup, view_entries, view_items, view_value, SpecValue, Value,
};

verus! {

broadcast use
    vstd::std_specs::vec::axiom_vec_decreases_to_view,
    vstd::seq::axiom_seq_index_decreases,
    vstd::seq::axiom_seq_subrange_decreases;

/// Model of one loaded file: the directory it lies in (the base for its
/// own includes) and its document.
pub type SpecSourceFile = (Seq<char>, SpecValue);

/// One loaded file: the directory it lies in and its parsed document.
pub struct SourceFile {
    pub dir: String,
    pub doc: Value,
}

impl View for SourceFile {
    type V = SpecSourceFile;

    open spec fn view(&self) -> SpecSourceFile {
        (self.dir@, view_value(self.doc))
    }
}

/// Models of a list of loaded files, in glob order.
pub open spec fn view_files(files: Seq<SourceFile>) -> Seq<SpecSourceFile>
    decreases files.len(),
{
    if files.len() == 0 {
        Seq::empty()
    } else {
        view_files(files.drop_last()).push(files.last()@)
    }
}

pub proof fn lemma_view_files(files: Seq<SourceFile>)
    ensures
        view_files(files).len() == files.len(),
        forall|i: int| 0 <= i < files.len() ==> view_files(files)[i] == files[i]@,
    decreases files.len(),
{
    if files.len() > 0 {
        lemma_view_files(files.drop_last());
    }
}

/// Model of the table of loaded sources: each joined pattern with its
/// files in glob order.
pub open spec fn view_sources(sources: Seq<(String, Vec<SourceFile>)>) -> Seq<
    (Seq<char>, Seq<SpecSourceFile>),
>
    decreases sources.len(),
{
    if sources.len() == 0 {
        Seq::empty()
    } else {
        view_sources(sources.drop_last()).push(
            (sources.last().0@, view_files(sources.last().1@)),
        )
    }
}

pub proof fn lemma_view_sources(sources: Seq<(String, Vec<SourceFile>)>)
    ensures
        view_sources(sources).len() == sources.len(),
        forall|i: int|
            0 <= i < sources.len() ==> view_sources(sources)[i] == (
            sources[i].0@,
            view_files(sources[i].1@),
            ),
    decreases sources.len(),
{
    if sources.len() > 0 {
        lemma_view_sources(sources.drop_last());
    }
}

/// The loaded content every include pattern of a run resolves against:
/// for each joined pattern, the files its glob expansion loaded, in glob
/// order.
pub struct SourceTable {
    pub sources: Vec<(String, Vec<SourceFile>)>,
}

impl View for SourceTable {
    type V = Seq<(Seq<char>, Seq<SpecSourceFile>)>;

    open spec fn view(&self) -> Seq<(Seq<char>, Seq<SpecSourceFile>)> {
        view_sources(self.sources@)
    }
}

impl SourceTable {
    /// A table with no loaded sources.
    pub fn new() -> (r: SourceTable)
        ensures
            r@ == Seq::<(Seq<char>, Seq<SpecSourceFile>)>::empty(),
    {
        let r = SourceTable { sources: Vec::new() };
        proof {
            assert(r@ =~= Seq::<(Seq<char>, Seq<SpecSourceFile>)>::empty());
        }
        r
    }

    /// Record the files a pattern's glob expansion loaded, in glob order.
    pub fn add(&mut self, pattern: String, files: Vec<SourceFile>)
        ensures
            final(self)@ == old(self)@.push((pattern@, view_files(files@))),
    {
        let ghost prev = self.sources@;
        self.sources.push((pattern, files));
        proof {
            assert(self.sources@.drop_last() =~= prev);
        }
    }

    /// The number of patterns with loaded content.
    pub fn len(&self) -> (r: usize)
        ensures
            r == self@.len(),
    {
        proof {
            lemma_view_sources(self.sources@);
        }
        self.sources.len()
    }

    /// The loaded files of the first entry for `pattern`, if any.
    #[verifier::loop_isolation(false)]
    pub fn get<'a>(&'a self, pattern: &str) -> (r: Option<&'a Vec<SourceFile>>)
        ensures
            spec_tbl_contains(self@, pattern@) ==> (r matches Some(files) && view_files(files@)
                == spec_tbl_lookup(self@, pattern@)),
            !spec_tbl_contains(self@, pattern@) ==> r is None,
    {
        proof {
            lemma_view_sources(self.sources@);
        }
        let ghost model = self@;
        let mut i: usize = 0;
        while i < self.sources.len()
            invariant
                i <= self.sources.len(),
                spec_tbl_key_at(model, pattern@, 0) == spec_tbl_key_at(model, pattern@, i as int),
                forall|j: int| 0 <= j < i ==> model[j].0 != pattern@,
            decreases self.sources.len() - i,
        {
            if crate::generics::str_eq(self.sources[i].0.as_str(), pattern) {
                proof {
                    lemma_tbl_key_at(model, pattern@, 0);
                }
                return Some(&self.sources[i].1);
            }
            i = i + 1;
        }
        None
    }
}

/// Resolve every `$include` directive under `v`: a directive mapping is
/// wholly replaced by the merge of the fully resolved documents loaded for
/// its joined pattern; other mappings and sequences are rewritten in
/// place; scalars stand. `fuel` bounds how deep loaded documents may nest
/// their own includes: running out means the include graph is cyclic.
pub open spec fn spec_including(
    v: SpecValue,
    base: Seq<char>,
    table: Seq<(Seq<char>, Seq<SpecSourceFile>)>,
    fuel: nat,
) -> Result<SpecValue, SpecProcessError>
    decreases fuel, v, 0int,
{
    match v {
        SpecValue::Sequence(items) => {
            proof {
                assert(decreases_to!(v, 0int => items));
            }
            match spec_including_items(items, base, table, fuel) {
                Ok(s) => Ok(SpecValue::Sequence(s)),
                Err(e) => Err(e),
            }
        },
        SpecValue::Mapping(entries) => {
            proof {
                assert(decreases_to!(v, 0int => entries));
            }
            if spec_contains_key(entries, SpecValue::Text("$include"@)) {
                match spec_lookup(entries, SpecValue::Text("$include"@)) {
                    SpecValue::Text(target) => {
                        let full = spec_include_path(base, target);
                        if !spec_tbl_contains(table, full) {
                            Err(SpecProcessError::UnresolvedInclude(full))
                        } else if fuel == 0 {
                            Err(SpecProcessError::CyclicInclude(full))
                        } else {
                            match spec_resolve_files(
                                spec_tbl_lookup(table, full),
                                table,
                                (fuel - 1) as nat,
                                Seq::empty(),
                            ) {
                                Ok(merged) => Ok(SpecValue::Mapping(merged)),
                                Err(e) => Err(e),
                            }
                        }
                    },
                    _ => Err(SpecProcessError::MalformedInclude),
                }
            } else {
                match spec_including_entries(entries, base, table, fuel) {
                    Ok(es) => Ok(SpecValue::Mapping(es)),
                    Err(e) => Err(e),
                }
            }
        },
        _ => Ok(v),
    }
}

pub open spec fn spec_including_items(
    items: Seq<SpecValue>,
    base: Seq<char>,
    table: Seq<(Seq<char>, Seq<SpecSourceFile>)>,
    fuel: nat,
) -> Result<Seq<SpecValue>, SpecProcessError>
    decreases fuel, items, items.len(),
{
    if items.len() == 0 {
        Ok(Seq::empty())
    } else {
        proof {
            assert(decreases_to!(items => items[0]));
            assert(decreases_to!(items => items.subrange(1, items.len() as int)));
        }
        match spec_including(items.first(), base, table, fuel) {
            Err(e) => Err(e),
            Ok(h) => spec_items_join(
                seq![h],
                spec_including_items(items.drop_first(), base, table, fuel),
            ),
        }
    }
}

pub open spec fn spec_including_entries(
    entries: Seq<(SpecValue, SpecValue)>,
    base: Seq<char>,
    table: Seq<(Seq<char>, Seq<SpecSourceFile>)>,
    fuel: nat,
) -> Result<Seq<(SpecValue, SpecValue)>, SpecProcessError>
    decreases fuel, entries, entries.len(),
{
    if entries.len() == 0 {
        Ok(Seq::empty())
    } else {
        proof {
            assert(decreases_to!(entries => entries[0]));
            assert(decreases_to!(entries[0] => entries[0].1));
            assert(decreases_to!(entries => entries.subrange(1, entries.len() as int)));
        }
        let e = entries.first();
        match spec_including(e.1, base, table, fuel) {
            Err(err) => Err(err),
            Ok(nv) => spec_entries_join(
                seq![(e.0, nv)],
                spec_including_entries(entries.drop_first(), base, table, fuel),
            ),
        }
    }
}

/// Resolve each loaded file in glob order — each against its own
/// directory — and merge the results into the accumulator.
pub open spec fn spec_resolve_files(
    files: Seq<SpecSourceFile>,
    table: Seq<(Seq<char>, Seq<SpecSourceFile>)>,
    fuel: nat,
    acc: Seq<(SpecValue, SpecValue)>,
) -> Result<Seq<(SpecValue, SpecValue)>, SpecProcessError>
    decreases fuel, files, files.len(),
{
    if files.len() == 0 {
        Ok(acc)
    } else {
        proof {
            assert(decreases_to!(files => files[0]));
            assert(decreases_to!(files[0] => files[0].1));
            assert(decreases_to!(files => files.subrange(1, files.len() as int)));
        }
        let f = files.first();
        match spec_including(f.1, f.0, table, fuel) {
            Err(e) => Err(e),
            Ok(r) => spec_resolve_files(files.drop_first(), table, fuel, spec_concat(acc, r)),
        }
    }
}

/// Resolve every `$include` directive under `yaml` against the loaded
/// sources, joining relative patterns under `base_path`. `fuel` bounds the
/// nesting of includes across loaded files; one unit per level suffices,
/// so any value at least the number of loaded patterns admits every
/// acyclic configuration.
#[verifier::loop_isolation(false)]
#[verifier::rlimit(60)]
pub fn including(yaml: &Value, base_path: &str, table: &SourceTable, fuel: usize) -> (r: Result<
    Value,
    ProcessError,
>)
    ensures
        spec_result_matches(r, spec_including(yaml@, base_path@, table@, fuel as nat)),
    decreases fuel, *yaml, 0int,
{
    match yaml {
        Value::Sequence(items) => {
            let ghost src = view_items(items@);
            proof {
                lemma_view_items(items@);
                assert(src.skip(0) =~= src);
            }
            let mut out: Vec<Value> = Vec::new();
            let mut i: usize = 0;
            while i < items.len()
                invariant
                    i <= items.len(),
                    out@.len() == i,
                    spec_including_items(src, base_path@, table@, fuel as nat) == spec_items_join(
                        view_items(out@),
                        spec_including_items(src.skip(i as int), base_path@, table@, fuel as nat),
                    ),
                decreases items.len() - i,
            {
                proof {
                    assert(decreases_to!(*yaml => *items));
                    assert(decreases_to!(*items => items@));
                    assert(decreases_to!(items@ => items@[i as int]));
                    assert(src.skip(i as int).first() == src[i as int]);
                    assert(src.skip(i as int).drop_first() =~= src.skip(i as int + 1));
                }
                match including(&items[i], base_path, table, fuel) {
                    Ok(nv) => {
                        let ghost before = view_items(out@);
                        let ghost prev = out@;
                        let ghost nview = nv@;
                        out.push(nv);
                        proof {
                            assert(out@.drop_last() =~= prev);
                            assert(view_items(out@) == before.push(nview));
                            let ghost rest = spec_including_items(
                                src.skip(i as int + 1),
                                base_path@,
                                table@,
                                fuel as nat,
                            );
                            match rest {
                                Ok(t) => {
                                    assert(before + (seq![nview] + t) =~= view_items(out@) + t);
                                },
                                Err(_) => {},
                            }
                        }
                    },
                    Err(e) => {
                        return Err(e);
                    },
                }
                i = i + 1;
            }
            proof {
                assert(src.skip(items@.len() as int) =~= Seq::<SpecValue>::empty());
                assert(view_items(out@) + Seq::<SpecValue>::empty() =~= view_items(out@));
            }
            Ok(Value::Sequence(out))
        },
        Value::Mapping(entries) => {
            let ikey = Value::Text("$include".to_owned());
            if mapping_contains_key(entries, &ikey) {
                match mapping_get(entries, &ikey) {
                    Some(Value::Text(target)) => {
                        let full = get_include_path(base_path, target.as_str());
                        match table.get(full.as_str()) {
                            None => Err(ProcessError::UnresolvedInclude(full)),
                            Some(files) => {
                                if fuel == 0 {
                                    Err(ProcessError::CyclicInclude(full))
                                } else {
                                    let ghost fviews = view_files(files@);
                                    proof {
                                        lemma_view_files(files@);
                                        assert(fviews.skip(0) =~= fviews);
                                    }
                                    let mut merged: Vec<(Value, Value)> = Vec::new();
                                    proof {
                                        assert(view_entries(merged@) =~= Seq::<
                                            (SpecValue, SpecValue),
                                        >::empty());
                                    }
                                    let mut j: usize = 0;
                                    while j < files.len()
                                        invariant
                                            j <= files.len(),
                                            spec_resolve_files(
                                                fviews,
                                                table@,
                                                (fuel - 1) as nat,
                                                Seq::empty(),
                                            ) == spec_resolve_files(
                                                fviews.skip(j as int),
                                                table@,
                                                (fuel - 1) as nat,
                                                view_entries(merged@),
                                            ),
                                        decreases files.len() - j,
                                    {
                                        proof {
                                            assert(fviews.skip(j as int).first() == fviews[j as int]);
                                            assert(fviews.skip(j as int).drop_first() =~= fviews.skip(
                                                j as int + 1,
                                            ));
                                        }
                                        match including(
                                            &files[j].doc,
                                            files[j].dir.as_str(),
                                            table,
                                            fuel - 1,
                                        ) {
                                            Ok(resolved) => {
                                                concat_hash(&mut merged, &resolved);
                                            },
                                            Err(e) => {
                                                return Err(e);
                                            },
                                        }
                                        j = j + 1;
                                    }
                                    proof {
                                        assert(fviews.skip(files@.len() as int) =~= Seq::<
                                            SpecSourceFile,
                                        >::empty());
                                    }
                                    Ok(Value::Mapping(merged))
                                }
                            },
                        }
                    },
                    Some(_) => Err(ProcessError::MalformedInclude),
                    None => Err(ProcessError::MalformedInclude),
                }
            } else {
                let ghost src = view_entries(entries@);
                proof {
                    lemma_view_entries(entries@);
                    assert(src.skip(0) =~= src);
                }
                let mut out: Vec<(Value, Value)> = Vec::new();
                let mut i: usize = 0;
                while i < entries.len()
                    invariant
                        i <= entries.len(),
                        spec_including_entries(src, base_path@, table@, fuel as nat)
                            == spec_entries_join(
                            view_entries(out@),
                            spec_including_entries(
                                src.skip(i as int),
                                base_path@,
                                table@,
                                fuel as nat,
                            ),
                        ),
                    decreases entries.len() - i,
                {
                    proof {
                        assert(decreases_to!(*yaml => *entries));
                        assert(decreases_to!(*entries => entries@));
                        assert(decreases_to!(entries@ => entries@[i as int]));
                        assert(decreases_to!(entries@[i as int] => entries@[i as int].1));
                        assert(src.skip(i as int).first() == src[i as int]);
                        assert(src.skip(i as int).drop_first() =~= src.skip(i as int + 1));
                    }
                    match including(&entries[i].1, base_path, table, fuel) {
                        Ok(nv) => {
                            let ghost before = view_entries(out@);
                            let ghost prev = out@;
                            let ghost pushed = (src[i as int].0, nv@);
                            let key = entries[i].0.clone();
                            out.push((key, nv));
                            proof {
                                assert(out@.drop_last() =~= prev);
                                assert(view_entries(out@) == before.push(pushed));
                                let ghost rest = spec_including_entries(
                                    src.skip(i as int + 1),
                                    base_path@,
                                    table@,
                                    fuel as nat,
                                );
                                match rest {
                                    Ok(t) => {
                                        assert(before + (seq![pushed] + t) =~= view_entries(out@)
                                            + t);
                                    },
                                    Err(_) => {},
                                }
                            }
                        },
                        Err(e) => {
                            return Err(e);
                        },
                    }
                    i = i + 1;
                }
                proof {
                    assert(src.skip(entries@.len() as int) =~= Seq::<(SpecValue, SpecValue)>::empty());
                    assert(view_entries(out@) + Seq::<(SpecValue, SpecValue)>::empty()
                        =~= view_entries(out@));
                }
                Ok(Value::Mapping(out))
            }
        },
        _ => {
            Ok(yaml.clone())
        },
    }
}

} // verus!
