//! Target extraction: walks the metadata document along its fixed path (the
//! first package's target list) and retains, in source order, every target
//! whose kind tags hold the literal tag `"example"`. Every step of the walk
//! is fallible and answers a missing or mismatched field with a typed
//! `SchemaError` naming the field.

use vstd::prelude::*;
use vstd::string::StringExecFns;
use crate::doc::{record_get, spec_lookup, Doc};
use crate::error::LauncherError;

verus! {

/// One runnable target retained from the metadata: its name verbatim, its
/// position in the extracted sequence (0-based), and its kind tags.
#[derive(Debug)]
pub struct TargetDescriptor {
    pub name: String,
    pub ordinal: usize,
    pub kinds: Vec<String>,
}

/// The ordered slots offered to the operator. A slot is `None` once it has
/// been consumed by a successful selection.
#[derive(Debug)]
pub struct TargetList {
    pub slots: Vec<Option<TargetDescriptor>>,
}

/// What one extracted target looks like in specifications: its name and its
/// kind tags.
pub type TargetModel = (Seq<char>, Seq<Seq<char>>);

/// The kind list of a target element, when the element is a record whose
/// "kind" field is a list.
pub open spec fn kinds_of(t: Doc) -> Option<Seq<Doc>> {
    match t {
        Doc::Record(fs) => match spec_lookup(fs@, "kind"@) {
            Some(Doc::List(ks)) => Some(ks@),
            _ => None,
        },
        _ => None,
    }
}

/// The name of a target element, when the element is a record whose "name"
/// field is text.
pub open spec fn name_of(t: Doc) -> Option<Seq<char>> {
    match t {
        Doc::Record(fs) => match spec_lookup(fs@, "name"@) {
            Some(Doc::Text(s)) => Some(s@),
            _ => None,
        },
        _ => None,
    }
}

/// The text tags among a kind list's elements, in source order.
pub open spec fn tags_of(ks: Seq<Doc>) -> Seq<Seq<char>>
    decreases ks.len(),
{
    if ks.len() == 0 {
        Seq::empty()
    } else {
        let rest = tags_of(ks.drop_last());
        match ks.last() {
            Doc::Text(s) => rest.push(s@),
            _ => rest,
        }
    }
}

/// A target element is retained iff its kind list holds the text tag
/// "example".
pub open spec fn has_example_tag(ks: Seq<Doc>) -> bool {
    exists|i: int|
        0 <= i < ks.len() && ((#[trigger] ks[i]) matches Doc::Text(s) && s@ == "example"@)
}

/// The extraction over a target list: the retained targets in source order,
/// or the name of the first absent or mismatched field.
pub open spec fn spec_extract(ts: Seq<Doc>) -> Result<Seq<TargetModel>, Seq<char>>
    decreases ts.len(),
{
    if ts.len() == 0 {
        Ok(Seq::empty())
    } else {
        match spec_extract(ts.drop_last()) {
            Err(f) => Err(f),
            Ok(rest) => {
                let t = ts.last();
                match kinds_of(t) {
                    None => Err("kind"@),
                    Some(ks) => if has_example_tag(ks) {
                        match name_of(t) {
                            None => Err("name"@),
                            Some(nm) => Ok(rest.push((nm, tags_of(ks)))),
                        }
                    } else {
                        Ok(rest)
                    },
                }
            },
        }
    }
}

/// The package list of the document, when the document is a record whose
/// "packages" field is a list.
pub open spec fn packages_of(doc: Doc) -> Option<Seq<Doc>> {
    match doc {
        Doc::Record(fs) => match spec_lookup(fs@, "packages"@) {
            Some(Doc::List(ps)) => Some(ps@),
            _ => None,
        },
        _ => None,
    }
}

/// The target list of the first package, when the navigation succeeds.
pub open spec fn targets_of(doc: Doc) -> Option<Seq<Doc>> {
    match packages_of(doc) {
        Some(ps) => if ps.len() > 0 {
            match ps[0] {
                Doc::Record(pf) => match spec_lookup(pf@, "targets"@) {
                    Some(Doc::List(ts)) => Some(ts@),
                    _ => None,
                },
                _ => None,
            }
        } else {
            None
        },
        None => None,
    }
}

/// The whole extraction outcome over a document: the retained targets, or
/// the name of the first field that broke the walk.
pub open spec fn spec_outcome(doc: Doc) -> Result<Seq<TargetModel>, Seq<char>> {
    match packages_of(doc) {
        None => Err("packages"@),
        Some(ps) => if ps.len() == 0 {
            Err("packages"@)
        } else {
            match targets_of(doc) {
                None => Err("targets"@),
                Some(ts) => spec_extract(ts),
            }
        },
    }
}

/// Slot `i` holds a present descriptor for the `i`-th extracted target: the
/// same name, the same tags, and ordinal `i`.
pub open spec fn slots_model(slots: Seq<Option<TargetDescriptor>>, models: Seq<TargetModel>) -> bool {
    &&& slots.len() == models.len()
    &&& forall|i: int|
        0 <= i < slots.len() ==> ((#[trigger] slots[i]) matches Some(td) && td.name@
            == models[i].0 && td.ordinal == i && td.kinds.deep_view() == models[i].1)
}

/// Law: a target list whose elements all carry a kind list, none of which
/// holds the tag "example", extracts to the empty sequence.
pub proof fn lemma_no_examples_extracts_empty(ts: Seq<Doc>)
    requires
        forall|i: int|
            0 <= i < ts.len() ==> (kinds_of(#[trigger] ts[i]) matches Some(ks)
                && !has_example_tag(ks)),
    ensures
        spec_extract(ts) == Ok::<Seq<TargetModel>, Seq<char>>(Seq::<TargetModel>::empty()),
    decreases ts.len(),
{
    if ts.len() > 0 {
        let prev = ts.drop_last();
        assert(forall|i: int| 0 <= i < prev.len() ==> prev[i] == ts[i]);
        lemma_no_examples_extracts_empty(prev);
        assert(kinds_of(ts[ts.len() - 1]) matches Some(ks) && !has_example_tag(ks));
    }
}

/// The source positions of the example-tagged elements, in source order.
pub open spec fn example_positions(ts: Seq<Doc>) -> Seq<int>
    decreases ts.len(),
{
    if ts.len() == 0 {
        Seq::empty()
    } else {
        let rest = example_positions(ts.drop_last());
        match kinds_of(ts.last()) {
            Some(ks) => if has_example_tag(ks) {
                rest.push(ts.len() - 1)
            } else {
                rest
            },
            None => rest,
        }
    }
}

/// Stability law: when extraction succeeds, the extracted targets stand in
/// the order in which the example-tagged elements appear in the source list:
/// the positions of those elements are strictly increasing, the k-th
/// extracted target carries the name and tags of the k-th such element, and
/// every example-tagged element is accounted for.
pub proof fn lemma_extraction_stable(ts: Seq<Doc>)
    requires
        spec_extract(ts) is Ok,
    ensures
        ({
            let models = spec_extract(ts)->Ok_0;
            let pos = example_positions(ts);
            &&& pos.len() == models.len()
            &&& forall|a: int, b: int|
                #![trigger pos[a], pos[b]]
                0 <= a < b < pos.len() ==> pos[a] < pos[b]
            &&& forall|k: int|
                0 <= k < pos.len() ==> (0 <= #[trigger] pos[k] < ts.len() && (kinds_of(
                    ts[pos[k]],
                ) matches Some(ks) && has_example_tag(ks) && models[k].1 == tags_of(ks))
                    && name_of(ts[pos[k]]) == Some(models[k].0))
            &&& forall|i: int|
                0 <= i < ts.len() && (kinds_of(#[trigger] ts[i]) matches Some(ks)
                    && has_example_tag(ks)) ==> pos.contains(i)
        }),
    decreases ts.len(),
{
    if ts.len() > 0 {
        let prev = ts.drop_last();
        lemma_extraction_stable(prev);
        let pmodels = spec_extract(prev)->Ok_0;
        let ppos = example_positions(prev);
        let models = spec_extract(ts)->Ok_0;
        let pos = example_positions(ts);
        assert(forall|i: int| 0 <= i < prev.len() ==> prev[i] == ts[i]);
        let t = ts.last();
        let ks = kinds_of(t)->Some_0;
        let tagged = has_example_tag(ks);
        if tagged {
            assert(models == pmodels.push((name_of(t)->Some_0, tags_of(ks))));
            assert(pos == ppos.push(ts.len() - 1));
        } else {
            assert(models == pmodels);
            assert(pos == ppos);
        }
        assert forall|k: int| 0 <= k < pos.len() implies (0 <= #[trigger] pos[k] < ts.len() && (
        kinds_of(ts[pos[k]]) matches Some(ks2) && has_example_tag(ks2) && models[k].1 == tags_of(
            ks2,
        )) && name_of(ts[pos[k]]) == Some(models[k].0)) by {
            if k < ppos.len() {
                assert(pos[k] == ppos[k]);
                assert(models[k] == pmodels[k]);
                assert(prev[ppos[k]] == ts[pos[k]]);
            } else {
                assert(pos[k] == ts.len() - 1);
            }
        }
        assert forall|i: int|
            0 <= i < ts.len() && (kinds_of(#[trigger] ts[i]) matches Some(ks2)
                && has_example_tag(ks2)) implies pos.contains(i) by {
            if i < ts.len() - 1 {
                assert(prev[i] == ts[i]);
                assert(ppos.contains(i));
                let idx = choose|idx: int| 0 <= idx < ppos.len() && ppos[idx] == i;
                assert(pos[idx] == i);
            } else {
                assert(tagged);
                assert(pos[pos.len() - 1] == i);
            }
        }
    }
}

proof fn lemma_extract_prefix_err(ts: Seq<Doc>, k: int)
    requires
        0 <= k <= ts.len(),
        spec_extract(ts.take(k)) is Err,
    ensures
        spec_extract(ts) == spec_extract(ts.take(k)),
    decreases ts.len() - k,
{
    if k == ts.len() {
        assert(ts.take(k) =~= ts);
    } else {
        assert(ts.take(k + 1).drop_last() =~= ts.take(k));
        lemma_extract_prefix_err(ts, k + 1);
    }
}

/// Extracts the example targets of `doc`, in source order, as the slots
/// offered to the operator; or names the first metadata field that was
/// absent or of the wrong shape.
pub fn extract_examples(doc: &Doc) -> (r: Result<TargetList, LauncherError>)
    ensures
        match r {
            Ok(tl) => spec_outcome(*doc) matches Ok(models) && slots_model(tl.slots@, models),
            Err(e) => {
                &&& spec_outcome(*doc) matches Err(f)
                &&& e matches LauncherError::SchemaError(field) && field@ == f
            },
        },
{
    let packages_key = String::from_str("packages");
    let fs = match doc {
        Doc::Record(fs) => fs,
        _ => {
            return Err(LauncherError::SchemaError(String::from_str("packages")));
        },
    };
    let ps = match record_get(fs, &packages_key) {
        Some(Doc::List(ps)) => ps,
        _ => {
            return Err(LauncherError::SchemaError(String::from_str("packages")));
        },
    };
    if ps.len() == 0 {
        return Err(LauncherError::SchemaError(String::from_str("packages")));
    }
    let targets_key = String::from_str("targets");
    let pf = match &ps[0] {
        Doc::Record(pf) => pf,
        _ => {
            return Err(LauncherError::SchemaError(String::from_str("targets")));
        },
    };
    let ts = match record_get(pf, &targets_key) {
        Some(Doc::List(ts)) => ts,
        _ => {
            return Err(LauncherError::SchemaError(String::from_str("targets")));
        },
    };
    proof {
        assert(spec_outcome(*doc) == spec_extract(ts@));
    }
    let kind_key = String::from_str("kind");
    let name_key = String::from_str("name");
    let example_tag = String::from_str("example");
    let mut slots: Vec<Option<TargetDescriptor>> = Vec::new();
    let mut j: usize = 0;
    proof {
        assert(ts@.take(0) =~= Seq::<Doc>::empty());
    }
    while j < ts.len()
        invariant
            0 <= j <= ts@.len(),
            kind_key@ == "kind"@,
            name_key@ == "name"@,
            example_tag@ == "example"@,
            spec_outcome(*doc) == spec_extract(ts@),
            spec_extract(ts@.take(j as int)) matches Ok(models) && slots_model(slots@, models),
        decreases ts@.len() - j,
    {
        let ghost prefix_models = spec_extract(ts@.take(j as int))->Ok_0;
        proof {
            assert(ts@.take(j + 1).drop_last() =~= ts@.take(j as int));
            assert(ts@.take(j + 1).last() == ts@[j as int]);
        }
        let t = &ts[j];
        let tf = match t {
            Doc::Record(tf) => tf,
            _ => {
                proof {
                    lemma_extract_prefix_err(ts@, j + 1);
                }
                return Err(LauncherError::SchemaError(String::from_str("kind")));
            },
        };
        let ks = match record_get(tf, &kind_key) {
            Some(Doc::List(ks)) => ks,
            _ => {
                proof {
                    lemma_extract_prefix_err(ts@, j + 1);
                }
                return Err(LauncherError::SchemaError(String::from_str("kind")));
            },
        };
        proof {
            assert(kinds_of(ts@[j as int]) == Some(ks@));
        }
        let mut tags: Vec<String> = Vec::new();
        let mut found = false;
        let mut k: usize = 0;
        proof {
            assert(ks@.take(0) =~= Seq::<Doc>::empty());
            assert(tags.deep_view() =~= tags_of(ks@.take(0)));
        }
        while k < ks.len()
            invariant
                0 <= k <= ks@.len(),
                example_tag@ == "example"@,
                tags.deep_view() == tags_of(ks@.take(k as int)),
                found == has_example_tag(ks@.take(k as int)),
            decreases ks@.len() - k,
        {
            proof {
                assert(ks@.take(k + 1).drop_last() =~= ks@.take(k as int));
                assert(ks@.take(k + 1).last() == ks@[k as int]);
            }
            let ghost old_tags = tags.deep_view();
            let ghost old_found = found;
            match &ks[k] {
                Doc::Text(s) => {
                    if *s == example_tag {
                        found = true;
                    }
                    tags.push(s.clone());
                    proof {
                        assert(tags.deep_view() =~= old_tags.push(s@));
                    }
                },
                _ => {},
            }
            proof {
                let next = ks@.take(k + 1);
                if found {
                    if old_found {
                        let i = choose|i: int|
                            0 <= i < k && ((#[trigger] ks@.take(k as int)[i]) matches Doc::Text(
                                s,
                            ) && s@ == "example"@);
                        assert(next[i] == ks@.take(k as int)[i]);
                        assert(has_example_tag(next));
                    } else {
                        assert(next[k as int] == ks@[k as int]);
                        assert(has_example_tag(next));
                    }
                } else {
                    assert forall|i: int| 0 <= i < next.len() implies !((#[trigger] next[i])
                        matches Doc::Text(s) && s@ == "example"@) by {
                        if i < k {
                            assert(next[i] == ks@.take(k as int)[i]);
                        } else {
                            assert(next[i] == ks@[k as int]);
                        }
                    }
                }
            }
            k = k + 1;
        }
        proof {
            assert(ks@.take(ks@.len() as int) =~= ks@);
        }
        if found {
            let nm = match record_get(tf, &name_key) {
                Some(Doc::Text(nm)) => nm,
                _ => {
                    proof {
                        lemma_extract_prefix_err(ts@, j + 1);
                    }
                    return Err(LauncherError::SchemaError(String::from_str("name")));
                },
            };
            proof {
                assert(name_of(ts@[j as int]) == Some(nm@));
            }
            let td = TargetDescriptor { name: nm.clone(), ordinal: slots.len(), kinds: tags };
            let ghost old_slots = slots@;
            slots.push(Some(td));
            proof {
                let models = prefix_models.push((nm@, tags_of(ks@)));
                assert(spec_extract(ts@.take(j + 1)) == Ok::<Seq<TargetModel>, Seq<char>>(models));
                assert forall|i: int| 0 <= i < slots@.len() implies (#[trigger] slots@[i])
                    matches Some(td2) && td2.name@ == models[i].0 && td2.ordinal == i
                    && td2.kinds.deep_view() == models[i].1 by {
                    if i < old_slots.len() {
                        assert(slots@[i] == old_slots[i]);
                    }
                }
            }
        }
        j = j + 1;
    }
    proof {
        assert(ts@.take(ts@.len() as int) =~= ts@);
    }
    Ok(TargetList { slots })
}

} // verus!
