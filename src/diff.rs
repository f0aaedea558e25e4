//! Changes between two locks.
use vstd::prelude::*;

use crate::lock::{BaseConfig, InstallationConfig, SingleVersioned, TuxWranglerConfigLocked};
use crate::update::sv_view;

verus! {

/// A titled list of changes, with nested lists.
pub struct Changes {
    pub title: String,
    pub diffs: Vec<Diff<String>>,
    pub inner: Vec<Changes>,
}

/// The changes between two locks.
#[derive(Debug)]
pub struct LockChanges {
    pub registry: Diff<String>,
    pub bases: Vec<Diff<SingleVersioned>>,
    pub features: Vec<Diff<SingleVersioned>>,
    pub build: Vec<BuildDiff>,
}

/// The changes of one build.
#[derive(Debug)]
pub struct BuildDiff {
    pub tags: Vec<Diff<String>>,
}

/// How a value changed.
#[derive(Debug)]
pub enum Diff<T> {
    Same(T),
    Added(T),
    Removed(T),
    Changed(T, T),
}

impl Diff<String> {
    /// `Same` when the values agree, otherwise `Changed`.
    pub fn diff(from: String, to: String) -> (r: Diff<String>)
        ensures
            from@ == to@ ==> (r matches Diff::Same(x) && x@ == from@),
            from@ != to@ ==> (r matches Diff::Changed(a, b) && a@ == from@ && b@ == to@),
    {
        if from == to {
            Diff::Same(from)
        } else {
            Diff::Changed(from, to)
        }
    }

    /// The change between optional values: nothing when neither is there.
    pub fn option_diff(from: Option<String>, to: Option<String>) -> (r: Option<Diff<String>>)
        ensures
            from is None && to is None ==> r is None,
            from is None ==> (to matches Some(t) ==> (r matches Some(Diff::Added(x)) && x@ == t@)),
            to is None ==> (from matches Some(f) ==> (r matches Some(Diff::Removed(x)) && x@ == f@)),
            from is Some && to is Some ==> (r matches Some(d) && (d is Same || d is Changed)),
    {
        match (from, to) {
            (None, None) => None,
            (None, Some(t)) => Some(Diff::Added(t)),
            (Some(t), None) => Some(Diff::Removed(t)),
            (Some(f), Some(t)) => Some(Self::diff(f, t)),
        }
    }
}

pub open spec fn keys_of(v: Seq<SingleVersioned>) -> Set<(Seq<char>, Seq<char>)> {
    v.map_values(|s: SingleVersioned| sv_view(s)).to_set()
}

fn contains_key(v: &Vec<SingleVersioned>, key: &SingleVersioned) -> (r: bool)
    ensures
        r == keys_of(v@).contains(sv_view(*key)),
{
    let mut i: usize = 0;
    while i < v.len()
        invariant
            i <= v.len(),
            forall|j: int| 0 <= j < i ==> sv_view(#[trigger] v@[j]) != sv_view(*key),
        decreases v.len() - i,
    {
        if v[i].name == key.name && v[i].version == key.version {
            assert(v@.map_values(|s: SingleVersioned| sv_view(s))[i as int] == sv_view(*key));
            return true;
        }
        i += 1;
    }
    assert(!keys_of(v@).contains(sv_view(*key))) by {
        if keys_of(v@).contains(sv_view(*key)) {
            let vs = v@.map_values(|s: SingleVersioned| sv_view(s));
            let j = choose|j: int| 0 <= j < vs.len() && #[trigger] vs[j] == sv_view(*key);
            assert(sv_view(v@[j]) != sv_view(*key));
        }
    }
    false
}

/// What a set change says of a name with version.
pub open spec fn change_ok(d: Diff<SingleVersioned>, from: Seq<SingleVersioned>, to: Seq<SingleVersioned>) -> bool {
    match d {
        Diff::Added(x) => keys_of(to).contains(sv_view(x)) && !keys_of(from).contains(sv_view(x)),
        Diff::Removed(x) => keys_of(from).contains(sv_view(x)) && !keys_of(to).contains(sv_view(x)),
        Diff::Same(x) => keys_of(from).contains(sv_view(x)) && keys_of(to).contains(sv_view(x)),
        Diff::Changed(_, _) => false,
    }
}

proof fn lemma_push_contains<T>(s: Seq<T>, x: T, d: T)
    ensures
        s.contains(d) ==> s.push(x).contains(d),
        s.push(x).contains(x),
{
    if s.contains(d) {
        let i = choose|i: int| 0 <= i < s.len() && s[i] == d;
        assert(s.push(x)[i] == d);
    }
    assert(s.push(x)[s.len() as int] == x);
}

/// Set changes from one list of names with versions to another: each entry of
/// `to` missing from `from` is `Added`, each of `from` missing from `to` is
/// `Removed`, each of `from` also in `to` is `Same`.
pub fn set_changes(from: &Vec<SingleVersioned>, to: &Vec<SingleVersioned>) -> (r: Vec<Diff<SingleVersioned>>)
    ensures
        forall|i: int| 0 <= i < r@.len() ==> change_ok(#[trigger] r@[i], from@, to@),
        forall|j: int| 0 <= j < to@.len() && !keys_of(from@).contains(sv_view(#[trigger] to@[j])) ==> r@.contains(Diff::Added(to@[j])),
        forall|j: int| 0 <= j < from@.len() ==> r@.contains(Diff::Removed(#[trigger] from@[j])) || r@.contains(Diff::Same(from@[j])),
{
    let mut r: Vec<Diff<SingleVersioned>> = Vec::new();
    let mut j: usize = 0;
    while j < to.len()
        invariant
            j <= to.len(),
            forall|i: int| 0 <= i < r@.len() ==> change_ok(#[trigger] r@[i], from@, to@),
            forall|t: int| 0 <= t < j && !keys_of(from@).contains(sv_view(#[trigger] to@[t])) ==> r@.contains(Diff::Added(to@[t])),
        decreases to.len() - j,
    {
        assert(to@.map_values(|s: SingleVersioned| sv_view(s))[j as int] == sv_view(to@[j as int]));
        let ghost before = r@;
        if !contains_key(from, &to[j]) {
            r.push(Diff::Added(to[j].duplicate()));
            proof {
                assert forall|t: int| 0 <= t < j + 1 && !keys_of(from@).contains(sv_view(#[trigger] to@[t])) implies r@.contains(Diff::Added(to@[t])) by {
                    lemma_push_contains(before, Diff::Added(to@[j as int]), Diff::Added(to@[t]));
                }
            }
        }
        j += 1;
    }
    let mut j: usize = 0;
    while j < from.len()
        invariant
            j <= from.len(),
            forall|i: int| 0 <= i < r@.len() ==> change_ok(#[trigger] r@[i], from@, to@),
            forall|t: int| 0 <= t < to@.len() && !keys_of(from@).contains(sv_view(#[trigger] to@[t])) ==> r@.contains(Diff::Added(to@[t])),
            forall|t: int| 0 <= t < j ==> r@.contains(Diff::Removed(#[trigger] from@[t])) || r@.contains(Diff::Same(from@[t])),
        decreases from.len() - j,
    {
        assert(from@.map_values(|s: SingleVersioned| sv_view(s))[j as int] == sv_view(from@[j as int]));
        let ghost before = r@;
        let d = if contains_key(to, &from[j]) {
            Diff::Same(from[j].duplicate())
        } else {
            Diff::Removed(from[j].duplicate())
        };
        let ghost dv = d;
        r.push(d);
        proof {
            assert forall|t: int| 0 <= t < to@.len() && !keys_of(from@).contains(sv_view(#[trigger] to@[t])) implies r@.contains(Diff::Added(to@[t])) by {
                lemma_push_contains(before, dv, Diff::Added(to@[t]));
            }
            assert forall|t: int| 0 <= t < j + 1 implies r@.contains(Diff::Removed(#[trigger] from@[t])) || r@.contains(Diff::Same(from@[t])) by {
                lemma_push_contains(before, dv, Diff::Removed(from@[t]));
                lemma_push_contains(before, dv, Diff::Same(from@[t]));
            }
        }
        j += 1;
    }
    r
}

fn base_keys(bases: &Vec<BaseConfig>) -> (r: Vec<SingleVersioned>)
    ensures
        r@.len() == bases@.len(),
        forall|i: int| 0 <= i < r@.len() ==> #[trigger] sv_view(r@[i]) == (bases@[i].name@, bases@[i].version@),
{
    let mut r: Vec<SingleVersioned> = Vec::new();
    let mut i: usize = 0;
    while i < bases.len()
        invariant
            i <= bases.len(),
            r@.len() == i,
            forall|j: int| 0 <= j < i ==> #[trigger] sv_view(r@[j]) == (bases@[j].name@, bases@[j].version@),
        decreases bases.len() - i,
    {
        r.push(SingleVersioned { name: bases[i].name.clone(), version: bases[i].version.clone() });
        i += 1;
    }
    r
}

fn feature_keys(features: &Vec<InstallationConfig>) -> (r: Vec<SingleVersioned>)
    ensures
        r@.len() == features@.len(),
        forall|i: int| 0 <= i < r@.len() ==> #[trigger] sv_view(r@[i]) == (features@[i].name@, features@[i].version@),
{
    let mut r: Vec<SingleVersioned> = Vec::new();
    let mut i: usize = 0;
    while i < features.len()
        invariant
            i <= features.len(),
            r@.len() == i,
            forall|j: int| 0 <= j < i ==> #[trigger] sv_view(r@[j]) == (features@[j].name@, features@[j].version@),
        decreases features.len() - i,
    {
        r.push(SingleVersioned { name: features[i].name.clone(), version: features[i].version.clone() });
        i += 1;
    }
    r
}

/// The name and version of each entry.
pub open spec fn base_key_seq(bases: Seq<BaseConfig>) -> Seq<(Seq<char>, Seq<char>)> {
    bases.map_values(|b: BaseConfig| (b.name@, b.version@))
}

/// The name and version of each entry.
pub open spec fn feature_key_seq(features: Seq<InstallationConfig>) -> Seq<(Seq<char>, Seq<char>)> {
    features.map_values(|f: InstallationConfig| (f.name@, f.version@))
}

/// Some change adds the key.
pub open spec fn adds(ds: Seq<Diff<SingleVersioned>>, key: (Seq<char>, Seq<char>)) -> bool {
    exists|i: int| 0 <= i < ds.len() && (#[trigger] ds[i]) is Added && sv_view(ds[i]->Added_0) == key
}

/// Some change removes or keeps the key.
pub open spec fn removes_or_keeps(ds: Seq<Diff<SingleVersioned>>, key: (Seq<char>, Seq<char>)) -> bool {
    exists|i: int|
        0 <= i < ds.len() && (((#[trigger] ds[i]) is Removed && sv_view(ds[i]->Removed_0) == key) || (ds[i] is Same
            && sv_view(ds[i]->Same_0) == key))
}

/// The set changes between two lists of keys: every change fits the two key
/// sets; every key only in `to` is added; every key of `from` is removed or kept.
pub open spec fn set_diff_ok(ds: Seq<Diff<SingleVersioned>>, from: Seq<(Seq<char>, Seq<char>)>, to: Seq<(Seq<char>, Seq<char>)>) -> bool {
    &&& forall|i: int| 0 <= i < ds.len() ==> match #[trigger] ds[i] {
        Diff::Added(x) => to.to_set().contains(sv_view(x)) && !from.to_set().contains(sv_view(x)),
        Diff::Removed(x) => from.to_set().contains(sv_view(x)) && !to.to_set().contains(sv_view(x)),
        Diff::Same(x) => from.to_set().contains(sv_view(x)) && to.to_set().contains(sv_view(x)),
        Diff::Changed(_, _) => false,
    }
    &&& forall|j: int| 0 <= j < to.len() && !from.to_set().contains(to[j]) ==> #[trigger] adds(ds, to[j])
    &&& forall|j: int| 0 <= j < from.len() ==> #[trigger] removes_or_keeps(ds, from[j])
}

proof fn lemma_set_changes_fit(
    ds: Seq<Diff<SingleVersioned>>,
    from: Seq<SingleVersioned>,
    to: Seq<SingleVersioned>,
    fk: Seq<(Seq<char>, Seq<char>)>,
    tk: Seq<(Seq<char>, Seq<char>)>,
)
    requires
        fk == from.map_values(|s: SingleVersioned| sv_view(s)),
        tk == to.map_values(|s: SingleVersioned| sv_view(s)),
        forall|i: int| 0 <= i < ds.len() ==> change_ok(#[trigger] ds[i], from, to),
        forall|j: int| 0 <= j < to.len() && !keys_of(from).contains(sv_view(#[trigger] to[j])) ==> ds.contains(Diff::Added(to[j])),
        forall|j: int| 0 <= j < from.len() ==> ds.contains(Diff::Removed(#[trigger] from[j])) || ds.contains(Diff::Same(from[j])),
    ensures
        set_diff_ok(ds, fk, tk),
{
    assert forall|j: int| 0 <= j < tk.len() && !fk.to_set().contains(tk[j]) implies #[trigger] adds(ds, tk[j]) by {
        assert(tk[j] == sv_view(to[j]));
        let i = choose|i: int| 0 <= i < ds.len() && ds[i] == Diff::Added(to[j]);
        assert(ds[i] is Added);
    }
    assert forall|j: int| 0 <= j < fk.len() implies #[trigger] removes_or_keeps(ds, fk[j]) by {
        assert(fk[j] == sv_view(from[j]));
        if ds.contains(Diff::Removed(from[j])) {
            let i = choose|i: int| 0 <= i < ds.len() && ds[i] == Diff::Removed(from[j]);
            assert(ds[i] is Removed);
        } else {
            let i = choose|i: int| 0 <= i < ds.len() && ds[i] == Diff::Same(from[j]);
            assert(ds[i] is Same);
        }
    }
}

impl TuxWranglerConfigLocked {
    /// The changes from this lock to `next`: the registry, and the bases and
    /// features added, removed or kept, by name and version.
    pub fn update_changes(self, next: Self) -> (r: LockChanges)
        ensures
            self.registry@ == next.registry@ ==> (r.registry matches Diff::Same(x) && x@ == self.registry@),
            self.registry@ != next.registry@ ==> (r.registry matches Diff::Changed(a, b) && a@ == self.registry@ && b@ == next.registry@),
            set_diff_ok(r.bases@, base_key_seq(self.bases@), base_key_seq(next.bases@)),
            set_diff_ok(r.features@, feature_key_seq(self.features@), feature_key_seq(next.features@)),
            r.build@.len() == 0,
    {
        let from_bases = base_keys(&self.bases);
        let to_bases = base_keys(&next.bases);
        let from_features = feature_keys(&self.features);
        let to_features = feature_keys(&next.features);
        let bases = set_changes(&from_bases, &to_bases);
        let features = set_changes(&from_features, &to_features);
        proof {
            let m = |s: SingleVersioned| sv_view(s);
            assert(from_bases@.map_values(m) =~= base_key_seq(self.bases@));
            assert(to_bases@.map_values(m) =~= base_key_seq(next.bases@));
            assert(from_features@.map_values(m) =~= feature_key_seq(self.features@));
            assert(to_features@.map_values(m) =~= feature_key_seq(next.features@));
            lemma_set_changes_fit(bases@, from_bases@, to_bases@, base_key_seq(self.bases@), base_key_seq(next.bases@));
            lemma_set_changes_fit(features@, from_features@, to_features@, feature_key_seq(self.features@), feature_key_seq(next.features@));
        }
        LockChanges {
            registry: Diff::diff(self.registry, next.registry),
            bases,
            features,
            build: Vec::new(),
        }
    }
}

} // verus!
