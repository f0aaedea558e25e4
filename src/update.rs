//! Building the lock: version tables, pinned bases, populated features, and
//! the Cartesian expansion of builds.
use vstd::prelude::*;

use itertools::Itertools;

use crate::config::{BaseDefinition, Build, BuildDefinition, FeatureDefinition, TuxWranglerConfig, VersionedDefinition};
use crate::error::Error;
use crate::lock::{BaseConfig, ImageIdentifier, InstallationConfig, SingleBuild, SingleVersioned, TuxWranglerConfigLocked};
use crate::order::{is_index_permutation, is_stable_order, keys_view, stable_sorted_positions, texts_le};
use crate::resolve::{
    installation_renders, actual_version, image_identifier, image_registry, registry_spec, resolved_spec, step_rendered, tag_spec,
};
use crate::template::{is_date_stamp, render, render_name_spec, render_name_template, render_spec, utc_date_stamp};
use crate::text::{join, join_spec, push_text, strings_view};

verus! {

/// A name and a version, as texts.
pub open spec fn sv_view(s: SingleVersioned) -> (Seq<char>, Seq<char>) {
    (s.name@, s.version@)
}

pub open spec fn svs_view(v: Seq<SingleVersioned>) -> Seq<(Seq<char>, Seq<char>)> {
    v.map_values(|s: SingleVersioned| sv_view(s))
}

/// The versions declared for a name, over all definitions of it, in order.
pub open spec fn versions_named(defs: Seq<VersionedDefinition>, name: Seq<char>) -> Seq<Seq<char>>
    decreases defs.len(),
{
    if defs.len() == 0 {
        Seq::empty()
    } else {
        versions_named(defs.drop_last(), name) + if defs.last().versioned.name@ == name {
            strings_view(defs.last().versioned.versions@)
        } else {
            Seq::empty()
        }
    }
}

pub open spec fn base_defs(config: TuxWranglerConfig) -> Seq<VersionedDefinition> {
    config.bases@.map_values(|b: BaseDefinition| b.definition)
}

pub open spec fn feature_defs(config: TuxWranglerConfig) -> Seq<VersionedDefinition> {
    config.features@.map_values(|f: FeatureDefinition| f.definition)
}

/// The `(name, version)` pairs an entry of a build stands for.
pub open spec fn expand_one(bd: BuildDefinition, defs: Seq<VersionedDefinition>) -> Seq<(Seq<char>, Seq<char>)> {
    match bd {
        BuildDefinition::Named(n) => versions_named(defs, n@).map_values(|v: Seq<char>| (n@, v)),
        BuildDefinition::Versioned(v) => strings_view(v.versions@).map_values(|x: Seq<char>| (v.name@, x)),
    }
}

/// The pairs a list of entries stands for, in order.
pub open spec fn expand_all(bds: Seq<BuildDefinition>, defs: Seq<VersionedDefinition>) -> Seq<(Seq<char>, Seq<char>)>
    decreases bds.len(),
{
    if bds.len() == 0 {
        Seq::empty()
    } else {
        expand_all(bds.drop_last(), defs) + expand_one(bds.last(), defs)
    }
}

/// Each prefix extended by each index below `n`.
pub open spec fn extend_all(prefixes: Seq<Seq<int>>, n: nat) -> Seq<Seq<int>>
    decreases prefixes.len(),
{
    if prefixes.len() == 0 {
        Seq::empty()
    } else {
        extend_all(prefixes.drop_last(), n) + Seq::new(n, |i: int| prefixes.last().push(i))
    }
}

/// Every choice of one index below each size, the last position varying
/// fastest; a single empty choice for no sizes.
pub open spec fn index_product(sizes: Seq<nat>) -> Seq<Seq<int>>
    decreases sizes.len(),
{
    if sizes.len() == 0 {
        seq![Seq::empty()]
    } else {
        extend_all(index_product(sizes.drop_last()), sizes.last())
    }
}

/// The product of the sizes.
pub open spec fn product(sizes: Seq<nat>) -> nat
    decreases sizes.len(),
{
    if sizes.len() == 0 {
        1
    } else {
        product(sizes.drop_last()) * sizes.last()
    }
}

pub open spec fn index_seqs_view(v: Seq<Vec<usize>>) -> Seq<Seq<int>> {
    v.map_values(|t: Vec<usize>| t@.map_values(|i: usize| i as int))
}

pub open spec fn sizes_view(v: Seq<usize>) -> Seq<nat> {
    v.map_values(|n: usize| n as nat)
}

/// Relies on `itertools::Itertools::multi_cartesian_product` over the ranges
/// `0..sizes[i]`: every combination, the last position varying fastest, and a
/// single empty combination when there are no positions.
#[verifier::external_body]
fn index_combinations(sizes: &Vec<usize>) -> (r: Vec<Vec<usize>>)
    ensures
        index_seqs_view(r@) == index_product(sizes_view(sizes@)),
{
    sizes.iter().map(|n| 0..*n).multi_cartesian_product().collect()
}

/// Each base paired with each feature tuple, base-major.
pub open spec fn pair_up<A, B>(bases: Seq<A>, tuples: Seq<B>) -> Seq<(A, B)>
    decreases bases.len(),
{
    if bases.len() == 0 {
        Seq::empty()
    } else {
        pair_up(bases.drop_last(), tuples) + tuples.map_values(|t: B| (bases.last(), t))
    }
}

/// The feature groups of a build, each expanded.
pub open spec fn expanded_groups(config: TuxWranglerConfig, build: Build) -> Seq<Seq<(Seq<char>, Seq<char>)>> {
    build.features@.map_values(|g: Vec<BuildDefinition>| expand_all(g@, feature_defs(config)))
}

/// The sizes of the expanded feature groups.
pub open spec fn group_sizes(config: TuxWranglerConfig, build: Build) -> Seq<nat> {
    expanded_groups(config, build).map_values(|g: Seq<(Seq<char>, Seq<char>)>| g.len())
}

/// The feature tuples of a build: one pair from each group, in product order.
pub open spec fn feature_tuples(config: TuxWranglerConfig, build: Build) -> Seq<Seq<(Seq<char>, Seq<char>)>> {
    let groups = expanded_groups(config, build);
    index_product(group_sizes(config, build)).map_values(
        |t: Seq<int>| Seq::new(t.len(), |d: int| groups[d][t[d]]),
    )
}

/// The `(base, features)` combinations of a build: bases in order, and for each
/// the feature tuples in order.
pub open spec fn build_combos(config: TuxWranglerConfig, build: Build) -> Seq<((Seq<char>, Seq<char>), Seq<(Seq<char>, Seq<char>)>)> {
    pair_up(expand_all(build.bases@, base_defs(config)), feature_tuples(config, build))
}

proof fn lemma_extend_all_len(prefixes: Seq<Seq<int>>, n: nat)
    ensures
        extend_all(prefixes, n).len() == prefixes.len() * n,
    decreases prefixes.len(),
{
    if prefixes.len() > 0 {
        lemma_extend_all_len(prefixes.drop_last(), n);
        assert((prefixes.len() - 1) * n + n == prefixes.len() * n) by (nonlinear_arith);
    }
}

proof fn lemma_index_product_len(sizes: Seq<nat>)
    ensures
        index_product(sizes).len() == product(sizes),
    decreases sizes.len(),
{
    if sizes.len() > 0 {
        lemma_index_product_len(sizes.drop_last());
        lemma_extend_all_len(index_product(sizes.drop_last()), sizes.last());
    }
}

proof fn lemma_pair_up_len<A, B>(bases: Seq<A>, tuples: Seq<B>)
    ensures
        pair_up(bases, tuples).len() == bases.len() * tuples.len(),
    decreases bases.len(),
{
    if bases.len() > 0 {
        lemma_pair_up_len(bases.drop_last(), tuples);
        assert((bases.len() - 1) * tuples.len() + tuples.len() == bases.len() * tuples.len()) by (nonlinear_arith);
    }
}

/// A build expands to as many combinations as it has bases times the product
/// of the sizes of its feature groups, with every entry standing for all the
/// versions that it names.
pub proof fn lemma_build_combination_count(config: TuxWranglerConfig, build: Build)
    ensures
        build_combos(config, build).len() == expand_all(build.bases@, base_defs(config)).len() * product(
            group_sizes(config, build),
        ),
{
    lemma_index_product_len(group_sizes(config, build));
    lemma_pair_up_len(expand_all(build.bases@, base_defs(config)), feature_tuples(config, build));
}

/// Appends copies of the strings.
fn push_all(r: &mut Vec<String>, vs: &Vec<String>)
    ensures
        strings_view(final(r)@) == strings_view(old(r)@) + strings_view(vs@),
{
    let ghost start = strings_view(r@);
    let ghost n0 = r@.len();
    let mut j: usize = 0;
    while j < vs.len()
        invariant
            j <= vs.len(),
            n0 == start.len(),
            r@.len() == n0 + j,
            forall|t: int| 0 <= t < n0 ==> (#[trigger] r@[t])@ == start[t],
            forall|t: int| 0 <= t < j ==> (#[trigger] r@[n0 + t])@ == vs@[t]@,
        decreases vs.len() - j,
    {
        r.push(vs[j].clone());
        j += 1;
    }
    assert forall|t: int| 0 <= t < r@.len() implies strings_view(r@)[t] == (start + strings_view(vs@))[t] by {
        if t >= n0 {
            assert(r@[n0 + (t - n0)]@ == vs@[t - n0]@);
        }
    }
    assert(strings_view(r@) =~= start + strings_view(vs@));
}

impl TuxWranglerConfig {
    /// All declared versions of the bases of the given name, in order.
    pub fn base_versions(&self, target_base: &String) -> (r: Vec<String>)
        ensures
            strings_view(r@) == versions_named(base_defs(*self), target_base@),
    {
        let ghost defs = base_defs(*self);
        let mut r: Vec<String> = Vec::new();
        let mut i: usize = 0;
        while i < self.bases.len()
            invariant
                i <= self.bases.len(),
                defs == base_defs(*self),
                strings_view(r@) == versions_named(defs.subrange(0, i as int), target_base@),
            decreases self.bases.len() - i,
        {
            assert(defs.subrange(0, i + 1).drop_last() == defs.subrange(0, i as int));
            assert(defs.subrange(0, i + 1).last() == self.bases@[i as int].definition);
            if self.bases[i].definition.versioned.name == *target_base {
                push_all(&mut r, &self.bases[i].definition.versioned.versions);
            } else {
                assert(strings_view(r@) =~= versions_named(defs.subrange(0, i + 1), target_base@));
            }
            i += 1;
        }
        assert(defs.subrange(0, i as int) == defs);
        r
    }

    /// All declared versions of the features of the given name, in order.
    pub fn feature_versions(&self, target_feature: &String) -> (r: Vec<String>)
        ensures
            strings_view(r@) == versions_named(feature_defs(*self), target_feature@),
    {
        let ghost defs = feature_defs(*self);
        let mut r: Vec<String> = Vec::new();
        let mut i: usize = 0;
        while i < self.features.len()
            invariant
                i <= self.features.len(),
                defs == feature_defs(*self),
                strings_view(r@) == versions_named(defs.subrange(0, i as int), target_feature@),
            decreases self.features.len() - i,
        {
            assert(defs.subrange(0, i + 1).drop_last() == defs.subrange(0, i as int));
            assert(defs.subrange(0, i + 1).last() == self.features@[i as int].definition);
            if self.features[i].definition.versioned.name == *target_feature {
                push_all(&mut r, &self.features[i].definition.versioned.versions);
            } else {
                assert(strings_view(r@) =~= versions_named(defs.subrange(0, i + 1), target_feature@));
            }
            i += 1;
        }
        assert(defs.subrange(0, i as int) == defs);
        r
    }
}

/// The combinations' views.
pub open spec fn combos_view(v: Seq<(SingleVersioned, Vec<SingleVersioned>)>) -> Seq<((Seq<char>, Seq<char>), Seq<(Seq<char>, Seq<char>)>)> {
    v.map_values(|c: (SingleVersioned, Vec<SingleVersioned>)| (sv_view(c.0), svs_view(c.1@)))
}

proof fn lemma_extend_all_elems(prefixes: Seq<Seq<int>>, n: nat, k: int) -> (ji: (int, int))
    requires
        0 <= k < extend_all(prefixes, n).len(),
    ensures
        0 <= ji.0 < prefixes.len(),
        0 <= ji.1 < n,
        extend_all(prefixes, n)[k] == prefixes[ji.0].push(ji.1),
    decreases prefixes.len(),
{
    let before = extend_all(prefixes.drop_last(), n);
    if k < before.len() {
        let ji = lemma_extend_all_elems(prefixes.drop_last(), n, k);
        assert(prefixes.drop_last()[ji.0] == prefixes[ji.0]);
        ji
    } else {
        (prefixes.len() - 1, k - before.len())
    }
}

proof fn lemma_index_product_bounds(sizes: Seq<nat>)
    ensures
        forall|k: int|
            0 <= k < index_product(sizes).len() ==> (#[trigger] index_product(sizes)[k]).len() == sizes.len()
                && forall|d: int| 0 <= d < sizes.len() ==> 0 <= #[trigger] index_product(sizes)[k][d] < sizes[d],
    decreases sizes.len(),
{
    if sizes.len() > 0 {
        let prev = sizes.drop_last();
        lemma_index_product_bounds(prev);
        assert forall|k: int| 0 <= k < index_product(sizes).len() implies (#[trigger] index_product(sizes)[k]).len() == sizes.len()
            && forall|d: int| 0 <= d < sizes.len() ==> 0 <= #[trigger] index_product(sizes)[k][d] < sizes[d] by {
            let ji = lemma_extend_all_elems(index_product(prev), sizes.last(), k);
            let t = index_product(prev)[ji.0];
            assert(index_product(sizes)[k] == t.push(ji.1));
            assert forall|d: int| 0 <= d < sizes.len() implies 0 <= #[trigger] index_product(sizes)[k][d] < sizes[d] by {
                if d < prev.len() {
                    assert(t[d] < prev[d]);
                }
            }
        }
    }
}

/// A copy of a list of names with versions.
fn duplicate_all(v: &Vec<SingleVersioned>) -> (r: Vec<SingleVersioned>)
    ensures
        r@ == v@,
{
    let mut r: Vec<SingleVersioned> = Vec::new();
    let mut i: usize = 0;
    while i < v.len()
        invariant
            i <= v.len(),
            r@ == v@.subrange(0, i as int),
        decreases v.len() - i,
    {
        r.push(v[i].duplicate());
        i += 1;
    }
    assert(v@.subrange(0, i as int) == v@);
    r
}

impl TuxWranglerConfig {
    /// The `(name, version)` pairs that entries of a build stand for: a bare
    /// name stands for all its declared versions, of the bases or of the features.
    pub fn expand_entries(&self, bds: &Vec<BuildDefinition>, of_features: bool) -> (r: Vec<SingleVersioned>)
        ensures
            svs_view(r@) == expand_all(bds@, if of_features { feature_defs(*self) } else { base_defs(*self) }),
    {
        let ghost defs = if of_features { feature_defs(*self) } else { base_defs(*self) };
        let mut r: Vec<SingleVersioned> = Vec::new();
        let mut i: usize = 0;
        while i < bds.len()
            invariant
                i <= bds.len(),
                defs == if of_features { feature_defs(*self) } else { base_defs(*self) },
                svs_view(r@) == expand_all(bds@.subrange(0, i as int), defs),
            decreases bds.len() - i,
        {
            assert(bds@.subrange(0, i + 1).drop_last() == bds@.subrange(0, i as int));
            let bd = &bds[i];
            let name = bd.name();
            let versions = match bd {
                BuildDefinition::Named(target) => if of_features {
                    self.feature_versions(target)
                } else {
                    self.base_versions(target)
                },
                BuildDefinition::Versioned(v) => crate::docker_file::clone_strings(&v.versions),
            };
            assert(strings_view(versions@).map_values(|x: Seq<char>| (name@, x)) == expand_one(*bd, defs));
            let ghost start = svs_view(r@);
            let ghost n0 = r@.len();
            let ghost vv = strings_view(versions@);
            let mut j: usize = 0;
            while j < versions.len()
                invariant
                    j <= versions.len(),
                    n0 == start.len(),
                    vv == strings_view(versions@),
                    r@.len() == n0 + j,
                    forall|t: int| 0 <= t < n0 ==> sv_view(#[trigger] r@[t]) == start[t],
                    forall|t: int| 0 <= t < j ==> sv_view(#[trigger] r@[n0 + t]) == (name@, vv[t]),
                decreases versions.len() - j,
            {
                r.push(SingleVersioned { name: name.clone(), version: versions[j].clone() });
                j += 1;
            }
            assert forall|t: int| 0 <= t < r@.len() implies svs_view(r@)[t] == (start + vv.map_values(|x: Seq<char>| (name@, x)))[t] by {
                if t >= n0 {
                    assert(sv_view(r@[n0 + (t - n0)]) == (name@, vv[t - n0]));
                }
            }
            assert(svs_view(r@) =~= start + vv.map_values(|x: Seq<char>| (name@, x)));
            i += 1;
        }
        assert(bds@.subrange(0, i as int) == bds@);
        r
    }

    /// The `(base, features)` combinations of a build: for each base in order,
    /// one feature from each group, in product order.
    pub fn expand_build(&self, build: &Build) -> (r: Vec<(SingleVersioned, Vec<SingleVersioned>)>)
        ensures
            combos_view(r@) == build_combos(*self, *build),
    {
        let bases = self.expand_entries(&build.bases, false);
        let ghost eg = expanded_groups(*self, *build);
        let mut groups: Vec<Vec<SingleVersioned>> = Vec::new();
        let mut sizes: Vec<usize> = Vec::new();
        let mut g: usize = 0;
        while g < build.features.len()
            invariant
                g <= build.features.len(),
                eg == expanded_groups(*self, *build),
                groups@.len() == g,
                sizes@.len() == g,
                forall|d: int| 0 <= d < g ==> svs_view((#[trigger] groups@[d])@) == eg[d],
                forall|d: int| 0 <= d < g ==> #[trigger] sizes@[d] == groups@[d]@.len(),
            decreases build.features.len() - g,
        {
            let group = self.expand_entries(&build.features[g], true);
            sizes.push(group.len());
            groups.push(group);
            g += 1;
        }
        assert(sizes_view(sizes@) =~= group_sizes(*self, *build));
        let combos = index_combinations(&sizes);
        proof { lemma_index_product_bounds(sizes_view(sizes@)); }
        let ghost ft = feature_tuples(*self, *build);
        let mut tuples: Vec<Vec<SingleVersioned>> = Vec::new();
        let mut k: usize = 0;
        while k < combos.len()
            invariant
                k <= combos.len(),
                ft == feature_tuples(*self, *build),
                eg == expanded_groups(*self, *build),
                groups@.len() == sizes@.len() == build.features@.len(),
                forall|d: int| 0 <= d < groups@.len() ==> svs_view((#[trigger] groups@[d])@) == eg[d],
                forall|d: int| 0 <= d < groups@.len() ==> #[trigger] sizes@[d] == groups@[d]@.len(),
                sizes_view(sizes@) == group_sizes(*self, *build),
                index_seqs_view(combos@) == index_product(sizes_view(sizes@)),
                forall|c: int|
                    0 <= c < index_product(sizes_view(sizes@)).len() ==> (#[trigger] index_product(sizes_view(sizes@))[c]).len() == sizes_view(sizes@).len()
                        && forall|d: int| 0 <= d < sizes_view(sizes@).len() ==> 0 <= #[trigger] index_product(sizes_view(sizes@))[c][d] < sizes_view(sizes@)[d],
                tuples@.len() == k,
                forall|c: int| 0 <= c < k ==> svs_view((#[trigger] tuples@[c])@) == ft[c],
            decreases combos.len() - k,
        {
            let combo = &combos[k];
            let ghost cv = index_seqs_view(combos@)[k as int];
            assert(cv.len() == sizes@.len());
            assert forall|e: int| 0 <= e < cv.len() implies 0 <= #[trigger] cv[e] < sizes@[e] by {
                assert(index_product(sizes_view(sizes@))[k as int][e] < sizes_view(sizes@)[e]);
            }
            let mut tuple: Vec<SingleVersioned> = Vec::new();
            let mut d: usize = 0;
            while d < combo.len()
                invariant
                    d <= combo.len() == groups@.len(),
                    cv == combo@.map_values(|i: usize| i as int),
                    forall|e: int| 0 <= e < groups@.len() ==> svs_view((#[trigger] groups@[e])@) == eg[e],
                    forall|e: int| 0 <= e < groups@.len() ==> #[trigger] sizes@[e] == groups@[e]@.len(),
                    forall|e: int| 0 <= e < cv.len() ==> 0 <= #[trigger] cv[e] < sizes@[e],
                    tuple@.len() == d,
                    forall|e: int| 0 <= e < d ==> sv_view(#[trigger] tuple@[e]) == eg[e][cv[e]],
                decreases combo.len() - d,
            {
                assert(cv[d as int] == combo@[d as int] as int);
                tuple.push(groups[d][combo[d]].duplicate());
                d += 1;
            }
            assert(svs_view(tuple@) =~= ft[k as int]);
            tuples.push(tuple);
            k += 1;
        }
        let ghost bv = svs_view(bases@);
        let mut r: Vec<(SingleVersioned, Vec<SingleVersioned>)> = Vec::new();
        let mut b: usize = 0;
        while b < bases.len()
            invariant
                b <= bases.len(),
                bv == svs_view(bases@),
                bv == expand_all(build.bases@, base_defs(*self)),
                tuples@.len() == ft.len(),
                ft == feature_tuples(*self, *build),
                forall|c: int| 0 <= c < tuples@.len() ==> svs_view((#[trigger] tuples@[c])@) == ft[c],
                combos_view(r@) == pair_up(bv.subrange(0, b as int), ft),
            decreases bases.len() - b,
        {
            let ghost start = combos_view(r@);
            let ghost n0 = r@.len();
            let mut t: usize = 0;
            while t < tuples.len()
                invariant
                    b < bases.len(),
                    t <= tuples.len() == ft.len(),
                    bv == svs_view(bases@),
                    n0 == start.len(),
                    forall|c: int| 0 <= c < tuples@.len() ==> svs_view((#[trigger] tuples@[c])@) == ft[c],
                    r@.len() == n0 + t,
                    forall|c: int| 0 <= c < n0 ==> combos_view(r@)[c] == start[c],
                    forall|c: int| 0 <= c < t ==> combos_view(r@)[n0 + c] == (bv[b as int], ft[c]),
                decreases tuples.len() - t,
            {
                r.push((bases[b].duplicate(), duplicate_all(&tuples[t])));
                proof {
                    assert forall|c: int| 0 <= c < n0 implies combos_view(r@)[c] == start[c] by {
                        assert(combos_view(r@)[c] == combos_view(r@.drop_last())[c]);
                    }
                    assert forall|c: int| 0 <= c < t implies combos_view(r@)[n0 + c] == (bv[b as int], ft[c]) by {
                        assert(combos_view(r@)[n0 + c] == combos_view(r@.drop_last())[n0 + c]);
                    }
                }
                t += 1;
            }
            assert(combos_view(r@) =~= start + ft.map_values(|x: Seq<(Seq<char>, Seq<char>)>| (bv[b as int], x)));
            assert(bv.subrange(0, b + 1).drop_last() == bv.subrange(0, b as int));
            b += 1;
        }
        assert(bv.subrange(0, b as int) == bv);
        r
    }
}

/// The tag that a version template gives, if the definition has one.
pub open spec fn version_tag_spec(template: Option<String>, actual: Seq<char>) -> Option<Option<Seq<char>>> {
    match template {
        Some(t) => match render_spec(t@, actual) {
            Some(r) => Some(Some(r)),
            None => None,
        },
        None => Some(None),
    }
}

/// Renders the optional version-tag template.
fn render_version_tag(template: &Option<String>, actual: &String) -> (r: Result<Option<String>, Error>)
    ensures
        r is Ok <==> version_tag_spec(*template, actual@) is Some,
        r matches Ok(t) ==> version_tag_spec(*template, actual@) == Some(match t { Some(x) => Some(x@), None => None::<Seq<char>> }),
{
    match template {
        Some(t) => match render(t.as_str(), actual.as_str()) {
            Ok(x) => Ok(Some(x)),
            Err(e) => Err(e),
        },
        None => Ok(None),
    }
}

/// The image reference of a base at a concrete version.
pub open spec fn base_image_spec(def: BaseDefinition, version: Seq<char>, table: Seq<(SingleVersioned, String)>) -> Option<Seq<char>> {
    match resolved_spec(table, def.definition.versioned.name@, version) {
        Some(actual) => render_spec(def.image@, actual),
        None => None,
    }
}

/// The pinned base for an abstract version, given the digest found for its image.
pub open spec fn base_config_ok(
    bc: BaseConfig,
    def: BaseDefinition,
    version: Seq<char>,
    table: Seq<(SingleVersioned, String)>,
    digest: Option<Seq<char>>,
) -> bool {
    let actual = resolved_spec(table, def.definition.versioned.name@, version)->0;
    let image = base_image_spec(def, version, table)->0;
    &&& resolved_spec(table, def.definition.versioned.name@, version) is Some
    &&& base_image_spec(def, version, table) is Some
    &&& bc.name@ == def.definition.versioned.name@
    &&& bc.version@ == actual
    &&& bc.registry@ == registry_spec(image)
    &&& bc.package_manager@ == def.package_manager@
    &&& version_tag_spec(def.definition.version_tag, actual) == Some(match bc.tag { Some(x) => Some(x@), None => None::<Seq<char>> })
    &&& match digest {
        Some(d) => bc.identifier matches ImageIdentifier::Digest { digest: x } && x@ == d,
        None => tag_spec(image) matches Some(t) && bc.identifier matches ImageIdentifier::Tag { tag: x } && x@ == t,
    }
}

impl BaseDefinition {
    /// The image reference for an abstract version: the image template
    /// rendered against the concrete version.
    pub fn image_for(&self, version: &String, table: &Vec<(SingleVersioned, String)>) -> (r: Result<String, Error>)
        ensures
            r is Ok <==> base_image_spec(*self, version@, table@) is Some,
            r matches Ok(i) ==> i@ == base_image_spec(*self, version@, table@)->0,
    {
        let actual = match actual_version(table, &self.definition.versioned.name, version) {
            Ok(a) => a,
            Err(e) => return Err(e),
        };
        render(self.image.as_str(), actual.as_str())
    }

    /// Pins an abstract version of this base. The image is identified by
    /// `digest` when one was found, otherwise by the tag its reference carries.
    pub fn base_config(&self, version: &String, table: &Vec<(SingleVersioned, String)>, digest: Option<String>) -> (r: Result<BaseConfig, Error>)
        ensures
            r matches Ok(bc) ==> base_config_ok(bc, *self, version@, table@, match digest { Some(d) => Some(d@), None => None }),
            r is Err ==> resolved_spec(table@, self.definition.versioned.name@, version@) is None
                || base_image_spec(*self, version@, table@) is None
                || version_tag_spec(self.definition.version_tag, resolved_spec(table@, self.definition.versioned.name@, version@)->0) is None
                || (digest is None && tag_spec(base_image_spec(*self, version@, table@)->0) is None),
    {
        let actual = match actual_version(table, &self.definition.versioned.name, version) {
            Ok(a) => a,
            Err(e) => return Err(e),
        };
        let tag = match render_version_tag(&self.definition.version_tag, &actual) {
            Ok(t) => t,
            Err(e) => return Err(e),
        };
        let image = match render(self.image.as_str(), actual.as_str()) {
            Ok(i) => i,
            Err(e) => return Err(e),
        };
        let identifier = match image_identifier(image.as_str(), digest) {
            Ok(i) => i,
            Err(e) => return Err(e),
        };
        Ok(BaseConfig {
            name: self.definition.versioned.name.clone(),
            version: actual,
            registry: image_registry(image.as_str()),
            identifier,
            package_manager: self.package_manager.clone(),
            tag,
        })
    }
}

/// The populated feature for an abstract version.
pub open spec fn feature_config_ok(
    fc: InstallationConfig,
    def: FeatureDefinition,
    version: Seq<char>,
    table: Seq<(SingleVersioned, String)>,
) -> bool {
    let actual = resolved_spec(table, def.definition.versioned.name@, version)->0;
    &&& resolved_spec(table, def.definition.versioned.name@, version) is Some
    &&& fc.name@ == def.definition.versioned.name@
    &&& fc.version@ == actual
    &&& version_tag_spec(def.definition.version_tag, actual) == Some(match fc.tag { Some(x) => Some(x@), None => None::<Seq<char>> })
    &&& fc.steps@.len() == def.steps@.len()
    &&& forall|i: int| 0 <= i < def.steps@.len() ==> step_rendered(#[trigger] def.steps@[i], fc.steps@[i], actual)
}

impl FeatureDefinition {
    /// Populates an abstract version of this feature: every step rendered
    /// against the concrete version.
    pub fn feature_config(&self, version: &String, table: &Vec<(SingleVersioned, String)>) -> (r: Result<InstallationConfig, Error>)
        ensures
            r matches Ok(fc) ==> feature_config_ok(fc, *self, version@, table@),
            r is Err <==> resolved_spec(table@, self.definition.versioned.name@, version@) is None
                || version_tag_spec(self.definition.version_tag, resolved_spec(table@, self.definition.versioned.name@, version@)->0) is None
                || exists|i: int| 0 <= i < self.steps@.len() && !installation_renders(
                    (#[trigger] self.steps@[i]).installation, resolved_spec(table@, self.definition.versioned.name@, version@)->0),
    {
        let actual = match actual_version(table, &self.definition.versioned.name, version) {
            Ok(a) => a,
            Err(e) => return Err(e),
        };
        let tag = match render_version_tag(&self.definition.version_tag, &actual) {
            Ok(t) => t,
            Err(e) => return Err(e),
        };
        let actual_version = SingleVersioned { name: self.definition.versioned.name.clone(), version: actual };
        let mut steps: Vec<crate::lock::Layer> = Vec::new();
        let mut i: usize = 0;
        while i < self.steps.len()
            invariant
                i <= self.steps.len(),
                steps@.len() == i,
                actual_version.version@ == resolved_spec(table@, self.definition.versioned.name@, version@)->0,
                forall|j: int| 0 <= j < i ==> step_rendered(#[trigger] self.steps@[j], steps@[j], actual_version.version@),
                forall|j: int| 0 <= j < i ==> installation_renders((#[trigger] self.steps@[j]).installation, actual_version.version@),
            decreases self.steps.len() - i,
        {
            let step = match self.steps[i].populate(&actual_version) {
                Ok(s) => s,
                Err(e) => return Err(e),
            };
            steps.push(step);
            i += 1;
        }
        Ok(InstallationConfig { name: self.definition.versioned.name.clone(), version: actual_version.version, steps, tag })
    }
}

/// The present, non-empty tags, in order.
pub open spec fn present_tags(tags: Seq<Option<Seq<char>>>) -> Seq<Seq<char>>
    decreases tags.len(),
{
    if tags.len() == 0 {
        Seq::empty()
    } else {
        present_tags(tags.drop_last()) + match tags.last() {
            Some(t) => if t.len() > 0 { seq![t] } else { Seq::empty() },
            None => Seq::empty(),
        }
    }
}

/// A build's target: its present, non-empty tags, base first, joined by `-`.
pub open spec fn target_spec(tags: Seq<Option<Seq<char>>>) -> Seq<char> {
    join_spec(present_tags(tags), "-"@)
}

pub open spec fn tags_view(tags: Seq<Option<String>>) -> Seq<Option<Seq<char>>> {
    tags.map_values(|t: Option<String>| match t { Some(x) => Some(x@), None => None::<Seq<char>> })
}

/// The target of a build: the present, non-empty tags joined by `-`.
pub fn target_name(tags: &Vec<Option<String>>) -> (r: String)
    ensures
        r@ == target_spec(tags_view(tags@)),
{
    let ghost tv = tags_view(tags@);
    let mut present: Vec<String> = Vec::new();
    let mut i: usize = 0;
    while i < tags.len()
        invariant
            i <= tags.len(),
            tv == tags_view(tags@),
            strings_view(present@) == present_tags(tv.subrange(0, i as int)),
        decreases tags.len() - i,
    {
        assert(tv.subrange(0, i + 1).drop_last() == tv.subrange(0, i as int));
        match &tags[i] {
            Some(t) => {
                if t.as_str().unicode_len() > 0 {
                    present.push(t.clone());
                    assert(strings_view(present@) =~= present_tags(tv.subrange(0, i + 1)));
                } else {
                    assert(strings_view(present@) =~= present_tags(tv.subrange(0, i + 1)));
                }
            },
            None => {
                assert(strings_view(present@) =~= present_tags(tv.subrange(0, i + 1)));
            },
        }
        i += 1;
    }
    assert(tv.subrange(0, i as int) == tv);
    join(&present, "-")
}

/// What a single build is: the concrete base and features, the target from
/// their tags, and the name and tag templates rendered on `date`.
pub open spec fn single_build_ok(
    sb: SingleBuild,
    image_name_template: Seq<char>,
    image_tag_template: Seq<char>,
    base: SingleVersioned,
    tags: Seq<Option<Seq<char>>>,
    features: Seq<SingleVersioned>,
    date: Seq<char>,
) -> bool {
    &&& sb.base == base
    &&& sb.features@ == features
    &&& sb.target@ == target_spec(tags)
    &&& render_name_spec(image_name_template, base, features, date) == Some(sb.image_name@)
    &&& render_name_spec(image_tag_template, base, features, date) == Some(sb.image_tag@)
}

/// One build target: `tags` are the base's tag, then each feature's.
pub fn single_build(
    image_name_template: &str,
    image_tag_template: &str,
    base: SingleVersioned,
    features: Vec<SingleVersioned>,
    tags: &Vec<Option<String>>,
    date: &str,
) -> (r: Result<SingleBuild, Error>)
    ensures
        r is Ok <==> render_name_spec(image_name_template@, base, features@, date@) is Some
            && render_name_spec(image_tag_template@, base, features@, date@) is Some,
        r matches Ok(sb) ==> single_build_ok(sb, image_name_template@, image_tag_template@, base, tags_view(tags@), features@, date@),
{
    let image_name = match render_name_template(image_name_template, &base, &features, date) {
        Ok(n) => n,
        Err(e) => return Err(e),
    };
    let image_tag = match render_name_template(image_tag_template, &base, &features, date) {
        Ok(t) => t,
        Err(e) => return Err(e),
    };
    Ok(SingleBuild { base, features, target: target_name(tags), image_name, image_tag })
}

/// Index of the first entry keyed by a name and version. The tables of pinned
/// bases and populated features are read by this first-match rule: of two
/// declarations of the same name and abstract version, the first one counts.
pub open spec fn keyed_index<T>(entries: Seq<(SingleVersioned, T)>, key: (Seq<char>, Seq<char>)) -> Option<int>
    decreases entries.len(),
{
    if entries.len() == 0 {
        None
    } else {
        match keyed_index(entries.drop_last(), key) {
            Some(i) => Some(i),
            None => if sv_view(entries.last().0) == key {
                Some(entries.len() - 1)
            } else {
                None
            },
        }
    }
}

proof fn lemma_keyed_prefix<T>(entries: Seq<(SingleVersioned, T)>, key: (Seq<char>, Seq<char>), k: int)
    requires
        0 <= k <= entries.len(),
        keyed_index(entries.subrange(0, k), key) is Some,
    ensures
        keyed_index(entries, key) == keyed_index(entries.subrange(0, k), key),
    decreases entries.len() - k,
{
    if k < entries.len() {
        assert(entries.subrange(0, k + 1).drop_last() == entries.subrange(0, k));
        lemma_keyed_prefix(entries, key, k + 1);
    } else {
        assert(entries.subrange(0, k) == entries);
    }
}

/// Finds the first entry keyed by the name and version.
pub fn find_keyed<T>(entries: &Vec<(SingleVersioned, T)>, key: &SingleVersioned) -> (r: Option<usize>)
    ensures
        r matches Some(i) ==> keyed_index(entries@, sv_view(*key)) == Some(i as int) && i < entries@.len(),
        r is None ==> keyed_index(entries@, sv_view(*key)) is None,
{
    let mut i: usize = 0;
    while i < entries.len()
        invariant
            i <= entries.len(),
            keyed_index(entries@.subrange(0, i as int), sv_view(*key)) is None,
        decreases entries.len() - i,
    {
        assert(entries@.subrange(0, i + 1).drop_last() == entries@.subrange(0, i as int));
        if entries[i].0.name == key.name && entries[i].0.version == key.version {
            proof { lemma_keyed_prefix(entries@, sv_view(*key), i + 1); }
            return Some(i);
        }
        i += 1;
    }
    assert(entries@.subrange(0, i as int) == entries@);
    None
}

/// A combination of a build: `(build index, (base, features))`.
pub type Combo = (int, ((Seq<char>, Seq<char>), Seq<(Seq<char>, Seq<char>)>));

/// The combinations of the first `n` builds, in order.
pub open spec fn all_combos(config: TuxWranglerConfig, n: int) -> Seq<Combo>
    decreases n,
{
    if n <= 0 {
        Seq::empty()
    } else {
        all_combos(config, n - 1) + build_combos(config, config.builds@[n - 1]).map_values(
            |c: ((Seq<char>, Seq<char>), Seq<(Seq<char>, Seq<char>)>)| (n - 1, c),
        )
    }
}

/// The sum over the first `n` builds of their bases times the product of
/// their feature-group sizes.
pub open spec fn expected_build_count(config: TuxWranglerConfig, n: int) -> nat
    decreases n,
{
    if n <= 0 {
        0
    } else {
        expected_build_count(config, n - 1) + expand_all(config.builds@[n - 1].bases@, base_defs(config)).len() * product(
            group_sizes(config, config.builds@[n - 1]),
        )
    }
}

/// There are as many single builds as the sum over the builds of their bases
/// times the product of the sizes of their feature groups.
pub proof fn lemma_single_build_count(config: TuxWranglerConfig, n: int)
    ensures
        all_combos(config, n).len() == expected_build_count(config, n),
    decreases n,
{
    if n > 0 {
        lemma_single_build_count(config, n - 1);
        lemma_build_combination_count(config, config.builds@[n - 1]);
    }
}

/// The concrete features that a combination's features are locked as.
pub open spec fn concrete_features(fcs: Seq<(SingleVersioned, InstallationConfig)>, feats: Seq<(Seq<char>, Seq<char>)>) -> Seq<SingleVersioned> {
    Seq::new(feats.len(), |d: int| {
        let f = fcs[keyed_index(fcs, feats[d])->0].1;
        SingleVersioned { name: f.name, version: f.version }
    })
}

/// The tags of a combination: the base's, then each feature's.
pub open spec fn combo_tags(bc: BaseConfig, fcs: Seq<(SingleVersioned, InstallationConfig)>, feats: Seq<(Seq<char>, Seq<char>)>) -> Seq<Option<Seq<char>>> {
    seq![match bc.tag { Some(x) => Some(x@), None => None::<Seq<char>> }] + Seq::new(feats.len(), |d: int| match fcs[keyed_index(fcs, feats[d])->0].1.tag {
        Some(x) => Some(x@),
        None => None::<Seq<char>>,
    })
}

/// A combination can be locked: its base and features are all known.
pub open spec fn combo_known(
    combo: Combo,
    bcs: Seq<(SingleVersioned, BaseConfig)>,
    fcs: Seq<(SingleVersioned, InstallationConfig)>,
) -> bool {
    &&& keyed_index(bcs, combo.1.0) is Some
    &&& forall|d: int| 0 <= d < combo.1.1.len() ==> keyed_index(fcs, #[trigger] combo.1.1[d]) is Some
}

/// The single build that a combination is locked as.
pub open spec fn combo_built(
    sb: SingleBuild,
    config: TuxWranglerConfig,
    combo: Combo,
    bcs: Seq<(SingleVersioned, BaseConfig)>,
    fcs: Seq<(SingleVersioned, InstallationConfig)>,
    date: Seq<char>,
) -> bool {
    let build = config.builds@[combo.0];
    let bc = bcs[keyed_index(bcs, combo.1.0)->0].1;
    &&& combo_known(combo, bcs, fcs)
    &&& single_build_ok(
        sb,
        build.image_name@,
        build.image_tag@,
        SingleVersioned { name: bc.name, version: bc.version },
        combo_tags(bc, fcs, combo.1.1),
        concrete_features(fcs, combo.1.1),
        date,
    )
}

/// A combination can be locked on `date`: its base and features are known and
/// its name and tag templates render.
pub open spec fn combo_buildable(
    config: TuxWranglerConfig,
    combo: Combo,
    bcs: Seq<(SingleVersioned, BaseConfig)>,
    fcs: Seq<(SingleVersioned, InstallationConfig)>,
    date: Seq<char>,
) -> bool {
    let build = config.builds@[combo.0];
    let bc = bcs[keyed_index(bcs, combo.1.0)->0].1;
    let base = SingleVersioned { name: bc.name, version: bc.version };
    let feats = concrete_features(fcs, combo.1.1);
    &&& combo_known(combo, bcs, fcs)
    &&& render_name_spec(build.image_name@, base, feats, date) is Some
    &&& render_name_spec(build.image_tag@, base, feats, date) is Some
}

impl TuxWranglerConfig {
    /// Every build expanded and locked on `date`: each combination's base and
    /// features looked up by their abstract versions, and its target and names computed.
    pub fn individual_builds_on(
        &self,
        base_configs: &Vec<(SingleVersioned, BaseConfig)>,
        feature_configs: &Vec<(SingleVersioned, InstallationConfig)>,
        date: &str,
    ) -> (r: Result<Vec<SingleBuild>, Error>)
        ensures
            r matches Ok(v) ==> v@.len() == all_combos(*self, self.builds@.len() as int).len() && forall|k: int|
                0 <= k < v@.len() ==> combo_built(#[trigger] v@[k], *self, all_combos(*self, self.builds@.len() as int)[k], base_configs@, feature_configs@, date@),
            r is Err ==> exists|k: int|
                0 <= k < all_combos(*self, self.builds@.len() as int).len() && !combo_buildable(
                    *self, #[trigger] all_combos(*self, self.builds@.len() as int)[k], base_configs@, feature_configs@, date@),
    {
        let ghost bcs = base_configs@;
        let ghost fcs = feature_configs@;
        let ghost total = all_combos(*self, self.builds@.len() as int);
        let mut out: Vec<SingleBuild> = Vec::new();
        let mut b: usize = 0;
        while b < self.builds.len()
            invariant
                b <= self.builds.len(),
                bcs == base_configs@,
                fcs == feature_configs@,
                total == all_combos(*self, self.builds@.len() as int),
                out@.len() == all_combos(*self, b as int).len(),
                forall|k: int| 0 <= k < out@.len() ==> combo_built(#[trigger] out@[k], *self, all_combos(*self, b as int)[k], bcs, fcs, date@),
            decreases self.builds.len() - b,
        {
            let build = &self.builds[b];
            let combos = self.expand_build(build);
            let ghost prefix = all_combos(*self, b as int);
            let ghost here = build_combos(*self, *build).map_values(
                |c: ((Seq<char>, Seq<char>), Seq<(Seq<char>, Seq<char>)>)| (b as int, c),
            );
            assert(all_combos(*self, b + 1) == prefix + here);
            let mut c: usize = 0;
            while c < combos.len()
                invariant
                    c <= combos.len(),
                    b < self.builds.len(),
                    *build == self.builds@[b as int],
                    bcs == base_configs@,
                    fcs == feature_configs@,
                    combos_view(combos@) == build_combos(*self, *build),
                    here == build_combos(*self, *build).map_values(
                        |c: ((Seq<char>, Seq<char>), Seq<(Seq<char>, Seq<char>)>)| (b as int, c)),
                    out@.len() == prefix.len() + c,
                    total == all_combos(*self, self.builds@.len() as int),
                    all_combos(*self, b + 1) == prefix + here,
                    forall|k: int| 0 <= k < prefix.len() ==> combo_built(#[trigger] out@[k], *self, prefix[k], bcs, fcs, date@),
                    forall|k: int| 0 <= k < c ==> combo_built(#[trigger] out@[prefix.len() + k], *self, here[k], bcs, fcs, date@),
                decreases combos.len() - c,
            {
                let combo = &combos[c];
                let ghost cv = here[c as int];
                assert(cv.1 == (sv_view(combo.0), svs_view(combo.1@)));
                let bi = match find_keyed(base_configs, &combo.0) {
                    Some(i) => i,
                    None => {
                        proof {
                            lemma_all_combos_prefix(*self, b as int + 1, self.builds@.len() as int);
                            assert(total[prefix.len() + c] == (prefix + here)[prefix.len() + c]);
                            assert(!combo_buildable(*self, all_combos(*self, self.builds@.len() as int)[prefix.len() + c], bcs, fcs, date@));
                        }
                        return Err(Error::MissingBase { name: combo.0.name.clone(), version: combo.0.version.clone() });
                    },
                };
                let base_config = &base_configs[bi].1;
                let base = base_config.single_versioned();
                let mut tags: Vec<Option<String>> = Vec::new();
                tags.push(base_config.tag.clone());
                let mut features: Vec<SingleVersioned> = Vec::new();
                let mut d: usize = 0;
                while d < combo.1.len()
                    invariant
                        d <= combo.1.len(),
                        fcs == feature_configs@,
                        bcs == base_configs@,
                        b < self.builds.len(),
                        c < combos@.len(),
                        here.len() == combos@.len(),
                        *combo == combos@[c as int],
                        cv == here[c as int],
                        cv.1 == (sv_view(combo.0), svs_view(combo.1@)),
                        total == all_combos(*self, self.builds@.len() as int),
                        all_combos(*self, b + 1) == prefix + here,
                        features@.len() == d,
                        tags@.len() == d + 1,
                        tags_view(tags@)[0] == (match base_config.tag { Some(x) => Some(x@), None => None::<Seq<char>> }),
                        forall|e: int| 0 <= e < d ==> keyed_index(fcs, sv_view(#[trigger] combo.1@[e])) is Some,
                        forall|e: int| 0 <= e < d ==> #[trigger] features@[e] == (SingleVersioned {
                            name: fcs[keyed_index(fcs, sv_view(combo.1@[e]))->0].1.name,
                            version: fcs[keyed_index(fcs, sv_view(combo.1@[e]))->0].1.version,
                        }),
                        forall|e: int| 0 <= e < d ==> #[trigger] tags_view(tags@)[e + 1] == (match fcs[keyed_index(fcs, sv_view(combo.1@[e]))->0].1.tag {
                            Some(x) => Some(x@),
                            None => None::<Seq<char>>,
                        }),
                    decreases combo.1.len() - d,
                {
                    let fi = match find_keyed(feature_configs, &combo.1[d]) {
                        Some(i) => i,
                        None => {
                            proof {
                                lemma_all_combos_prefix(*self, b as int + 1, self.builds@.len() as int);
                                assert(total[prefix.len() + c] == (prefix + here)[prefix.len() + c]);
                                assert(svs_view(combo.1@)[d as int] == sv_view(combo.1@[d as int]));
                                assert(!combo_known(total[prefix.len() + c], bcs, fcs));
                                assert(!combo_buildable(*self, all_combos(*self, self.builds@.len() as int)[prefix.len() + c], bcs, fcs, date@));
                            }
                            return Err(Error::MissingFeature { name: combo.1[d].name.clone(), version: combo.1[d].version.clone() });
                        },
                    };
                    features.push(feature_configs[fi].1.single_versioned());
                    let ghost tags_before = tags_view(tags@);
                    tags.push(feature_configs[fi].1.tag.clone());
                    assert(tags_view(tags@) == tags_before.push(match feature_configs@[fi as int].1.tag {
                        Some(x) => Some(x@),
                        None => None::<Seq<char>>,
                    }));
                    d += 1;
                }
                proof {
                    assert forall|e: int| 0 <= e < combo.1@.len() implies svs_view(combo.1@)[e] == sv_view(#[trigger] combo.1@[e]) by {}
                    assert(features@ =~= concrete_features(fcs, svs_view(combo.1@)));
                    let ct = combo_tags(*base_config, fcs, svs_view(combo.1@));
                    assert forall|e: int| 0 <= e < tags@.len() implies tags_view(tags@)[e] == ct[e] by {
                        if e > 0 {
                            assert(tags_view(tags@)[(e - 1) + 1] == tags_view(tags@)[e]);
                            assert(ct[e] == Seq::new(svs_view(combo.1@).len(), |d: int| match fcs[keyed_index(fcs, svs_view(combo.1@)[d])->0].1.tag {
                                Some(x) => Some(x@),
                                None => None::<Seq<char>>,
                            })[e - 1]);
                        }
                    }
                    assert(tags_view(tags@) =~= ct);
                }
                let ghost fv = features@;
                let built = single_build(build.image_name.as_str(), build.image_tag.as_str(), base, features, &tags, date);
                match built {
                    Ok(sb) => {
                        out.push(sb);
                        proof {
                            assert forall|e: int| 0 <= e < cv.1.1.len() implies keyed_index(fcs, #[trigger] cv.1.1[e]) is Some by {
                                assert(cv.1.1[e] == sv_view(combo.1@[e]));
                            }
                            assert(combo_built(out@[prefix.len() + c], *self, here[c as int], bcs, fcs, date@));
                        }
                    },
                    Err(e) => {
                        proof {
                            lemma_all_combos_prefix(*self, b as int + 1, self.builds@.len() as int);
                            assert(total[prefix.len() + c] == (prefix + here)[prefix.len() + c]);
                            assert(!combo_buildable(*self, all_combos(*self, self.builds@.len() as int)[prefix.len() + c], bcs, fcs, date@));
                        }
                        return Err(e);
                    },
                }
                c += 1;
            }
            proof {
                assert forall|k: int| 0 <= k < out@.len() implies combo_built(#[trigger] out@[k], *self, all_combos(*self, b + 1)[k], bcs, fcs, date@) by {
                    if k < prefix.len() {
                        assert(all_combos(*self, b + 1)[k] == prefix[k]);
                    } else {
                        assert(all_combos(*self, b + 1)[k] == here[k - prefix.len()]);
                        assert(out@[prefix.len() + (k - prefix.len())] == out@[k]);
                    }
                }
            }
            b += 1;
        }
        Ok(out)
    }
}

proof fn lemma_all_combos_prefix(config: TuxWranglerConfig, m: int, n: int)
    requires
        0 <= m <= n,
    ensures
        all_combos(config, m).len() <= all_combos(config, n).len(),
        forall|k: int| 0 <= k < all_combos(config, m).len() ==> all_combos(config, n)[k] == #[trigger] all_combos(config, m)[k],
    decreases n - m,
{
    if m < n {
        lemma_all_combos_prefix(config, m, n - 1);
    }
}

/// The `(definition, version)` positions of definitions with the given numbers
/// of versions, in order.
pub open spec fn slots(counts: Seq<nat>) -> Seq<(int, int)>
    decreases counts.len(),
{
    if counts.len() == 0 {
        Seq::empty()
    } else {
        slots(counts.drop_last()) + Seq::new(counts.last(), |v: int| (counts.len() - 1, v))
    }
}

pub open spec fn base_counts(config: TuxWranglerConfig) -> Seq<nat> {
    config.bases@.map_values(|b: BaseDefinition| b.definition.versioned.versions@.len())
}

pub open spec fn feature_counts(config: TuxWranglerConfig) -> Seq<nat> {
    config.features@.map_values(|f: FeatureDefinition| f.definition.versioned.versions@.len())
}

/// The digest found for the `k`-th base image, if any.
pub open spec fn digest_at(digests: Seq<Option<String>>, k: int) -> Option<Seq<char>> {
    if 0 <= k < digests.len() {
        match digests[k] {
            Some(d) => Some(d@),
            None => None,
        }
    } else {
        None
    }
}

proof fn lemma_slots_step(counts: Seq<nat>, b: int)
    requires
        0 <= b < counts.len(),
    ensures
        slots(counts.subrange(0, b + 1)) == slots(counts.subrange(0, b)) + Seq::new(counts[b], |v: int| (b, v)),
{
    assert(counts.subrange(0, b + 1).drop_last() =~= counts.subrange(0, b));
}

proof fn lemma_slots_prefix(counts: Seq<nat>, m: int)
    requires
        0 <= m <= counts.len(),
    ensures
        slots(counts.subrange(0, m)).len() <= slots(counts).len(),
        forall|k: int| 0 <= k < slots(counts.subrange(0, m)).len() ==> slots(counts)[k] == #[trigger] slots(counts.subrange(0, m))[k],
    decreases counts.len() - m,
{
    if m < counts.len() {
        lemma_slots_step(counts, m);
        lemma_slots_prefix(counts, m + 1);
        assert forall|k: int| 0 <= k < slots(counts.subrange(0, m)).len() implies slots(counts)[k] == #[trigger] slots(counts.subrange(0, m))[k] by {
            assert(slots(counts.subrange(0, m + 1))[k] == slots(counts.subrange(0, m))[k]);
        }
    } else {
        assert(counts.subrange(0, m) == counts);
    }
}

/// Pinning fails for an abstract version of a base, given the digest found.
pub open spec fn base_config_fails(
    def: BaseDefinition,
    version: Seq<char>,
    table: Seq<(SingleVersioned, String)>,
    digest: Option<Seq<char>>,
) -> bool {
    ||| resolved_spec(table, def.definition.versioned.name@, version) is None
    ||| base_image_spec(def, version, table) is None
    ||| version_tag_spec(def.definition.version_tag, resolved_spec(table, def.definition.versioned.name@, version)->0) is None
    ||| (digest is None && tag_spec(base_image_spec(def, version, table)->0) is None)
}

/// Populating fails for an abstract version of a feature.
pub open spec fn feature_config_fails(def: FeatureDefinition, version: Seq<char>, table: Seq<(SingleVersioned, String)>) -> bool {
    ||| resolved_spec(table, def.definition.versioned.name@, version) is None
    ||| version_tag_spec(def.definition.version_tag, resolved_spec(table, def.definition.versioned.name@, version)->0) is None
    ||| exists|i: int| 0 <= i < def.steps@.len() && !installation_renders(
        (#[trigger] def.steps@[i]).installation, resolved_spec(table, def.definition.versioned.name@, version)->0)
}

/// What `base_configs` gives: one pinned base per declared version, in
/// declaration order, keyed by its abstract version.
pub open spec fn base_table_ok(
    config: TuxWranglerConfig,
    table: Seq<(SingleVersioned, String)>,
    digests: Seq<Option<String>>,
    v: Seq<(SingleVersioned, BaseConfig)>,
) -> bool {
    &&& v.len() == slots(base_counts(config)).len()
    &&& forall|k: int|
        0 <= k < v.len() ==> {
            let slot = slots(base_counts(config))[k];
            let def = config.bases@[slot.0];
            let version = def.definition.versioned.versions@[slot.1]@;
            &&& sv_view((#[trigger] v[k]).0) == (def.definition.versioned.name@, version)
            &&& base_config_ok(v[k].1, def, version, table, digest_at(digests, k))
        }
}

/// What `feature_configs` gives: one populated feature per declared version,
/// in declaration order, keyed by its abstract version.
pub open spec fn feature_table_ok(
    config: TuxWranglerConfig,
    table: Seq<(SingleVersioned, String)>,
    v: Seq<(SingleVersioned, InstallationConfig)>,
) -> bool {
    &&& v.len() == slots(feature_counts(config)).len()
    &&& forall|k: int|
        0 <= k < v.len() ==> {
            let slot = slots(feature_counts(config))[k];
            let def = config.features@[slot.0];
            let version = def.definition.versioned.versions@[slot.1]@;
            &&& sv_view((#[trigger] v[k]).0) == (def.definition.versioned.name@, version)
            &&& feature_config_ok(v[k].1, def, version, table)
        }
}

/// Some declared base version cannot be pinned.
pub open spec fn some_base_fails(config: TuxWranglerConfig, table: Seq<(SingleVersioned, String)>, digests: Seq<Option<String>>) -> bool {
    exists|k: int| 0 <= k < slots(base_counts(config)).len() && base_config_fails(
        config.bases@[(#[trigger] slots(base_counts(config))[k]).0],
        config.bases@[slots(base_counts(config))[k].0].definition.versioned.versions@[slots(base_counts(config))[k].1]@,
        table,
        digest_at(digests, k),
    )
}

/// Some declared feature version cannot be populated.
pub open spec fn some_feature_fails(config: TuxWranglerConfig, table: Seq<(SingleVersioned, String)>) -> bool {
    exists|k: int| 0 <= k < slots(feature_counts(config)).len() && feature_config_fails(
        config.features@[(#[trigger] slots(feature_counts(config))[k]).0],
        config.features@[slots(feature_counts(config))[k].0].definition.versioned.versions@[slots(feature_counts(config))[k].1]@,
        table,
    )
}

impl TuxWranglerConfig {
    /// The image reference of every declared base version, in declaration
    /// order: the positions that `base_configs` takes digests for.
    pub fn base_images(&self, table: &Vec<(SingleVersioned, String)>) -> (r: Result<Vec<String>, Error>)
        ensures
            r matches Ok(v) ==> v@.len() == slots(base_counts(*self)).len() && forall|k: int|
                0 <= k < v@.len() ==> base_image_spec(
                    self.bases@[slots(base_counts(*self))[k].0],
                    self.bases@[slots(base_counts(*self))[k].0].definition.versioned.versions@[slots(base_counts(*self))[k].1]@,
                    table@,
                ) == Some((#[trigger] v@[k])@),
            r is Err ==> exists|k: int| 0 <= k < slots(base_counts(*self)).len() && base_image_spec(
                self.bases@[(#[trigger] slots(base_counts(*self))[k]).0],
                self.bases@[slots(base_counts(*self))[k].0].definition.versioned.versions@[slots(base_counts(*self))[k].1]@,
                table@,
            ) is None,
    {
        let ghost counts = base_counts(*self);
        let mut out: Vec<String> = Vec::new();
        let mut b: usize = 0;
        while b < self.bases.len()
            invariant
                b <= self.bases.len(),
                counts == base_counts(*self),
                out@.len() == slots(counts.subrange(0, b as int)).len(),
                forall|k: int| 0 <= k < out@.len() ==> base_image_spec(
                    self.bases@[slots(counts.subrange(0, b as int))[k].0],
                    self.bases@[slots(counts.subrange(0, b as int))[k].0].definition.versioned.versions@[slots(counts.subrange(0, b as int))[k].1]@,
                    table@,
                ) == Some((#[trigger] out@[k])@),
            decreases self.bases.len() - b,
        {
            proof { lemma_slots_step(counts, b as int); }
            let ghost before = slots(counts.subrange(0, b as int));
            let def = &self.bases[b];
            let versions = &def.definition.versioned.versions;
            let mut i: usize = 0;
            while i < versions.len()
                invariant
                    i <= versions.len(),
                    b < self.bases.len(),
                    *def == self.bases@[b as int],
                    *versions == def.definition.versioned.versions,
                    counts == base_counts(*self),
                    slots(counts.subrange(0, b + 1)) == before + Seq::new(counts[b as int], |v: int| (b as int, v)),
                    out@.len() == before.len() + i,
                    forall|k: int| 0 <= k < before.len() ==> base_image_spec(
                        self.bases@[before[k].0],
                        self.bases@[before[k].0].definition.versioned.versions@[before[k].1]@,
                        table@,
                    ) == Some((#[trigger] out@[k])@),
                    forall|t: int| 0 <= t < i ==> base_image_spec(*def, versions@[t]@, table@) == Some((#[trigger] out@[before.len() + t])@),
                decreases versions.len() - i,
            {
                let image = match def.image_for(&versions[i], table) {
                    Ok(img) => img,
                    Err(e) => {
                        proof {
                            lemma_slots_prefix(counts, b + 1);
                            let k = before.len() + i;
                            assert(slots(counts.subrange(0, b + 1))[k] == (b as int, i as int));
                            assert(slots(base_counts(*self))[k] == (b as int, i as int));
                        }
                        return Err(e);
                    },
                };
                out.push(image);
                i += 1;
            }
            proof {
                let after = slots(counts.subrange(0, b + 1));
                assert forall|k: int| 0 <= k < out@.len() implies base_image_spec(
                    self.bases@[after[k].0],
                    self.bases@[after[k].0].definition.versioned.versions@[after[k].1]@,
                    table@,
                ) == Some((#[trigger] out@[k])@) by {
                    if k < before.len() {
                        assert(after[k] == before[k]);
                    } else {
                        assert(after[k] == (b as int, k - before.len()));
                        assert(out@[before.len() + (k - before.len())] == out@[k]);
                    }
                }
            }
            b += 1;
        }
        assert(counts.subrange(0, b as int) == counts);
        Ok(out)
    }

    /// Every declared base version pinned, in declaration order, keyed by its
    /// abstract version; `digests[k]` is the digest found for the `k`-th image
    /// of `base_images`, or `None`.
    pub fn base_configs(
        &self,
        table: &Vec<(SingleVersioned, String)>,
        digests: &Vec<Option<String>>,
    ) -> (r: Result<Vec<(SingleVersioned, BaseConfig)>, Error>)
        ensures
            r matches Ok(v) ==> base_table_ok(*self, table@, digests@, v@),
            r is Err ==> some_base_fails(*self, table@, digests@),
    {
        let ghost counts = base_counts(*self);
        let mut out: Vec<(SingleVersioned, BaseConfig)> = Vec::new();
        let mut b: usize = 0;
        while b < self.bases.len()
            invariant
                b <= self.bases.len(),
                counts == base_counts(*self),
                out@.len() == slots(counts.subrange(0, b as int)).len(),
                forall|k: int| 0 <= k < out@.len() ==> {
                    let slot = slots(counts.subrange(0, b as int))[k];
                    let def = self.bases@[slot.0];
                    let version = def.definition.versioned.versions@[slot.1]@;
                    &&& sv_view((#[trigger] out@[k]).0) == (def.definition.versioned.name@, version)
                    &&& base_config_ok(out@[k].1, def, version, table@, digest_at(digests@, k))
                },
            decreases self.bases.len() - b,
        {
            proof { lemma_slots_step(counts, b as int); }
            let ghost before = slots(counts.subrange(0, b as int));
            let def = &self.bases[b];
            let versions = &def.definition.versioned.versions;
            let mut i: usize = 0;
            while i < versions.len()
                invariant
                    i <= versions.len(),
                    b < self.bases.len(),
                    *def == self.bases@[b as int],
                    *versions == def.definition.versioned.versions,
                    counts == base_counts(*self),
                    slots(counts.subrange(0, b + 1)) == before + Seq::new(counts[b as int], |v: int| (b as int, v)),
                    out@.len() == before.len() + i,
                    forall|k: int| 0 <= k < before.len() ==> {
                        let slot = before[k];
                        let d = self.bases@[slot.0];
                        let version = d.definition.versioned.versions@[slot.1]@;
                        &&& sv_view((#[trigger] out@[k]).0) == (d.definition.versioned.name@, version)
                        &&& base_config_ok(out@[k].1, d, version, table@, digest_at(digests@, k))
                    },
                    forall|t: int| 0 <= t < i ==> {
                        &&& sv_view((#[trigger] out@[before.len() + t]).0) == (def.definition.versioned.name@, versions@[t]@)
                        &&& base_config_ok(out@[before.len() + t].1, *def, versions@[t]@, table@, digest_at(digests@, before.len() + t))
                    },
                decreases versions.len() - i,
            {
                let k = out.len();
                let digest = if k < digests.len() {
                    match &digests[k] {
                        Some(d) => Some(d.clone()),
                        None => None,
                    }
                } else {
                    None
                };
                assert(digest_at(digests@, k as int) == match digest { Some(d) => Some(d@), None => None::<Seq<char>> });
                let config = match def.base_config(&versions[i], table, digest) {
                    Ok(c) => c,
                    Err(e) => {
                        proof {
                            lemma_slots_prefix(counts, b + 1);
                            let kk = before.len() + i;
                            assert(slots(counts.subrange(0, b + 1))[kk] == (b as int, i as int));
                            assert(slots(base_counts(*self))[kk] == (b as int, i as int));
                            assert(base_config_fails(*def, versions@[i as int]@, table@, digest_at(digests@, kk)));
                        }
                        return Err(e);
                    },
                };
                out.push((SingleVersioned { name: def.definition.versioned.name.clone(), version: versions[i].clone() }, config));
                i += 1;
            }
            proof {
                let after = slots(counts.subrange(0, b + 1));
                assert forall|k: int| 0 <= k < out@.len() implies {
                    let slot = after[k];
                    let d = self.bases@[slot.0];
                    let version = d.definition.versioned.versions@[slot.1]@;
                    &&& sv_view((#[trigger] out@[k]).0) == (d.definition.versioned.name@, version)
                    &&& base_config_ok(out@[k].1, d, version, table@, digest_at(digests@, k))
                } by {
                    if k < before.len() {
                        assert(after[k] == before[k]);
                    } else {
                        assert(after[k] == (b as int, k - before.len()));
                        assert(out@[before.len() + (k - before.len())] == out@[k]);
                    }
                }
            }
            b += 1;
        }
        assert(counts.subrange(0, b as int) == counts);
        Ok(out)
    }

    /// Every declared feature version populated, in declaration order, keyed
    /// by its abstract version.
    pub fn feature_configs(&self, table: &Vec<(SingleVersioned, String)>) -> (r: Result<Vec<(SingleVersioned, InstallationConfig)>, Error>)
        ensures
            r matches Ok(v) ==> feature_table_ok(*self, table@, v@),
            r is Err ==> some_feature_fails(*self, table@),
    {
        let ghost counts = feature_counts(*self);
        let mut out: Vec<(SingleVersioned, InstallationConfig)> = Vec::new();
        let mut b: usize = 0;
        while b < self.features.len()
            invariant
                b <= self.features.len(),
                counts == feature_counts(*self),
                out@.len() == slots(counts.subrange(0, b as int)).len(),
                forall|k: int| 0 <= k < out@.len() ==> {
                    let slot = slots(counts.subrange(0, b as int))[k];
                    let def = self.features@[slot.0];
                    let version = def.definition.versioned.versions@[slot.1]@;
                    &&& sv_view((#[trigger] out@[k]).0) == (def.definition.versioned.name@, version)
                    &&& feature_config_ok(out@[k].1, def, version, table@)
                },
            decreases self.features.len() - b,
        {
            proof { lemma_slots_step(counts, b as int); }
            let ghost before = slots(counts.subrange(0, b as int));
            let def = &self.features[b];
            let versions = &def.definition.versioned.versions;
            let mut i: usize = 0;
            while i < versions.len()
                invariant
                    i <= versions.len(),
                    b < self.features.len(),
                    *def == self.features@[b as int],
                    *versions == def.definition.versioned.versions,
                    counts == feature_counts(*self),
                    slots(counts.subrange(0, b + 1)) == before + Seq::new(counts[b as int], |v: int| (b as int, v)),
                    out@.len() == before.len() + i,
                    forall|k: int| 0 <= k < before.len() ==> {
                        let slot = before[k];
                        let d = self.features@[slot.0];
                        let version = d.definition.versioned.versions@[slot.1]@;
                        &&& sv_view((#[trigger] out@[k]).0) == (d.definition.versioned.name@, version)
                        &&& feature_config_ok(out@[k].1, d, version, table@)
                    },
                    forall|t: int| 0 <= t < i ==> {
                        &&& sv_view((#[trigger] out@[before.len() + t]).0) == (def.definition.versioned.name@, versions@[t]@)
                        &&& feature_config_ok(out@[before.len() + t].1, *def, versions@[t]@, table@)
                    },
                decreases versions.len() - i,
            {
                let config = match def.feature_config(&versions[i], table) {
                    Ok(c) => c,
                    Err(e) => {
                        proof {
                            lemma_slots_prefix(counts, b + 1);
                            let kk = before.len() + i;
                            assert(slots(counts.subrange(0, b + 1))[kk] == (b as int, i as int));
                            assert(slots(feature_counts(*self))[kk] == (b as int, i as int));
                            assert(feature_config_fails(*def, versions@[i as int]@, table@));
                        }
                        return Err(e);
                    },
                };
                out.push((SingleVersioned { name: def.definition.versioned.name.clone(), version: versions[i].clone() }, config));
                i += 1;
            }
            proof {
                let after = slots(counts.subrange(0, b + 1));
                assert forall|k: int| 0 <= k < out@.len() implies {
                    let slot = after[k];
                    let d = self.features@[slot.0];
                    let version = d.definition.versioned.versions@[slot.1]@;
                    &&& sv_view((#[trigger] out@[k]).0) == (d.definition.versioned.name@, version)
                    &&& feature_config_ok(out@[k].1, d, version, table@)
                } by {
                    if k < before.len() {
                        assert(after[k] == before[k]);
                    } else {
                        assert(after[k] == (b as int, k - before.len()));
                        assert(out@[before.len() + (k - before.len())] == out@[k]);
                    }
                }
            }
            b += 1;
        }
        assert(counts.subrange(0, b as int) == counts);
        Ok(out)
    }
}

/// The canonical key of a locked entry: `{name}-{version}`.
pub open spec fn lock_key(name: Seq<char>, version: Seq<char>) -> Seq<char> {
    name + "-"@ + version
}

/// Each key as a one-element key list.
pub open spec fn single_keys(keys: Seq<String>) -> Seq<Seq<Seq<char>>> {
    keys.map_values(|k: String| seq![k@])
}

/// Positions of entries ordered by their keys, equal keys in their first order.
pub fn canonical_positions(keys: &Vec<String>) -> (r: Vec<usize>)
    ensures
        is_stable_order(single_keys(keys@), r@.map_values(|x: usize| x as int)),
        r@.len() == keys@.len(),
        forall|i: int| 0 <= i < r@.len() ==> #[trigger] r@[i] < keys@.len(),
        forall|i: int, j: int| 0 <= i < j < r@.len() ==> r@[i] != r@[j],
        forall|i: int, j: int|
            0 <= i < j < r@.len() ==> texts_le(seq![keys@[r@[i] as int]@], seq![keys@[r@[j] as int]@]),
{
    let mut wrapped: Vec<Vec<String>> = Vec::new();
    let mut i: usize = 0;
    while i < keys.len()
        invariant
            i <= keys.len(),
            wrapped@.len() == i,
            forall|j: int| 0 <= j < i ==> keys_view(wrapped@)[j] == seq![(#[trigger] keys@[j])@],
        decreases keys.len() - i,
    {
        let mut k: Vec<String> = Vec::new();
        k.push(keys[i].clone());
        assert(strings_view(k@) =~= seq![keys@[i as int]@]);
        wrapped.push(k);
        i += 1;
    }
    let order = stable_sorted_positions(&wrapped);
    assert(keys_view(wrapped@) =~= single_keys(keys@));
    assert forall|i: int, j: int| 0 <= i < j < order@.len() implies texts_le(seq![keys@[order@[i] as int]@], seq![keys@[order@[j] as int]@]) by {
        assert(keys_view(wrapped@)[order@[i] as int] == seq![keys@[order@[i] as int]@]);
        assert(keys_view(wrapped@)[order@[j] as int] == seq![keys@[order@[j] as int]@]);
    }
    order
}

/// The builds locked on some date: one per combination, in order.
pub open spec fn builds_locked(
    config: TuxWranglerConfig,
    builds: Seq<SingleBuild>,
    bcs: Seq<(SingleVersioned, BaseConfig)>,
    fcs: Seq<(SingleVersioned, InstallationConfig)>,
) -> bool {
    exists|date: Seq<char>|
        #![trigger is_date_stamp(date)]
        is_date_stamp(date) && builds.len() == all_combos(config, config.builds@.len() as int).len() && forall|k: int|
            0 <= k < builds.len() ==> combo_built(#[trigger] builds[k], config, all_combos(config, config.builds@.len() as int)[k], bcs, fcs, date)
}

/// On some date, some combination cannot be locked.
pub open spec fn builds_fail(
    config: TuxWranglerConfig,
    bcs: Seq<(SingleVersioned, BaseConfig)>,
    fcs: Seq<(SingleVersioned, InstallationConfig)>,
) -> bool {
    exists|date: Seq<char>|
        #![trigger is_date_stamp(date)]
        is_date_stamp(date) && exists|k: int| 0 <= k < all_combos(config, config.builds@.len() as int).len()
            && !combo_buildable(config, #[trigger] all_combos(config, config.builds@.len() as int)[k], bcs, fcs, date)
}

/// Entry `i` is the first one with its key.
pub open spec fn is_first<T>(entries: Seq<(SingleVersioned, T)>, i: int) -> bool {
    keyed_index(entries, sv_view(entries[i].0)) == Some(i)
}

/// `out[i]` is the value of entry `p[i]`; `p` lists, each once, exactly the
/// entries that come first for their key.
pub open spec fn arranged_by<T>(entries: Seq<(SingleVersioned, T)>, out: Seq<T>, p: Seq<int>) -> bool {
    &&& p.len() == out.len()
    &&& forall|i: int| 0 <= i < p.len() ==> 0 <= #[trigger] p[i] < entries.len() && is_first(entries, p[i]) && out[i] == entries[p[i]].1
    &&& forall|i: int, j: int| 0 <= i < j < p.len() ==> p[i] != p[j]
    &&& forall|j: int| 0 <= j < entries.len() && is_first(entries, j) ==> #[trigger] crate::order::reaches(p, j)
}

/// The values of the entries, one per distinct key, in some order.
pub open spec fn one_per_key<T>(entries: Seq<(SingleVersioned, T)>, out: Seq<T>) -> bool {
    exists|p: Seq<int>| #![trigger arranged_by(entries, out, p)] arranged_by(entries, out, p)
}

/// The lock has a base of this name and version.
pub open spec fn lock_has_base(lock: TuxWranglerConfigLocked, s: SingleVersioned) -> bool {
    exists|i: int| 0 <= i < lock.bases@.len() && (#[trigger] lock.bases@[i]).name@ == s.name@ && lock.bases@[i].version@ == s.version@
}

/// The lock has a feature of this name and version.
pub open spec fn lock_has_feature(lock: TuxWranglerConfigLocked, s: SingleVersioned) -> bool {
    exists|i: int| 0 <= i < lock.features@.len() && (#[trigger] lock.features@[i]).name@ == s.name@ && lock.features@[i].version@ == s.version@
}

/// Every build's base and features are entries of the lock.
pub open spec fn builds_use_lock_entries(lock: TuxWranglerConfigLocked) -> bool {
    forall|k: int|
        0 <= k < lock.builds@.len() ==> lock_has_base(lock, (#[trigger] lock.builds@[k]).base) && forall|d: int|
            0 <= d < lock.builds@[k].features@.len() ==> #[trigger] lock_has_feature(lock, lock.builds@[k].features@[d])
}

/// The first entry for a key carries that key and comes first for it.
proof fn lemma_keyed_index_first<T>(entries: Seq<(SingleVersioned, T)>, key: (Seq<char>, Seq<char>))
    ensures
        keyed_index(entries, key) matches Some(j) ==> 0 <= j < entries.len() && sv_view(entries[j].0) == key && is_first(entries, j),
    decreases entries.len(),
{
    if entries.len() > 0 {
        lemma_keyed_index_first(entries.drop_last(), key);
        match keyed_index(entries.drop_last(), key) {
            Some(j) => {
                assert(entries.drop_last()[j] == entries[j]);
                lemma_keyed_index_prefix_same(entries, j);
            },
            None => {},
        }
    }
}

/// A key first found among the leading entries is found at the same place in all of them.
proof fn lemma_keyed_index_prefix_same<T>(entries: Seq<(SingleVersioned, T)>, j: int)
    requires
        0 <= j < entries.len() - 1,
        is_first(entries.drop_last(), j),
    ensures
        is_first(entries, j),
{
    assert(entries.drop_last()[j] == entries[j]);
}

/// The positions of the entries that come first for their key, ascending.
fn first_positions<T>(entries: &Vec<(SingleVersioned, T)>) -> (r: Vec<usize>)
    ensures
        forall|t: int| 0 <= t < r@.len() ==> #[trigger] r@[t] < entries@.len() && is_first(entries@, r@[t] as int),
        forall|t: int, u: int| 0 <= t < u < r@.len() ==> r@[t] < r@[u],
        forall|j: int| 0 <= j < entries@.len() && is_first(entries@, j) ==> exists|t: int| 0 <= t < r@.len() && #[trigger] r@[t] == j,
{
    let mut r: Vec<usize> = Vec::new();
    let mut i: usize = 0;
    while i < entries.len()
        invariant
            i <= entries.len(),
            forall|t: int| 0 <= t < r@.len() ==> #[trigger] r@[t] < i && is_first(entries@, r@[t] as int),
            forall|t: int, u: int| 0 <= t < u < r@.len() ==> r@[t] < r@[u],
            forall|j: int| 0 <= j < i && is_first(entries@, j) ==> exists|t: int| 0 <= t < r@.len() && #[trigger] r@[t] == j,
        decreases entries.len() - i,
    {
        let ghost old_r = r@;
        if let Some(f) = find_keyed(entries, &entries[i].0) {
            if f == i {
                r.push(i);
                assert(r@[r@.len() - 1] == i);
            }
        }
        assert forall|j: int| 0 <= j < i + 1 && is_first(entries@, j) implies exists|t: int| 0 <= t < r@.len() && #[trigger] r@[t] == j by {
            if j < i {
                let t = choose|t: int| 0 <= t < old_r.len() && #[trigger] old_r[t] == j;
                assert(r@[t] == old_r[t]);
            } else {
                assert(r@[r@.len() - 1] == i);
            }
        }
        i += 1;
    }
    r
}

/// Positions as integers.
pub open spec fn usizes_view(v: Seq<usize>) -> Seq<int> {
    v.map_values(|x: usize| x as int)
}

/// The positions of the entries that come first for their key, ordered by
/// `keys` (one per entry), equal keys in their first order.
fn canonical_first_positions<T>(entries: &Vec<(SingleVersioned, T)>, keys: &Vec<String>) -> (r: Vec<usize>)
    requires
        keys@.len() == entries@.len(),
    ensures
        forall|k: int| 0 <= k < r@.len() ==> #[trigger] r@[k] < entries@.len() && is_first(entries@, r@[k] as int),
        forall|k: int, l: int| 0 <= k < l < r@.len() ==> r@[k] != r@[l],
        forall|j: int| 0 <= j < entries@.len() && is_first(entries@, j) ==> #[trigger] crate::order::reaches(usizes_view(r@), j),
        forall|i: int, j: int| 0 <= i < j < r@.len() ==> texts_le(seq![keys@[r@[i] as int]@], seq![keys@[r@[j] as int]@]),
{
    let firsts = first_positions(entries);
    let mut fkeys: Vec<String> = Vec::new();
    let mut t: usize = 0;
    while t < firsts.len()
        invariant
            t <= firsts.len(),
            keys@.len() == entries@.len(),
            forall|u: int| 0 <= u < firsts@.len() ==> #[trigger] firsts@[u] < entries@.len(),
            fkeys@.len() == t,
            forall|u: int| 0 <= u < t ==> #[trigger] fkeys@[u] == keys@[firsts@[u] as int],
        decreases firsts.len() - t,
    {
        fkeys.push(keys[firsts[t]].clone());
        t += 1;
    }
    let order = canonical_positions(&fkeys);
    let ghost ov = order@.map_values(|x: usize| x as int);
    proof {
        crate::order::lemma_permutation_onto(ov, fkeys@.len());
    }
    let mut r: Vec<usize> = Vec::new();
    let mut k: usize = 0;
    while k < order.len()
        invariant
            k <= order.len() == fkeys@.len() == firsts@.len(),
            ov == order@.map_values(|x: usize| x as int),
            is_index_permutation(ov, fkeys@.len()),
            forall|u: int| 0 <= u < firsts@.len() ==> #[trigger] firsts@[u] < entries@.len(),
            r@.len() == k,
            forall|u: int| 0 <= u < k ==> #[trigger] r@[u] == firsts@[order@[u] as int],
        decreases order.len() - k,
    {
        assert(ov[k as int] == order@[k as int] as int);
        r.push(firsts[order[k]]);
        k += 1;
    }
    proof {
        let rv = usizes_view(r@);
        assert forall|k: int| 0 <= k < r@.len() implies #[trigger] r@[k] < entries@.len() && is_first(entries@, r@[k] as int) by {
            assert(ov[k] == order@[k] as int);
        }
        assert forall|k: int, l: int| 0 <= k < l < r@.len() implies r@[k] != r@[l] by {
            assert(ov[k] == order@[k] as int);
            assert(ov[l] == order@[l] as int);
            if order@[k] < order@[l] {
                assert(firsts@[order@[k] as int] < firsts@[order@[l] as int]);
            } else {
                assert(firsts@[order@[l] as int] < firsts@[order@[k] as int]);
            }
        }
        assert forall|j: int| 0 <= j < entries@.len() && is_first(entries@, j) implies #[trigger] crate::order::reaches(rv, j) by {
            let u = choose|u: int| 0 <= u < firsts@.len() && #[trigger] firsts@[u] == j;
            assert(crate::order::reaches(ov, u));
            let k = choose|k: int| 0 <= k < ov.len() && #[trigger] ov[k] == u;
            assert(rv[k] == j);
        }
        assert forall|i: int, j: int| 0 <= i < j < r@.len() implies texts_le(seq![keys@[r@[i] as int]@], seq![keys@[r@[j] as int]@]) by {
            assert(fkeys@[order@[i] as int] == keys@[r@[i] as int]);
            assert(fkeys@[order@[j] as int] == keys@[r@[j] as int]);
        }
    }
    r
}

/// Moves out the values at the given distinct positions, in that order.
fn take_in_order<T>(entries: Vec<(SingleVersioned, T)>, order: &Vec<usize>) -> (r: Vec<T>)
    requires
        forall|k: int| 0 <= k < order@.len() ==> #[trigger] order@[k] < entries@.len(),
        forall|k: int, l: int| 0 <= k < l < order@.len() ==> order@[k] != order@[l],
    ensures
        r@.len() == order@.len(),
        forall|k: int| 0 <= k < order@.len() ==> #[trigger] r@[k] == entries@[order@[k] as int].1,
{
    let ghost orig = entries@;
    let ghost ov = order@.map_values(|x: usize| x as int);
    let n = entries.len();
    let mut entries = entries;
    let mut held: Vec<Option<T>> = Vec::new();
    while entries.len() > 0
        invariant
            n == orig.len(),
            entries@ == orig.subrange(0, entries@.len() as int),
            held@.len() + entries@.len() == n,
            forall|j: int| 0 <= j < held@.len() ==> #[trigger] held@[j] == Some(orig[n - 1 - j].1),
        decreases entries.len(),
    {
        let e = entries.pop();
        match e {
            Some(pair) => held.push(Some(pair.1)),
            None => {},
        }
    }
    let mut r: Vec<T> = Vec::new();
    let mut k: usize = 0;
    while k < order.len()
        invariant
            n == orig.len() == held@.len(),
            ov == order@.map_values(|x: usize| x as int),
            forall|t: int| 0 <= t < order@.len() ==> #[trigger] order@[t] < n,
            forall|t: int, l: int| 0 <= t < l < order@.len() ==> order@[t] != order@[l],
            k <= order@.len(),
            r@.len() == k,
            forall|t: int| 0 <= t < k ==> #[trigger] r@[t] == orig[order@[t] as int].1,
            forall|j: int| 0 <= j < n && (forall|t: int| 0 <= t < k ==> #[trigger] order@[t] != n - 1 - j) ==> #[trigger] held@[j] == Some(orig[n - 1 - j].1),
        decreases order.len() - k,
    {
        let pos = order[k];
        assert(ov[k as int] == pos as int);
        let idx = n - 1 - pos;
        assert forall|t: int| 0 <= t < k implies #[trigger] order@[t] != n - 1 - idx by {
            assert(ov[t] == order@[t] as int);
        }
        let mut slot: Option<T> = None;
        held.set_and_swap(idx, &mut slot);
        match slot {
            Some(v) => r.push(v),
            None => {},
        }
        assert forall|j: int| 0 <= j < n && (forall|t: int| 0 <= t < k + 1 ==> #[trigger] order@[t] != n - 1 - j) implies #[trigger] held@[j] == Some(orig[n - 1 - j].1) by {
            assert(order@[k as int] != n - 1 - j);
        }
        k += 1;
    }
    r
}

impl TuxWranglerConfig {
    /// Every build expanded and locked with today's date (UTC).
    pub fn individual_builds(
        &self,
        base_configs: &Vec<(SingleVersioned, BaseConfig)>,
        feature_configs: &Vec<(SingleVersioned, InstallationConfig)>,
    ) -> (r: Result<Vec<SingleBuild>, Error>)
        ensures
            r matches Ok(v) ==> builds_locked(*self, v@, base_configs@, feature_configs@),
            r is Err ==> builds_fail(*self, base_configs@, feature_configs@),
    {
        let date = utc_date_stamp();
        let r = self.individual_builds_on(base_configs, feature_configs, date.as_str());
        assert(is_date_stamp(date@));
        r
    }

    /// The lock: the declared base versions pinned (`digests` as for
    /// `base_configs`) and the declared feature versions populated, one entry
    /// per distinct name and abstract version (the first declaration of a pair
    /// wins, as in every lookup by key), each list in canonical order of
    /// `{name}-{version}`; and every build expanded.
    pub fn build_locked_with(
        self,
        table: &Vec<(SingleVersioned, String)>,
        digests: &Vec<Option<String>>,
    ) -> (r: Result<TuxWranglerConfigLocked, Error>)
        ensures
            r matches Ok(lock) ==> {
                &&& lock.registry == self.registry
                &&& exists|bcs: Seq<(SingleVersioned, BaseConfig)>, fcs: Seq<(SingleVersioned, InstallationConfig)>|
                    #![trigger base_table_ok(self, table@, digests@, bcs), feature_table_ok(self, table@, fcs)]
                    base_table_ok(self, table@, digests@, bcs) && feature_table_ok(self, table@, fcs)
                    && one_per_key(bcs, lock.bases@) && one_per_key(fcs, lock.features@)
                    && builds_locked(self, lock.builds@, bcs, fcs)
                &&& builds_use_lock_entries(lock)
                &&& forall|i: int, j: int| 0 <= i < j < lock.bases@.len() ==> texts_le(
                    seq![lock_key((#[trigger] lock.bases@[i]).name@, lock.bases@[i].version@)],
                    seq![lock_key((#[trigger] lock.bases@[j]).name@, lock.bases@[j].version@)])
                &&& forall|i: int, j: int| 0 <= i < j < lock.features@.len() ==> texts_le(
                    seq![lock_key((#[trigger] lock.features@[i]).name@, lock.features@[i].version@)],
                    seq![lock_key((#[trigger] lock.features@[j]).name@, lock.features@[j].version@)])
            },
            r is Err ==> some_base_fails(self, table@, digests@) || some_feature_fails(self, table@) || exists|
                bcs: Seq<(SingleVersioned, BaseConfig)>,
                fcs: Seq<(SingleVersioned, InstallationConfig)>,
            |
                #![trigger base_table_ok(self, table@, digests@, bcs), feature_table_ok(self, table@, fcs)]
                base_table_ok(self, table@, digests@, bcs) && feature_table_ok(self, table@, fcs) && builds_fail(self, bcs, fcs),
    {
        let bcs = match self.base_configs(table, digests) {
            Ok(v) => v,
            Err(e) => return Err(e),
        };
        let fcs = match self.feature_configs(table) {
            Ok(v) => v,
            Err(e) => return Err(e),
        };
        let builds = match self.individual_builds(&bcs, &fcs) {
            Ok(v) => v,
            Err(e) => {
                assert(base_table_ok(self, table@, digests@, bcs@) && feature_table_ok(self, table@, fcs@));
                return Err(e);
            },
        };
        let ghost bcs_v = bcs@;
        let ghost fcs_v = fcs@;
        let mut bkeys: Vec<String> = Vec::new();
        let mut i: usize = 0;
        while i < bcs.len()
            invariant
                i <= bcs.len(),
                bkeys@.len() == i,
                forall|j: int| 0 <= j < i ==> (#[trigger] bkeys@[j])@ == lock_key(bcs@[j].1.name@, bcs@[j].1.version@),
            decreases bcs.len() - i,
        {
            bkeys.push(bcs[i].1.single_versioned().to_text());
            i += 1;
        }
        let bpos = canonical_first_positions(&bcs, &bkeys);
        let bases = take_in_order(bcs, &bpos);
        let mut fkeys: Vec<String> = Vec::new();
        let mut i: usize = 0;
        while i < fcs.len()
            invariant
                i <= fcs.len(),
                fkeys@.len() == i,
                forall|j: int| 0 <= j < i ==> (#[trigger] fkeys@[j])@ == lock_key(fcs@[j].1.name@, fcs@[j].1.version@),
            decreases fcs.len() - i,
        {
            fkeys.push(fcs[i].1.single_versioned().to_text());
            i += 1;
        }
        let fpos = canonical_first_positions(&fcs, &fkeys);
        let features = take_in_order(fcs, &fpos);
        let lock = TuxWranglerConfigLocked { registry: self.registry, bases, features, builds };
        proof {
            let pb = usizes_view(bpos@);
            let pf = usizes_view(fpos@);
            assert(arranged_by(bcs_v, lock.bases@, pb));
            assert(arranged_by(fcs_v, lock.features@, pf));
            assert forall|i: int, j: int| 0 <= i < j < lock.bases@.len() implies texts_le(
                seq![lock_key((#[trigger] lock.bases@[i]).name@, lock.bases@[i].version@)],
                seq![lock_key((#[trigger] lock.bases@[j]).name@, lock.bases@[j].version@)]) by {
                assert(lock_key(lock.bases@[i].name@, lock.bases@[i].version@) == bkeys@[bpos@[i] as int]@);
                assert(lock_key(lock.bases@[j].name@, lock.bases@[j].version@) == bkeys@[bpos@[j] as int]@);
            }
            assert forall|i: int, j: int| 0 <= i < j < lock.features@.len() implies texts_le(
                seq![lock_key((#[trigger] lock.features@[i]).name@, lock.features@[i].version@)],
                seq![lock_key((#[trigger] lock.features@[j]).name@, lock.features@[j].version@)]) by {
                assert(lock_key(lock.features@[i].name@, lock.features@[i].version@) == fkeys@[fpos@[i] as int]@);
                assert(lock_key(lock.features@[j].name@, lock.features@[j].version@) == fkeys@[fpos@[j] as int]@);
            }
            lemma_builds_use_entries(self, lock, bcs_v, fcs_v, pb, pf);
            assert(base_table_ok(self, table@, digests@, bcs_v) && feature_table_ok(self, table@, fcs_v));
        }
        Ok(lock)
    }
}

/// The builds' bases and features are among entries that list every first entry.
proof fn lemma_builds_use_entries(
    config: TuxWranglerConfig,
    lock: TuxWranglerConfigLocked,
    bcs: Seq<(SingleVersioned, BaseConfig)>,
    fcs: Seq<(SingleVersioned, InstallationConfig)>,
    pb: Seq<int>,
    pf: Seq<int>,
)
    requires
        builds_locked(config, lock.builds@, bcs, fcs),
        arranged_by(bcs, lock.bases@, pb),
        arranged_by(fcs, lock.features@, pf),
    ensures
        builds_use_lock_entries(lock),
{
    let date = choose|date: Seq<char>| #![trigger is_date_stamp(date)] is_date_stamp(date) && lock.builds@.len() == all_combos(config, config.builds@.len() as int).len() && forall|k: int|
        0 <= k < lock.builds@.len() ==> combo_built(#[trigger] lock.builds@[k], config, all_combos(config, config.builds@.len() as int)[k], bcs, fcs, date);
    let all = all_combos(config, config.builds@.len() as int);
    assert forall|k: int| 0 <= k < lock.builds@.len() implies lock_has_base(lock, (#[trigger] lock.builds@[k]).base) && forall|d: int|
        0 <= d < lock.builds@[k].features@.len() ==> #[trigger] lock_has_feature(lock, lock.builds@[k].features@[d]) by {
        let combo = all[k];
        assert(combo_built(lock.builds@[k], config, combo, bcs, fcs, date));
        lemma_keyed_index_first(bcs, combo.1.0);
        let j = keyed_index(bcs, combo.1.0)->0;
        assert(crate::order::reaches(pb, j));
        let i = choose|i: int| 0 <= i < pb.len() && #[trigger] pb[i] == j;
        assert(lock.bases@[i] == bcs[j].1);
        assert(lock_has_base(lock, lock.builds@[k].base));
        assert forall|d: int| 0 <= d < lock.builds@[k].features@.len() implies #[trigger] lock_has_feature(lock, lock.builds@[k].features@[d]) by {
            let key = combo.1.1[d];
            assert(keyed_index(fcs, key) is Some);
            lemma_keyed_index_first(fcs, key);
            let jf = keyed_index(fcs, key)->0;
            assert(crate::order::reaches(pf, jf));
            let i2 = choose|i: int| 0 <= i < pf.len() && #[trigger] pf[i] == jf;
            assert(lock.features@[i2] == fcs[jf].1);
            assert(lock.builds@[k].features@[d] == concrete_features(fcs, combo.1.1)[d]);
        }
    }
}

} // verus!
