//! The resolved lock: pinned bases, populated features and expanded builds.
use vstd::prelude::*;

use crate::text::push_text;

verus! {

/// A name together with one version of it.
#[derive(Debug, Clone)]
pub struct SingleVersioned {
    pub name: String,
    pub version: String,
}

impl PartialEq for SingleVersioned {
    fn eq(&self, other: &SingleVersioned) -> (r: bool) {
        self.name == other.name && self.version == other.version
    }
}

impl vstd::std_specs::cmp::PartialEqSpecImpl for SingleVersioned {
    open spec fn obeys_eq_spec() -> bool {
        true
    }

    open spec fn eq_spec(&self, other: &SingleVersioned) -> bool {
        self.name@ == other.name@ && self.version@ == other.version@
    }
}

impl Eq for SingleVersioned {}

impl SingleVersioned {
    /// Whether both name and version agree.
    pub open spec fn same(&self, other: &SingleVersioned) -> bool {
        self.name@ == other.name@ && self.version@ == other.version@
    }

    /// The text `{name}-{version}`.
    pub open spec fn text_spec(&self) -> Seq<char> {
        self.name@ + "-"@ + self.version@
    }

    /// A copy with the same name and version.
    pub fn duplicate(&self) -> (r: SingleVersioned)
        ensures
            r == *self,
    {
        SingleVersioned { name: self.name.clone(), version: self.version.clone() }
    }

    /// The text `{name}-{version}`.
    pub fn to_text(&self) -> (r: String)
        ensures
            r@ == self.text_spec(),
    {
        let mut r = self.name.clone();
        push_text(&mut r, "-");
        push_text(&mut r, self.version.as_str());
        r
    }
}

/// How a base image is pinned.
#[derive(Debug, Clone)]
pub enum ImageIdentifier {
    Tag { tag: String },
    Digest { digest: String },
}

impl ImageIdentifier {
    /// The suffix that pins an image: `:{tag}` or `@{digest}`.
    pub open spec fn text_spec(&self) -> Seq<char> {
        match self {
            ImageIdentifier::Tag { tag } => ":"@ + tag@,
            ImageIdentifier::Digest { digest } => "@"@ + digest@,
        }
    }

    /// The suffix that pins an image: `:{tag}` or `@{digest}`.
    pub fn to_text(&self) -> (r: String)
        ensures
            r@ == self.text_spec(),
    {
        match self {
            ImageIdentifier::Tag { tag } => {
                let mut r = String::from_str(":");
                push_text(&mut r, tag.as_str());
                r
            },
            ImageIdentifier::Digest { digest } => {
                let mut r = String::from_str("@");
                push_text(&mut r, digest.as_str());
                r
            },
        }
    }
}

/// A resolved base image.
#[derive(Debug, Clone)]
pub struct BaseConfig {
    pub name: String,
    pub version: String,
    pub registry: String,
    pub identifier: ImageIdentifier,
    pub package_manager: String,
    pub tag: Option<String>,
}

/// A resolved feature with its populated steps.
#[derive(Debug, Clone)]
pub struct InstallationConfig {
    pub name: String,
    pub version: String,
    pub steps: Vec<Layer>,
    pub tag: Option<String>,
}

/// Whether a step is an ephemeral build stage or part of the main chain.
#[derive(Debug, Clone, Copy, PartialEq, Eq, Structural)]
pub enum LayerType {
    Build,
    Actual,
}

impl Default for LayerType {
    fn default() -> (r: LayerType)
        ensures
            r == LayerType::Actual,
    {
        LayerType::Actual
    }
}

/// One step of a feature.
#[derive(Debug, Clone)]
pub struct Layer {
    pub layer_type: LayerType,
    pub installation: Installation,
    /// Paths copied out of this step into later stages: `(source, destination)`.
    /// Every pair is copied as listed; a pair listed twice is copied twice.
    pub copy: Vec<(String, String)>,
}

/// How a step installs its feature.
#[derive(Debug, Clone)]
pub enum Installation {
    Docker(DockerInstallation),
    Rpm(RpmInstallation),
}

/// Build-file lines given verbatim, with the local paths they need.
#[derive(Debug, Clone)]
pub struct DockerInstallation {
    pub commands: Vec<String>,
    pub dependencies: Vec<String>,
}

/// Scripts keyed by package manager.
#[derive(Debug, Clone)]
pub struct RpmInstallation {
    /// Recipes keyed by package manager. A lookup takes the first recipe for a
    /// package manager, so a later one for the same key is never used.
    pub installation_methods: Vec<(String, RpmInstallationMethod)>,
}

/// The script lines for one package manager.
#[derive(Debug, Clone)]
pub struct RpmInstallationMethod {
    pub script: Vec<String>,
}

/// One expanded build target.
#[derive(Debug, Clone)]
pub struct SingleBuild {
    pub base: SingleVersioned,
    pub features: Vec<SingleVersioned>,
    pub target: String,
    pub image_name: String,
    pub image_tag: String,
}

impl SingleBuild {
    /// The text `{base} {feature} {feature} ...`.
    pub open spec fn text_spec(&self) -> Seq<char> {
        self.base.text_spec() + " "@ + crate::text::join_spec(
            self.features@.map_values(|f: SingleVersioned| f.text_spec()),
            " "@,
        )
    }

    /// The text `{base} {feature} {feature} ...`.
    pub fn to_text(&self) -> (r: String)
        ensures
            r@ == self.text_spec(),
    {
        let mut parts: Vec<String> = Vec::new();
        let mut i: usize = 0;
        while i < self.features.len()
            invariant
                i <= self.features.len(),
                parts@.len() == i,
                forall|j: int| 0 <= j < i ==> (#[trigger] parts@[j])@ == self.features@[j].text_spec(),
            decreases self.features.len() - i,
        {
            parts.push(self.features[i].to_text());
            i += 1;
        }
        assert(crate::text::strings_view(parts@) == self.features@.map_values(|f: SingleVersioned| f.text_spec()));
        let mut r = self.base.to_text();
        push_text(&mut r, " ");
        let rest = crate::text::join(&parts, " ");
        push_text(&mut r, rest.as_str());
        r
    }
}

/// The lock: the registry, pinned bases, populated features and expanded builds.
#[derive(Debug)]
pub struct TuxWranglerConfigLocked {
    pub registry: String,
    pub bases: Vec<BaseConfig>,
    pub features: Vec<InstallationConfig>,
    pub builds: Vec<SingleBuild>,
}

/// Index of the first base with the given name and version.
pub open spec fn base_index(bases: Seq<BaseConfig>, target: SingleVersioned) -> Option<int>
    decreases bases.len(),
{
    if bases.len() == 0 {
        None
    } else {
        match base_index(bases.drop_last(), target) {
            Some(i) => Some(i),
            None => if bases.last().name@ == target.name@ && bases.last().version@ == target.version@ {
                Some(bases.len() - 1)
            } else {
                None
            },
        }
    }
}

/// Index of the first feature with the given name and version.
pub open spec fn feature_index(features: Seq<InstallationConfig>, target: SingleVersioned) -> Option<int>
    decreases features.len(),
{
    if features.len() == 0 {
        None
    } else {
        match feature_index(features.drop_last(), target) {
            Some(i) => Some(i),
            None => if features.last().name@ == target.name@ && features.last().version@ == target.version@ {
                Some(features.len() - 1)
            } else {
                None
            },
        }
    }
}

/// The first base of a name and version has that name and version.
pub proof fn lemma_base_index(bases: Seq<BaseConfig>, target: SingleVersioned)
    ensures
        base_index(bases, target) matches Some(i) ==> 0 <= i < bases.len()
            && bases[i].name@ == target.name@ && bases[i].version@ == target.version@,
    decreases bases.len(),
{
    if bases.len() > 0 {
        lemma_base_index(bases.drop_last(), target);
    }
}

impl TuxWranglerConfigLocked {
    /// The first locked base with the given name and version.
    pub fn base(&self, target_base: &SingleVersioned) -> (r: Option<&BaseConfig>)
        ensures
            r matches Some(b) ==> base_index(self.bases@, *target_base) matches Some(i) && *b == self.bases@[i],
            r is None <==> base_index(self.bases@, *target_base) is None,
    {
        let mut i: usize = 0;
        while i < self.bases.len()
            invariant
                i <= self.bases.len(),
                base_index(self.bases@.subrange(0, i as int), *target_base) is None,
            decreases self.bases.len() - i,
        {
            assert(self.bases@.subrange(0, i + 1).drop_last() == self.bases@.subrange(0, i as int));
            if self.bases[i].name == target_base.name && self.bases[i].version == target_base.version {
                proof { lemma_base_prefix(self.bases@, *target_base, i as int + 1); }
                return Some(&self.bases[i]);
            }
            i += 1;
        }
        assert(self.bases@.subrange(0, i as int) == self.bases@);
        None
    }

    /// The package manager of the first locked base with the given name and version.
    pub fn package_manager_for_base(&self, base: &SingleVersioned) -> (r: Option<String>)
        ensures
            r matches Some(p) ==> base_index(self.bases@, *base) matches Some(i) && p@ == self.bases@[i].package_manager@,
            r is None <==> base_index(self.bases@, *base) is None,
    {
        match self.base(base) {
            Some(b) => Some(b.package_manager.clone()),
            None => None,
        }
    }

    /// The first locked feature with the given name and version.
    pub fn feature(&self, target_feature: &SingleVersioned) -> (r: Option<&InstallationConfig>)
        ensures
            r matches Some(f) ==> feature_index(self.features@, *target_feature) matches Some(i) && *f == self.features@[i],
            r is None <==> feature_index(self.features@, *target_feature) is None,
    {
        let mut i: usize = 0;
        while i < self.features.len()
            invariant
                i <= self.features.len(),
                feature_index(self.features@.subrange(0, i as int), *target_feature) is None,
            decreases self.features.len() - i,
        {
            assert(self.features@.subrange(0, i + 1).drop_last() == self.features@.subrange(0, i as int));
            if self.features[i].name == target_feature.name && self.features[i].version == target_feature.version {
                proof { lemma_feature_prefix(self.features@, *target_feature, i as int + 1); }
                return Some(&self.features[i]);
            }
            i += 1;
        }
        assert(self.features@.subrange(0, i as int) == self.features@);
        None
    }
}

proof fn lemma_base_prefix(bases: Seq<BaseConfig>, target: SingleVersioned, k: int)
    requires
        0 <= k <= bases.len(),
        base_index(bases.subrange(0, k), target) is Some,
    ensures
        base_index(bases, target) == base_index(bases.subrange(0, k), target),
    decreases bases.len() - k,
{
    if k < bases.len() {
        assert(bases.subrange(0, k + 1).drop_last() == bases.subrange(0, k));
        lemma_base_prefix(bases, target, k + 1);
    } else {
        assert(bases.subrange(0, k) == bases);
    }
}

proof fn lemma_feature_prefix(features: Seq<InstallationConfig>, target: SingleVersioned, k: int)
    requires
        0 <= k <= features.len(),
        feature_index(features.subrange(0, k), target) is Some,
    ensures
        feature_index(features, target) == feature_index(features.subrange(0, k), target),
    decreases features.len() - k,
{
    if k < features.len() {
        assert(features.subrange(0, k + 1).drop_last() == features.subrange(0, k));
        lemma_feature_prefix(features, target, k + 1);
    } else {
        assert(features.subrange(0, k) == features);
    }
}

} // verus!
