//! The declared configuration: bases, features and the builds to expand.
use vstd::prelude::*;

use crate::lock::Layer;

verus! {

/// The declared configuration.
#[derive(Debug)]
pub struct TuxWranglerConfig {
    /// The registry that images are pushed to.
    pub registry: String,
    pub bases: Vec<BaseDefinition>,
    pub features: Vec<FeatureDefinition>,
    pub builds: Vec<Build>,
}

/// A name with the versions asked for.
#[derive(Debug, Clone)]
pub struct Versioned {
    pub name: String,
    pub versions: Vec<String>,
}

/// An entry of a build: a declared name (all its versions), or a name with
/// versions of its own.
#[derive(Debug, Clone)]
pub enum BuildDefinition {
    Named(String),
    Versioned(Versioned),
}

/// A declared base image.
#[derive(Debug)]
pub struct BaseDefinition {
    pub definition: VersionedDefinition,
    /// The image reference template.
    pub image: String,
    pub package_manager: String,
}

/// A declared feature with its installation steps.
#[derive(Debug)]
pub struct FeatureDefinition {
    pub definition: VersionedDefinition,
    pub steps: Vec<Layer>,
}

/// A name, its versions, and how to tag and resolve them.
#[derive(Debug)]
pub struct VersionedDefinition {
    pub versioned: Versioned,
    pub version_tag: Option<String>,
    pub fetch_version: Option<FetchVersion>,
}

/// Where concrete versions come from.
#[derive(Debug)]
pub enum FetchVersion {
    Docker(DockerFetchVersion),
    Github(GithubFetchVersion),
}

/// The last output line of a command run in an image.
#[derive(Debug)]
pub struct DockerFetchVersion {
    pub image: String,
    pub command: Vec<String>,
}

/// A tag or branch of a source-hosted project.
#[derive(Debug)]
pub struct GithubFetchVersion {
    pub org: String,
    pub project: String,
    pub version_from: VersionFrom,
}

/// Whether tags or branches are searched.
#[derive(Debug, Clone, Copy, PartialEq, Eq, Structural)]
pub enum VersionFrom {
    Tag,
    Branch,
}

impl Default for VersionFrom {
    fn default() -> (r: VersionFrom)
        ensures
            r == VersionFrom::Tag,
    {
        VersionFrom::Tag
    }
}

/// A build request: bases, ordered feature groups, and name templates.
#[derive(Debug)]
pub struct Build {
    pub bases: Vec<BuildDefinition>,
    pub features: Vec<Vec<BuildDefinition>>,
    pub image_name: String,
    pub image_tag: String,
}

impl BuildDefinition {
    pub open spec fn name_spec(&self) -> Seq<char> {
        match self {
            BuildDefinition::Named(n) => n@,
            BuildDefinition::Versioned(v) => v.name@,
        }
    }

    /// The name this entry refers to.
    pub fn name(&self) -> (r: String)
        ensures
            r@ == self.name_spec(),
    {
        match self {
            BuildDefinition::Named(name) => name.clone(),
            BuildDefinition::Versioned(v) => v.name.clone(),
        }
    }
}

impl VersionedDefinition {
    /// The declared name.
    pub fn name(&self) -> (r: String)
        ensures
            r@ == self.versioned.name@,
    {
        self.versioned.name.clone()
    }
}

impl BaseDefinition {
    /// The declared name.
    pub fn name(&self) -> (r: String)
        ensures
            r@ == self.definition.versioned.name@,
    {
        self.definition.name()
    }
}

impl FeatureDefinition {
    /// The declared name.
    pub fn name(&self) -> (r: String)
        ensures
            r@ == self.definition.versioned.name@,
    {
        self.definition.name()
    }
}

} // verus!
