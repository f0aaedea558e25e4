use tw_config::config::{
    BaseDefinition, Build, BuildDefinition, FeatureDefinition, TuxWranglerConfig, Versioned, VersionedDefinition,
};
use tw_config::error::Error;
use tw_config::lock::{DockerInstallation, ImageIdentifier, Installation, Layer, LayerType, SingleVersioned};
use tw_config::resolve::{actual_version, image_identifier, image_registry, image_tag};
use tw_config::update::target_name;

fn strings(v: &[&str]) -> Vec<String> {
    v.iter().map(|s| s.to_string()).collect()
}

fn definition(name: &str, versions: &[&str], version_tag: Option<&str>) -> VersionedDefinition {
    VersionedDefinition {
        versioned: Versioned { name: name.to_string(), versions: strings(versions) },
        version_tag: version_tag.map(|t| t.to_string()),
        fetch_version: None,
    }
}

fn feature(name: &str, versions: &[&str], tag: &str) -> FeatureDefinition {
    FeatureDefinition {
        definition: definition(name, versions, Some(tag)),
        steps: vec![Layer {
            layer_type: LayerType::Actual,
            installation: Installation::Docker(DockerInstallation {
                commands: strings(&["RUN install {{version}}"]),
                dependencies: vec![],
            }),
            copy: vec![],
        }],
    }
}

fn named(n: &str) -> BuildDefinition {
    BuildDefinition::Named(n.to_string())
}

fn sample_config() -> TuxWranglerConfig {
    TuxWranglerConfig {
        registry: "r".to_string(),
        bases: vec![BaseDefinition {
            definition: definition("b", &["1", "2"], Some("b{{version}}")),
            image: "img/b:{{version}}".to_string(),
            package_manager: "pm".to_string(),
        }],
        features: vec![feature("f", &["x"], "f{{version}}"), feature("g", &["y", "z"], "g{{version}}")],
        builds: vec![Build {
            bases: vec![named("b")],
            features: vec![vec![named("f")], vec![named("g")]],
            image_name: "img-{{base.name}}".to_string(),
            image_tag: "{{base.v.version}}-{{g.version}}".to_string(),
        }],
    }
}

fn identity_table(config: &TuxWranglerConfig) -> Vec<(SingleVersioned, String)> {
    let mut table = vec![];
    for b in &config.bases {
        for v in &b.definition.versioned.versions {
            table.push((SingleVersioned { name: b.name(), version: v.clone() }, v.clone()));
        }
    }
    for f in &config.features {
        for v in &f.definition.versioned.versions {
            table.push((SingleVersioned { name: f.name(), version: v.clone() }, v.clone()));
        }
    }
    table
}

fn pair(c: &(SingleVersioned, Vec<SingleVersioned>)) -> (String, Vec<String>) {
    (c.0.to_text(), c.1.iter().map(|f| f.to_text()).collect())
}

#[test]
fn cartesian_expansion_orders_base_then_groups() {
    let config = sample_config();
    let combos: Vec<(String, Vec<String>)> = config.expand_build(&config.builds[0]).iter().map(pair).collect();
    assert_eq!(
        combos,
        vec![
            ("b-1".to_string(), strings(&["f-x", "g-y"])),
            ("b-1".to_string(), strings(&["f-x", "g-z"])),
            ("b-2".to_string(), strings(&["f-x", "g-y"])),
            ("b-2".to_string(), strings(&["f-x", "g-z"])),
        ]
    );
}

#[test]
fn no_feature_groups_gives_one_combination_per_base() {
    let mut config = sample_config();
    config.builds[0].features = vec![];
    assert_eq!(config.expand_build(&config.builds[0]).len(), 2);
    config.builds[0].features = vec![vec![named("f")], vec![]];
    assert_eq!(config.expand_build(&config.builds[0]).len(), 0);
}

#[test]
fn inline_versions_override_declared_ones() {
    let config = sample_config();
    let build = Build {
        bases: vec![BuildDefinition::Versioned(Versioned { name: "b".to_string(), versions: strings(&["2"]) })],
        features: vec![vec![named("g"), named("f")]],
        image_name: "n".to_string(),
        image_tag: "t".to_string(),
    };
    let combos: Vec<(String, Vec<String>)> = config.expand_build(&build).iter().map(pair).collect();
    assert_eq!(
        combos,
        vec![
            ("b-2".to_string(), strings(&["g-y"])),
            ("b-2".to_string(), strings(&["g-z"])),
            ("b-2".to_string(), strings(&["f-x"])),
        ]
    );
    assert_eq!(config.base_versions(&"b".to_string()), strings(&["1", "2"]));
    assert_eq!(config.feature_versions(&"g".to_string()), strings(&["y", "z"]));
    assert!(config.feature_versions(&"h".to_string()).is_empty());
}

#[test]
fn lock_has_one_build_per_combination() {
    let config = sample_config();
    let table = identity_table(&config);
    let images = config.base_images(&table).unwrap();
    assert_eq!(images, strings(&["img/b:1", "img/b:2"]));
    let digests = vec![Some("sha256:aa".to_string()), None];
    let lock = config.build_locked_with(&table, &digests).unwrap();
    assert_eq!(lock.builds.len(), 2 * 1 * 2);
    assert_eq!(lock.bases.len(), 2);
    assert!(matches!(&lock.bases[0].identifier, ImageIdentifier::Digest { digest } if digest == "sha256:aa"));
    assert!(matches!(&lock.bases[1].identifier, ImageIdentifier::Tag { tag } if tag == "2"));
    assert_eq!(lock.bases[0].registry, "img/b");
    assert_eq!(lock.bases[0].tag, Some("b1".to_string()));
    let targets: Vec<&str> = lock.builds.iter().map(|b| b.target.as_str()).collect();
    assert_eq!(targets, vec!["b1-fx-gy", "b1-fx-gz", "b2-fx-gy", "b2-fx-gz"]);
    assert_eq!(lock.builds[1].image_name, "img-b");
    assert_eq!(lock.builds[1].image_tag, "1-z");
    let names: Vec<String> = lock.features.iter().map(|f| format!("{}-{}", f.name, f.version)).collect();
    assert_eq!(names, strings(&["f-x", "g-y", "g-z"]));
    match &lock.features[0].steps[0].installation {
        Installation::Docker(d) => assert_eq!(d.commands, strings(&["RUN install x"])),
        _ => panic!("docker step expected"),
    }
}

#[test]
fn lock_sorting_is_canonical() {
    let mut config = sample_config();
    config.features = vec![feature("g", &["z", "y"], "g"), feature("f", &["x"], "f")];
    config.builds = vec![];
    let table = identity_table(&config);
    let lock = config.build_locked_with(&table, &vec![]).unwrap();
    let names: Vec<String> = lock.features.iter().map(|f| format!("{}-{}", f.name, f.version)).collect();
    assert_eq!(names, strings(&["f-x", "g-y", "g-z"]));
}

#[test]
fn digest_fallback_to_tag() {
    assert!(matches!(image_identifier("img:v1", None), Ok(ImageIdentifier::Tag { tag }) if tag == "v1"));
    assert!(matches!(image_identifier("img", None), Err(Error::NoDigest { .. })));
    assert!(matches!(image_identifier("img", Some("d".to_string())), Ok(ImageIdentifier::Digest { digest }) if digest == "d"));
}

#[test]
fn image_reference_parts() {
    assert_eq!(image_registry("public.ecr.aws/al/al:2023"), "public.ecr.aws/al/al");
    assert_eq!(image_tag("public.ecr.aws/al/al:2023"), Some("2023".to_string()));
    assert_eq!(image_registry("img"), "img");
    assert_eq!(image_tag("img"), None);
    assert_eq!(image_tag("a:b:c"), Some("b".to_string()));
}

#[test]
fn target_joins_present_tags() {
    assert_eq!(target_name(&vec![Some("al2".to_string()), None, Some("".to_string()), Some("py3".to_string())]), "al2-py3");
    assert_eq!(target_name(&vec![None]), "");
}

#[test]
fn missing_versions_are_reported() {
    let table = vec![(SingleVersioned { name: "a".to_string(), version: "1.*".to_string() }, "1.4".to_string())];
    assert_eq!(actual_version(&table, &"a".to_string(), &"1.*".to_string()).unwrap(), "1.4");
    assert!(matches!(actual_version(&table, &"a".to_string(), &"2".to_string()), Err(Error::VersionNotFound { .. })));
    assert!(matches!(actual_version(&table, &"b".to_string(), &"2".to_string()), Err(Error::VersionsNotFound { .. })));
}

#[test]
fn missing_base_config_fails_build() {
    let config = sample_config();
    let table = identity_table(&config);
    let features = config.feature_configs(&table).unwrap();
    assert!(matches!(config.individual_builds_on(&vec![], &features, "24-01-01"), Err(Error::MissingBase { .. })));
    let bases = config.base_configs(&table, &vec![]).unwrap();
    assert_eq!(config.individual_builds_on(&bases, &features, "24-01-01").unwrap().len(), 4);
}

#[test]
fn single_base_lock_scenario() {
    let config = TuxWranglerConfig {
        registry: "r".to_string(),
        bases: vec![BaseDefinition {
            definition: definition("a", &["1.0"], None),
            image: "a:1.0".to_string(),
            package_manager: "pm".to_string(),
        }],
        features: vec![],
        builds: vec![Build { bases: vec![named("a")], features: vec![], image_name: "n".to_string(), image_tag: "t".to_string() }],
    };
    let table = identity_table(&config);
    let lock = config.build_locked_with(&table, &vec![None]).unwrap();
    assert_eq!(lock.registry, "r");
    assert_eq!(lock.bases.len(), 1);
    assert!(matches!(&lock.bases[0].identifier, ImageIdentifier::Tag { tag } if tag == "1.0"));
    assert_eq!(lock.bases[0].package_manager, "pm");
    assert_eq!(lock.bases[0].tag, None);
    assert!(lock.features.is_empty());
    assert_eq!(lock.builds.len(), 1);
    assert_eq!(lock.builds[0].target, "");
    assert_eq!(lock.builds[0].image_name, "n");
    assert_eq!(lock.builds[0].image_tag, "t");
    assert!(lock.builds[0].features.is_empty());
}

#[test]
fn doubly_declared_version_gives_one_entry() {
    let mut config = sample_config();
    config.bases.push(BaseDefinition {
        definition: definition("b", &["2"], Some("other")),
        image: "elsewhere/b:{{version}}".to_string(),
        package_manager: "pm".to_string(),
    });
    let table = identity_table(&config);
    let lock = config.build_locked_with(&table, &vec![]).unwrap();
    let names: Vec<String> = lock.bases.iter().map(|b| format!("{}-{}", b.name, b.version)).collect();
    assert_eq!(names, strings(&["b-1", "b-2"]));
    assert_eq!(lock.bases[1].registry, "img/b");
    for build in &lock.builds {
        assert!(lock.bases.iter().any(|b| b.name == build.base.name && b.version == build.base.version));
    }
}
