use tw_config::docker_file::{create_dockerfile, create_dockerfile_for, installation_layers, render_dockerfile, Directive};
use tw_config::error::Error;
use tw_config::lock::{
    BaseConfig, DockerInstallation, ImageIdentifier, Installation, InstallationConfig, Layer, LayerType,
    RpmInstallation, RpmInstallationMethod, SingleBuild, SingleVersioned, TuxWranglerConfigLocked,
};

fn sv(name: &str, version: &str) -> SingleVersioned {
    SingleVersioned { name: name.to_string(), version: version.to_string() }
}

fn base(name: &str, version: &str, tag: Option<&str>) -> BaseConfig {
    BaseConfig {
        name: name.to_string(),
        version: version.to_string(),
        registry: name.to_string(),
        identifier: ImageIdentifier::Tag { tag: version.to_string() },
        package_manager: "pm".to_string(),
        tag: tag.map(|t| t.to_string()),
    }
}

fn build(base: SingleVersioned, features: Vec<SingleVersioned>, target: &str) -> SingleBuild {
    SingleBuild { base, features, target: target.to_string(), image_name: "n".to_string(), image_tag: "t".to_string() }
}

fn texts(lines: &[Directive]) -> Vec<String> {
    lines.iter().map(|d| d.render()).collect()
}

fn docker_step(layer_type: LayerType, commands: &[&str], copy: &[(&str, &str)]) -> Layer {
    Layer {
        layer_type,
        installation: Installation::Docker(DockerInstallation {
            commands: commands.iter().map(|c| c.to_string()).collect(),
            dependencies: vec![],
        }),
        copy: copy.iter().map(|(s, d)| (s.to_string(), d.to_string())).collect(),
    }
}

#[test]
fn one_base_no_features() {
    let lock = TuxWranglerConfigLocked {
        registry: "r".to_string(),
        bases: vec![base("a", "1.0", None)],
        features: vec![],
        builds: vec![build(sv("a", "1.0"), vec![], "")],
    };
    let (lines, deps) = create_dockerfile(&lock).unwrap();
    assert_eq!(texts(&lines), vec!["FROM a:1.0 as temp".to_string(), "FROM temp as ".to_string()]);
    assert!(deps.is_empty());
    assert_eq!(render_dockerfile(&lines), "FROM a:1.0 as temp\nFROM temp as ");
}

#[test]
fn build_stage_copies_into_final_stage() {
    let feature = InstallationConfig {
        name: "Tool".to_string(),
        version: "1".to_string(),
        steps: vec![
            docker_step(LayerType::Build, &["RUN make"], &[("/out", "/in")]),
            docker_step(LayerType::Actual, &["RUN true"], &[]),
        ],
        tag: None,
    };
    let layers = installation_layers("pm", &feature, "base").unwrap();
    assert_eq!(layers.len(), 3);
    assert_eq!(layers[0].name, "base-tool-1-final-build-0");
    assert_eq!(texts(&layers[0].lines), vec!["FROM base as base-tool-1-final-build-0", "RUN make"]);
    assert_eq!(
        texts(&layers[1].lines),
        vec![
            "FROM base as base-tool-1-final-build-1",
            "COPY --from=base-tool-1-final-build-0 /out /in",
            "RUN true",
        ]
    );
    let final_lines = texts(&layers[2].lines);
    assert_eq!(final_lines[0], "FROM base-tool-1-final-build-1 as base-tool-1-final");
    let copies: Vec<&String> = final_lines.iter().filter(|l| l.starts_with("COPY --from=")).collect();
    assert_eq!(copies, vec!["COPY --from=base-tool-1-final-build-0 /out /in"]);
}

#[test]
fn feature_without_steps_still_has_final_stage() {
    let feature = InstallationConfig { name: "F".to_string(), version: "2".to_string(), steps: vec![], tag: None };
    let layers = installation_layers("pm", &feature, "b").unwrap();
    assert_eq!(layers.len(), 1);
    assert_eq!(texts(&layers[0].lines), vec!["FROM b as b-f-2-final"]);
}

#[test]
fn copies_sorted_by_stage_then_source() {
    let feature = InstallationConfig {
        name: "f".to_string(),
        version: "1".to_string(),
        steps: vec![
            docker_step(LayerType::Build, &[], &[("/z", "/1"), ("/a", "/2")]),
            docker_step(LayerType::Build, &[], &[("/m", "/3")]),
        ],
        tag: None,
    };
    let layers = installation_layers("pm", &feature, "p").unwrap();
    assert_eq!(
        texts(&layers[2].lines),
        vec![
            "FROM p as p-f-1-final",
            "COPY --from=p-f-1-final-build-0 /a /2",
            "COPY --from=p-f-1-final-build-0 /z /1",
            "COPY --from=p-f-1-final-build-1 /m /3",
        ]
    );
    assert_eq!(texts(&layers[1].lines)[0], "FROM p-f-1-final-build-0 as p-f-1-final-build-1");
}

#[test]
fn rpm_steps_use_package_manager_recipe() {
    let step = Layer {
        layer_type: LayerType::Actual,
        installation: Installation::Rpm(RpmInstallation {
            installation_methods: vec![
                ("yum".to_string(), RpmInstallationMethod { script: vec!["yum install a".to_string(), "yum clean".to_string()] }),
                ("dnf".to_string(), RpmInstallationMethod { script: vec![] }),
            ],
        }),
        copy: vec![],
    };
    let feature = InstallationConfig { name: "f".to_string(), version: "1".to_string(), steps: vec![step], tag: None };
    let layers = installation_layers("yum", &feature, "p").unwrap();
    assert_eq!(texts(&layers[0].lines), vec!["FROM p as p-f-1-final-build-0", "RUN yum install a && \\\nyum clean"]);
    let layers = installation_layers("dnf", &feature, "p").unwrap();
    assert_eq!(texts(&layers[0].lines), vec!["FROM p as p-f-1-final-build-0"]);
    assert!(matches!(installation_layers("apt", &feature, "p"), Err(Error::NoInstallationFor { .. })));
}

#[test]
fn single_target_chains_features_and_collects_dependencies() {
    let f1 = InstallationConfig {
        name: "one".to_string(),
        version: "1".to_string(),
        steps: vec![Layer {
            layer_type: LayerType::Actual,
            installation: Installation::Docker(DockerInstallation {
                commands: vec!["COPY dir /dir".to_string()],
                dependencies: vec!["dir".to_string(), "dir".to_string()],
            }),
            copy: vec![],
        }],
        tag: Some("o1".to_string()),
    };
    let lock = TuxWranglerConfigLocked {
        registry: "r".to_string(),
        bases: vec![base("al", "2", Some("al2"))],
        features: vec![f1],
        builds: vec![],
    };
    let (lines, deps) = create_dockerfile_for(&lock, &sv("al", "2"), &vec![sv("one", "1")]).unwrap();
    assert_eq!(
        texts(&lines),
        vec![
            "FROM al:2 as al2",
            "FROM al2 as al2-one-1-final-build-0",
            "COPY dir /dir",
            "FROM al2-one-1-final-build-0 as al2-one-1-final",
        ]
    );
    assert_eq!(deps, vec!["dir".to_string()]);
    assert!(matches!(create_dockerfile_for(&lock, &sv("al", "3"), &vec![]), Err(Error::MissingBase { .. })));
    assert!(matches!(create_dockerfile_for(&lock, &sv("al", "2"), &vec![sv("two", "1")]), Err(Error::MissingFeature { .. })));
}

#[test]
fn aggregated_mode_emits_each_stage_once() {
    let f = InstallationConfig {
        name: "f".to_string(),
        version: "1".to_string(),
        steps: vec![docker_step(LayerType::Actual, &["RUN x"], &[])],
        tag: Some("f1".to_string()),
    };
    let lock = TuxWranglerConfigLocked {
        registry: "r".to_string(),
        bases: vec![base("al", "2", Some("al2"))],
        features: vec![f],
        builds: vec![build(sv("al", "2"), vec![], "al2"), build(sv("al", "2"), vec![sv("f", "1")], "al2-f1")],
    };
    let (lines, _) = create_dockerfile(&lock).unwrap();
    let t = texts(&lines);
    assert_eq!(
        t,
        vec![
            "FROM al:2 as al2",
            "FROM al2 as al2-f-1-final-build-0",
            "RUN x",
            "FROM al2-f-1-final-build-0 as al2-f-1-final",
            "FROM al2-f-1-final as al2-f1",
        ]
    );
    let names: Vec<&str> = t.iter().filter(|l| l.starts_with("FROM ")).map(|l| l.rsplit(" as ").next().unwrap()).collect();
    let mut unique = names.clone();
    unique.sort();
    unique.dedup();
    assert_eq!(unique.len(), names.len());
}

#[test]
fn aggregated_mode_refuses_two_untagged_bases() {
    let lock = TuxWranglerConfigLocked {
        registry: "r".to_string(),
        bases: vec![base("a", "1", None), base("b", "1", None)],
        features: vec![],
        builds: vec![build(sv("a", "1"), vec![], "x"), build(sv("b", "1"), vec![], "y")],
    };
    assert!(matches!(create_dockerfile(&lock), Err(Error::StageConflict { .. })));
}

#[test]
fn copy_from_names_an_earlier_stage() {
    let f = InstallationConfig {
        name: "f".to_string(),
        version: "1".to_string(),
        steps: vec![
            docker_step(LayerType::Build, &[], &[("/o", "/i")]),
            docker_step(LayerType::Build, &[], &[("/p", "/q")]),
            docker_step(LayerType::Actual, &[], &[]),
        ],
        tag: None,
    };
    let lock = TuxWranglerConfigLocked {
        registry: "r".to_string(),
        bases: vec![base("al", "2", Some("al2"))],
        features: vec![f],
        builds: vec![build(sv("al", "2"), vec![sv("f", "1")], "t")],
    };
    let (lines, _) = create_dockerfile(&lock).unwrap();
    let mut opened: Vec<String> = vec![];
    for d in &lines {
        match d {
            Directive::From { name, .. } => opened.push(name.clone()),
            Directive::CopyFrom { stage, .. } => assert!(opened.contains(stage)),
            _ => {}
        }
    }
}

#[test]
fn image_identifier_text() {
    assert_eq!(ImageIdentifier::Tag { tag: "v1".to_string() }.to_text(), ":v1");
    assert_eq!(ImageIdentifier::Digest { digest: "sha256:ab".to_string() }.to_text(), "@sha256:ab");
    assert_eq!(sv("a", "1").to_text(), "a-1");
    let b = build(sv("a", "1"), vec![sv("f", "2"), sv("g", "3")], "t");
    assert_eq!(b.to_text(), "a-1 f-2 g-3");
}

#[test]
fn lock_lookups() {
    let lock = TuxWranglerConfigLocked {
        registry: "r".to_string(),
        bases: vec![base("a", "1", None)],
        features: vec![],
        builds: vec![],
    };
    assert_eq!(lock.base(&sv("a", "1")).unwrap().name, "a");
    assert!(lock.base(&sv("a", "2")).is_none());
    assert_eq!(lock.package_manager_for_base(&sv("a", "1")), Some("pm".to_string()));
    assert!(lock.feature(&sv("a", "1")).is_none());
}
