use pixi::deps::{DependencyOverwriteBehavior, DependencySpec, DependencyStore};
use pixi::error::ManifestError;
use pixi::model::SpecKind;
use pixi::names::normalize_package_name;
use pixi::parse::parse;

fn conda(c: &str) -> DependencySpec {
    DependencySpec::Conda { constraint: c.to_string(), build: None, channel: None }
}

fn constraint_of(spec: &DependencySpec) -> &str {
    match spec {
        DependencySpec::Conda { constraint, .. } => constraint,
        DependencySpec::Pypi { constraint } => constraint,
        _ => panic!("not a constraint spec"),
    }
}

#[test]
fn test_name_normalization_collapses_to_one_key() {
    let a = normalize_package_name("Foo-Bar").unwrap();
    let b = normalize_package_name("foo_bar").unwrap();
    let c = normalize_package_name("FOO.BAR").unwrap();
    assert_eq!(a, "foo-bar");
    assert_eq!(a, b);
    assert_eq!(b, c);
}

#[test]
fn test_name_normalization_rejects_invalid() {
    assert!(pixi::names::is_valid_package_name("foo-bar2"));
    assert!(!pixi::names::is_valid_package_name("-leading"));
    assert!(normalize_package_name("").is_none());
    assert!(normalize_package_name("-leading").is_none());
    assert!(normalize_package_name("trailing.").is_none());
    assert!(normalize_package_name("has space").is_none());
    assert!(normalize_package_name("caf\u{e9}").is_none());
}

#[test]
fn test_overwrite_policy() {
    let mut store = DependencyStore::new();
    let name = "numpy".to_string();
    let none_platforms: Vec<String> = Vec::new();
    let allowed: Vec<String> = vec!["linux-64".to_string()];
    // adding to an empty store succeeds
    store
        .add(&name, &conda(">=1.0"), &none_platforms, DependencyOverwriteBehavior::Error, &allowed)
        .unwrap();
    // adding again with Error fails with DuplicateDependency, entry intact
    match store.add(
        &name,
        &conda(">=2.0"),
        &none_platforms,
        DependencyOverwriteBehavior::Error,
        &allowed,
    ) {
        Err(ManifestError::DuplicateDependency { name: n }) => assert_eq!(n, "numpy"),
        other => panic!("expected DuplicateDependency, got {:?}", other),
    }
    let kept = store.get(&name, &None).unwrap();
    assert_eq!(constraint_of(kept), ">=1.0");
    // adding with Overwrite replaces it
    store
        .add(
            &name,
            &conda(">=2.0"),
            &none_platforms,
            DependencyOverwriteBehavior::Overwrite,
            &allowed,
        )
        .unwrap();
    let replaced = store.get(&name, &None).unwrap();
    assert_eq!(constraint_of(replaced), ">=2.0");
    // identical re-insertion is tolerated under IgnoreDuplicate
    store
        .add(
            &name,
            &conda(">=2.0"),
            &none_platforms,
            DependencyOverwriteBehavior::IgnoreDuplicate,
            &allowed,
        )
        .unwrap();
    // a genuine conflict still errors under IgnoreDuplicate
    assert!(matches!(
        store.add(
            &name,
            &conda(">=3.0"),
            &none_platforms,
            DependencyOverwriteBehavior::IgnoreDuplicate,
            &allowed,
        ),
        Err(ManifestError::DuplicateDependency { .. })
    ));
}

#[test]
fn test_platform_scoping() {
    let mut store = DependencyStore::new();
    let name = "numpy".to_string();
    let allowed: Vec<String> = vec!["linux-64".to_string(), "osx-64".to_string()];
    let linux = vec!["linux-64".to_string()];
    // a linux-scoped entry does not affect an osx-scoped query
    store
        .add(&name, &conda(">=1.0"), &linux, DependencyOverwriteBehavior::Error, &allowed)
        .unwrap();
    assert!(store.get(&name, &Some("osx-64".to_string())).is_none());
    assert_eq!(
        constraint_of(store.get(&name, &Some("linux-64".to_string())).unwrap()),
        ">=1.0"
    );
    // an empty platform list affects every declared platform uniformly
    let other = "scipy".to_string();
    let empty: Vec<String> = Vec::new();
    store
        .add(&other, &conda("*"), &empty, DependencyOverwriteBehavior::Error, &allowed)
        .unwrap();
    assert_eq!(constraint_of(store.get(&other, &Some("osx-64".to_string())).unwrap()), "*");
    assert_eq!(constraint_of(store.get(&other, &Some("linux-64".to_string())).unwrap()), "*");
    assert_eq!(constraint_of(store.get(&other, &None).unwrap()), "*");
}

#[test]
fn test_unsupported_platform_is_rejected_atomically() {
    let mut store = DependencyStore::new();
    let name = "numpy".to_string();
    let allowed: Vec<String> = vec!["linux-64".to_string()];
    let bad = vec!["linux-64".to_string(), "win-64".to_string()];
    match store.add(&name, &conda("*"), &bad, DependencyOverwriteBehavior::Error, &allowed) {
        Err(ManifestError::UnsupportedPlatform { platform }) => assert_eq!(platform, "win-64"),
        other => panic!("expected UnsupportedPlatform, got {:?}", other),
    }
    // nothing was inserted, not even for the supported platform
    assert!(store.get(&name, &Some("linux-64".to_string())).is_none());
}

#[test]
fn test_remove_is_per_scope_best_effort() {
    let mut store = DependencyStore::new();
    let name = "numpy".to_string();
    let allowed: Vec<String> = vec!["linux-64".to_string(), "osx-64".to_string()];
    store
        .add(
            &name,
            &conda("*"),
            &vec!["linux-64".to_string()],
            DependencyOverwriteBehavior::Error,
            &allowed,
        )
        .unwrap();
    // removing from both scopes deletes the one that exists
    store.remove(&name, &vec!["linux-64".to_string(), "osx-64".to_string()]).unwrap();
    assert!(store.get(&name, &Some("linux-64".to_string())).is_none());
    // removing an absent name fails with DependencyNotFound
    match store.remove(&name, &Vec::new()) {
        Err(ManifestError::DependencyNotFound { name: n }) => assert_eq!(n, "numpy"),
        other => panic!("expected DependencyNotFound, got {:?}", other),
    }
}

#[test]
fn test_composition_precedence_last_feature_wins() {
    let manifest = "[workspace]\nname = \"demo\"\nchannels = []\nplatforms = [\"linux-64\"]\n[dependencies]\nfoo = \"1.0\"\n[feature.extra.dependencies]\nfoo = \"2.0\"\n[environments]\nboth = [\"default\", \"extra\"]\n";
    let m = parse(manifest).unwrap();
    let spec = m
        .env_dependency(&"both".to_string(), SpecKind::Conda, &"foo".to_string(), &None)
        .unwrap()
        .unwrap();
    assert_eq!(constraint_of(spec), "2.0");
    // the default environment still sees the default feature's value
    let spec = m
        .env_dependency(&"default".to_string(), SpecKind::Conda, &"foo".to_string(), &None)
        .unwrap()
        .unwrap();
    assert_eq!(constraint_of(spec), "1.0");
}

#[test]
fn test_env_dependency_unknown_environment() {
    let manifest = "[workspace]\nname = \"demo\"\nchannels = []\nplatforms = []\n";
    let m = parse(manifest).unwrap();
    assert!(matches!(
        m.env_dependency(&"nope".to_string(), SpecKind::Conda, &"foo".to_string(), &None),
        Err(ManifestError::UnknownFeature { .. })
    ));
}

#[test]
fn test_adapter_injection_is_detected() {
    let host = "[project]\nname = \"demo\"\n";
    assert!(!pixi::adapter::has_embedded_namespace(host));
    let injected = pixi::adapter::inject_pixi_namespace(host, "channels = []\n").unwrap();
    assert!(injected.starts_with(host));
    assert!(pixi::adapter::has_embedded_namespace(&injected));
    // a second injection is refused
    assert!(pixi::adapter::inject_pixi_namespace(&injected, "channels = []\n").is_none());
}

#[test]
fn test_environments_from_extras() {
    let host = "[project]\nname = \"demo\"\n[project.optional-dependencies]\ntest = [\"pytest\"]\ndocs = [\"sphinx\"]\n[tool.other]\nx = \"y\"\n";
    let envs = pixi::adapter::environments_from_extras(host);
    assert_eq!(envs.len(), 2);
    assert_eq!(envs[0].0, "test");
    assert_eq!(envs[0].1, vec!["test".to_string()]);
    assert_eq!(envs[1].0, "docs");
}

#[test]
fn test_normalizer_conda_spec() {
    let (key, spec) = pixi::normalizer::normalize_conda_spec("NumPy >=1.21").unwrap();
    assert_eq!(key, "numpy");
    assert_eq!(constraint_of(&spec), ">=1.21");
    assert!(matches!(spec, DependencySpec::Conda { build: None, .. }));
    // a build constraint is carried, never dropped
    let (_, spec) = pixi::normalizer::normalize_conda_spec("numpy >=1.21 py38_0").unwrap();
    match spec {
        DependencySpec::Conda { constraint, build, channel } => {
            assert_eq!(constraint, ">=1.21");
            assert_eq!(build.as_deref(), Some("py38_0"));
            assert_eq!(channel, None);
        }
        other => panic!("expected a conda spec, got {:?}", other),
    }
    // a channel override is split off and kept verbatim
    let (key, spec) = pixi::normalizer::normalize_conda_spec("conda-forge::NumPy >=1.21").unwrap();
    assert_eq!(key, "numpy");
    match spec {
        DependencySpec::Conda { constraint, build, channel } => {
            assert_eq!(constraint, ">=1.21");
            assert_eq!(build, None);
            assert_eq!(channel.as_deref(), Some("conda-forge"));
        }
        other => panic!("expected a conda spec, got {:?}", other),
    }
    // brackets, comments and namespace colons are rejected, not dropped
    for raw in ["numpy[build=py38_0]", "numpy >=1 # note", "chan::ns:numpy", "::numpy"] {
        assert!(matches!(
            pixi::normalizer::normalize_conda_spec(raw),
            Err(ManifestError::InvalidSpecification { .. })
        ));
    }
    assert!(matches!(
        pixi::normalizer::normalize_conda_spec(">=nonsense<="),
        Err(ManifestError::InvalidSpecification { .. })
    ));
}

#[test]
fn test_parse_rejects_duplicate_platforms() {
    let manifest = "[workspace]\nname = \"demo\"\nchannels = []\nplatforms = [\"linux-64\", \"linux-64\"]\n";
    assert!(matches!(
        parse(manifest),
        Err(ManifestError::MalformedDocument { .. })
    ));
}

#[test]
fn test_parse_requires_workspace_name() {
    let manifest = "[workspace]\nchannels = []\nplatforms = []\n";
    assert!(matches!(
        parse(manifest),
        Err(ManifestError::MalformedDocument { .. })
    ));
}

#[test]
fn test_conda_build_round_trips_through_manifest() {
    let manifest = "[workspace]\nname = \"demo\"\nchannels = []\nplatforms = []\n[dependencies]\nnumpy = { version = \">=1.21\", build = \"py38_0\" }\n";
    let m = parse(manifest).unwrap();
    let text = pixi::serialize::serialize(&m);
    let m2 = parse(&text).unwrap();
    for m in [&m, &m2] {
        let got = m
            .env_dependency(&"default".to_string(), SpecKind::Conda, &"numpy".to_string(), &None)
            .unwrap()
            .unwrap();
        match got {
            DependencySpec::Conda { constraint, build, .. } => {
                assert_eq!(constraint, ">=1.21");
                assert_eq!(build.as_deref(), Some("py38_0"));
            }
            other => panic!("expected a conda spec, got {:?}", other),
        }
    }
}

#[test]
fn test_normalizer_pypi_spec() {
    let (key, spec) = pixi::normalizer::normalize_pypi_spec("Requests>=2.0").unwrap();
    assert_eq!(key, "requests");
    assert_eq!(constraint_of(&spec), ">=2.0");
    assert!(pixi::normalizer::normalize_pypi_spec(">=2.0").is_err());
}

#[test]
fn test_git_attributes_templates() {
    assert!(pixi::GitAttributes::Github.template().contains("linguist-generated=true"));
    assert!(pixi::GitAttributes::Codeberg.template().contains("linguist-generated=true"));
    assert!(pixi::GitAttributes::Gitlab.template().contains("gitlab-generated=true"));
}

#[test]
fn test_manifest_format_values() {
    assert_eq!(pixi::ManifestFormat::Pixi, pixi::ManifestFormat::Pixi);
    assert_ne!(pixi::ManifestFormat::Pixi, pixi::ManifestFormat::Pyproject);
}

#[test]
fn test_version_gate_direct() {
    let ok = pixi::version::check_version_requirement(&">=0.1.0".to_string(), "0.1.0");
    assert!(ok.is_ok());
    assert!(matches!(
        pixi::version::check_version_requirement(&">=999.0.0".to_string(), "0.1.0"),
        Err(ManifestError::VersionMismatch { .. })
    ));
    assert!(matches!(
        pixi::version::check_version_requirement(&"invalid_spec".to_string(), "0.1.0"),
        Err(ManifestError::InvalidVersionRequirement { .. })
    ));
}

#[test]
fn test_environment_platforms_intersection() {
    let manifest = "[workspace]\nname = \"demo\"\nchannels = []\nplatforms = [\"linux-64\", \"osx-64\", \"win-64\"]\n[feature.test]\nplatforms = [\"linux-64\", \"win-64\"]\n[environments]\ntest = [\"test\"]\n";
    let m = parse(manifest).unwrap();
    let got = m.environment_platforms(&"test".to_string()).unwrap();
    assert_eq!(got, vec!["linux-64".to_string(), "win-64".to_string()]);
    let all = m.environment_platforms(&"default".to_string()).unwrap();
    assert_eq!(
        all,
        vec!["linux-64".to_string(), "osx-64".to_string(), "win-64".to_string()]
    );
}

#[test]
fn test_environment_platforms_empty_intersection() {
    let manifest = "[workspace]\nname = \"demo\"\nchannels = []\nplatforms = [\"linux-64\", \"osx-64\"]\n[feature.a]\nplatforms = [\"linux-64\"]\n[feature.b]\nplatforms = [\"osx-64\"]\n[environments]\nboth = [\"a\", \"b\"]\n";
    let m = parse(manifest).unwrap();
    match m.environment_platforms(&"both".to_string()) {
        Err(ManifestError::EmptyPlatformIntersection { environment }) => {
            assert_eq!(environment, "both")
        }
        other => panic!("expected EmptyPlatformIntersection, got {:?}", other),
    }
}

#[test]
fn test_environment_channels_union() {
    let manifest = "[workspace]\nname = \"demo\"\nchannels = [\"conda-forge\"]\nplatforms = []\n[feature.x]\nchannels = [\"bioconda\", \"conda-forge\"]\n[environments]\ne = [\"x\"]\n";
    let m = parse(manifest).unwrap();
    let got = m.environment_channels(&"e".to_string()).unwrap();
    assert_eq!(got, vec!["conda-forge".to_string(), "bioconda".to_string()]);
}

#[test]
fn test_solve_group_members_in_declaration_order() {
    let manifest = "[workspace]\nname = \"demo\"\nchannels = []\nplatforms = []\n[environments]\na = { features = [], solve-group = \"g\" }\nb = { features = [], solve-group = \"g\" }\nc = { features = [] }\n";
    let m = parse(manifest).unwrap();
    let got = m.environments_in_solve_group(&"g".to_string());
    assert_eq!(got, vec!["a".to_string(), "b".to_string()]);
    assert!(m.environments_in_solve_group(&"other".to_string()).is_empty());
}

#[test]
fn test_manifest_add_and_remove_dependency() {
    let manifest =
        "[workspace]\nname = \"demo\"\nchannels = []\nplatforms = [\"linux-64\"]\n";
    let mut m = parse(manifest).unwrap();
    let spec = conda(">=1.21");
    let none: Vec<String> = Vec::new();
    m.add_dependency(
        "NumPy",
        &spec,
        SpecKind::Conda,
        &none,
        &"default".to_string(),
        DependencyOverwriteBehavior::Overwrite,
    )
    .unwrap();
    let got = m
        .env_dependency(&"default".to_string(), SpecKind::Conda, &"numpy".to_string(), &None)
        .unwrap()
        .unwrap();
    assert_eq!(constraint_of(got), ">=1.21");
    m.remove_dependency("numpy", SpecKind::Conda, &none, &"default".to_string()).unwrap();
    assert!(matches!(
        m.remove_dependency("numpy", SpecKind::Conda, &none, &"default".to_string()),
        Err(ManifestError::DependencyNotFound { .. })
    ));
    // an unknown feature is reported as such
    assert!(matches!(
        m.add_dependency(
            "numpy",
            &spec,
            SpecKind::Conda,
            &none,
            &"nope".to_string(),
            DependencyOverwriteBehavior::Overwrite,
        ),
        Err(ManifestError::UnknownFeature { .. })
    ));
}


#[test]
fn test_foreign_sections_are_preserved() {
    let manifest = "[workspace]\nname = \"demo\"\nchannels = []\nplatforms = []\n[pypi-options]\nindex-url = \"https://example.invalid/simple\"\n[feature.test]\nplatforms = []\ncustom-key = \"kept\"\n";
    let m = parse(manifest).unwrap();
    assert_eq!(m.foreign.len(), 1);
    assert_eq!(m.foreign[0].header, "[pypi-options]");
    assert_eq!(m.foreign[0].lines, vec!["index-url = \"https://example.invalid/simple\"".to_string()]);
    let f = m.features.iter().find(|f| f.name == "test").unwrap();
    assert_eq!(f.extra, vec![("custom-key".to_string(), "\"kept\"".to_string())]);
    // foreign content survives a round trip unchanged
    let text = pixi::serialize::serialize(&m);
    let m2 = parse(&text).unwrap();
    assert_eq!(m2.foreign.len(), 1);
    assert_eq!(m2.foreign[0].header, m.foreign[0].header);
    assert_eq!(m2.foreign[0].lines, m.foreign[0].lines);
    let f2 = m2.features.iter().find(|f| f.name == "test").unwrap();
    assert_eq!(f2.extra, f.extra);
    assert_eq!(text, pixi::serialize::serialize(&m2));
}

#[test]
fn test_add_dependency_rejects_kind_mismatch() {
    let manifest = "[workspace]\nname = \"demo\"\nchannels = []\nplatforms = []\n";
    let mut m = parse(manifest).unwrap();
    let pypi = DependencySpec::Pypi { constraint: ">=1".to_string() };
    // a registry requirement cannot land in the conda store
    assert!(matches!(
        m.add_dependency(
            "numpy",
            &pypi,
            SpecKind::Conda,
            &Vec::new(),
            &"default".to_string(),
            DependencyOverwriteBehavior::Overwrite,
        ),
        Err(ManifestError::InvalidSpecification { .. })
    ));
    // and a conda value cannot land in the pypi store
    assert!(matches!(
        m.add_dependency(
            "numpy",
            &conda("*"),
            SpecKind::Pypi,
            &Vec::new(),
            &"default".to_string(),
            DependencyOverwriteBehavior::Overwrite,
        ),
        Err(ManifestError::InvalidSpecification { .. })
    ));
}

#[test]
fn test_conda_channel_round_trips_through_manifest() {
    let manifest = "[workspace]\nname = \"demo\"\nchannels = []\nplatforms = []\n[dependencies]\nnumpy = { version = \">=1.21\", channel = \"conda-forge\" }\n";
    let m = parse(manifest).unwrap();
    let text = pixi::serialize::serialize(&m);
    let m2 = parse(&text).unwrap();
    for m in [&m, &m2] {
        let got = m
            .env_dependency(&"default".to_string(), SpecKind::Conda, &"numpy".to_string(), &None)
            .unwrap()
            .unwrap();
        match got {
            DependencySpec::Conda { constraint, channel, .. } => {
                assert_eq!(constraint, ">=1.21");
                assert_eq!(channel.as_deref(), Some("conda-forge"));
            }
            other => panic!("expected a conda spec, got {:?}", other),
        }
    }
}
