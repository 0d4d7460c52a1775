use pixi::error::ManifestError;
use pixi::parse::parse;

#[test]
fn test_pixi_version_validation() {
    let manifest = "[workspace]\nname = \"test\"\nchannels = [\"conda-forge\"]\nplatforms = [\"linux-64\"]\npixi-version = \">=0.1.0\"\n";
    let result = parse(manifest);
    assert!(result.is_ok());
}

#[test]
fn test_pixi_version_validation_failure() {
    let manifest = "[workspace]\nname = \"test\"\nchannels = [\"conda-forge\"]\nplatforms = [\"linux-64\"]\npixi-version = \">=999.0.0\"\n";
    match parse(manifest) {
        Err(e) => {
            assert!(matches!(e, ManifestError::VersionMismatch { .. }));
            assert!(e.message().contains("Pixi version"));
        }
        Ok(_) => panic!("Expected PixiVersionError"),
    }
}

#[test]
fn test_pixi_version_validation_invalid_spec() {
    let manifest = "[workspace]\nname = \"test\"\nchannels = [\"conda-forge\"]\nplatforms = [\"linux-64\"]\npixi-version = \"invalid_spec\"\n";
    match parse(manifest) {
        Err(e) => {
            assert!(matches!(e, ManifestError::InvalidVersionRequirement { .. }));
            assert!(e.message().contains("Invalid Pixi version requirement"));
        }
        Ok(_) => panic!("Expected PixiVersionError"),
    }
}

#[test]
fn test_parse_workspace_fields() {
    let manifest = "[workspace]\nname = \"demo\"\nchannels = [\"conda-forge\", \"bioconda\"]\nplatforms = [\"linux-64\", \"osx-64\"]\ndescription = \"a demo\"\n";
    let m = parse(manifest).unwrap();
    assert_eq!(m.workspace.name, "demo");
    assert_eq!(m.workspace.channels, vec!["conda-forge".to_string(), "bioconda".to_string()]);
    assert_eq!(m.workspace.platforms, vec!["linux-64".to_string(), "osx-64".to_string()]);
    assert_eq!(m.workspace.pixi_version, None);
    assert_eq!(
        m.workspace.extra,
        vec![("description".to_string(), "\"a demo\"".to_string())]
    );
}

#[test]
fn test_parse_rejects_unknown_environment_feature() {
    let manifest = "[workspace]\nname = \"demo\"\nchannels = []\nplatforms = []\n[environments]\ntest = [\"missing\"]\n";
    match parse(manifest) {
        Err(ManifestError::UnknownFeature { feature }) => assert_eq!(feature, "missing"),
        other => panic!("expected UnknownFeature, got {:?}", other.map(|_| ())),
    }
}

#[test]
fn test_parse_rejects_malformed_header() {
    let manifest = "[workspace\nname = \"demo\"\n";
    match parse(manifest) {
        Err(ManifestError::MalformedDocument { line, .. }) => assert_eq!(line, 1),
        other => panic!("expected MalformedDocument, got {:?}", other.map(|_| ())),
    }
}

#[test]
fn test_parse_rejects_invalid_dependency_name() {
    let manifest =
        "[workspace]\nname = \"demo\"\nchannels = []\nplatforms = []\n[dependencies]\n-bad- = \"*\"\n";
    match parse(manifest) {
        Err(ManifestError::InvalidSpecification { raw }) => assert_eq!(raw, "-bad-"),
        other => panic!("expected InvalidSpecification, got {:?}", other.map(|_| ())),
    }
}

#[test]
fn test_round_trip_preserves_manifest() {
    let manifest = "[workspace]\nname = \"demo\"\nchannels = [\"conda-forge\"]\nplatforms = [\"linux-64\", \"osx-64\"]\npixi-version = \">=0.1.0\"\nauthors = [\"someone\"]\n[dependencies]\nnumpy = \">=1.21\"\n[target.linux-64.dependencies]\nlibc = \"*\"\n[pypi-dependencies]\nrequests = \">=2\"\nflit = { path = \"../flit\", editable = true }\n[feature.test]\nplatforms = [\"linux-64\"]\n[feature.test.dependencies]\npytest = \">=7\"\n[feature.test.tasks]\ncheck = \"pytest -v\"\n[environments]\ntest = { features = [\"test\"], solve-group = \"g\", no-default-feature = true }\n";
    let m1 = parse(manifest).unwrap();
    let text = pixi::serialize::serialize(&m1);
    let m2 = parse(&text).unwrap();
    // workspace fields
    assert_eq!(m1.workspace.name, m2.workspace.name);
    assert_eq!(m1.workspace.channels, m2.workspace.channels);
    assert_eq!(m1.workspace.platforms, m2.workspace.platforms);
    assert_eq!(m1.workspace.pixi_version, m2.workspace.pixi_version);
    assert_eq!(m1.workspace.extra, m2.workspace.extra);
    // feature names in order
    let names1: Vec<&str> = m1.features.iter().map(|f| f.name.as_str()).collect();
    let names2: Vec<&str> = m2.features.iter().map(|f| f.name.as_str()).collect();
    assert_eq!(names1, names2);
    // a few dependencies survive with their values
    for (env, pkg, expect) in [
        ("default", "numpy", ">=1.21"),
        ("test", "pytest", ">=7"),
    ] {
        for m in [&m1, &m2] {
            let got = m
                .env_dependency(
                    &env.to_string(),
                    pixi::model::SpecKind::Conda,
                    &pkg.to_string(),
                    &None,
                )
                .unwrap()
                .unwrap();
            match got {
                pixi::deps::DependencySpec::Conda { constraint, .. } => {
                    assert_eq!(constraint, expect)
                }
                _ => panic!("wrong kind"),
            }
        }
    }
    // environments survive
    assert_eq!(m1.environments.len(), m2.environments.len());
    let e1 = m1.environments.iter().find(|e| e.name == "test").unwrap();
    let e2 = m2.environments.iter().find(|e| e.name == "test").unwrap();
    assert_eq!(e1.features, e2.features);
    assert_eq!(e1.solve_group, e2.solve_group);
    assert_eq!(e1.no_default_feature, e2.no_default_feature);
    // serializing the reparsed graph gives the same text
    assert_eq!(text, pixi::serialize::serialize(&m2));
}
