use cargo_update::options::{package_parse, packages_to_update, normalise_requests, parse_jobs, parse_default_features, job_limits,
                            config_operations, ConfigFlags, parse_environment_assignment, parse_environment_name};
use cargo_update::config::ConfigOperation;
use cargo_update::version::{Semver, VersionReq};


#[test]
fn package_arguments() {
    assert_eq!(package_parse("racer"), Ok(("racer".to_string(), None, None)));
    assert_eq!(package_parse("racer:1.2.3"), Ok(("racer".to_string(), Some(Semver::parse("1.2.3").unwrap()), None)));
    assert_eq!(package_parse("(file:///srv/index):racer:1.2.3"),
               Ok(("racer".to_string(), Some(Semver::parse("1.2.3").unwrap()), Some("file:///srv/index".to_string()))));
    assert_eq!(package_parse("(nothing-closes"), Ok(("(nothing-closes".to_string(), None, None)));
    let e = package_parse("racer:x").unwrap_err();
    assert!(e.starts_with("Version x provided for package racer invalid: "));
}

#[test]
fn requests_sorted_and_deduplicated() {
    let pkgs = vec![("b".to_string(), None, None),
                    ("a".to_string(), Some(Semver::parse("1.0.0").unwrap()), Some("reg".to_string())),
                    ("b".to_string(), Some(Semver::parse("2.0.0").unwrap()), None)];
    assert_eq!(normalise_requests(&pkgs),
               vec![("a".to_string(), Some(Semver::parse("1.0.0").unwrap()), "reg".to_string()),
                    ("b".to_string(), None, "https://github.com/rust-lang/crates.io-index".to_string())]);
    assert_eq!(packages_to_update(true, true, None), Ok(vec![]));
    assert_eq!(packages_to_update(false, false, None), Ok(vec![]));
    assert_eq!(packages_to_update(false, true, None), Err("Need at least one PACKAGE without --all".to_string()));
}

#[test]
fn job_counts() {
    assert_eq!(parse_jobs("default", "default", 8), Ok(8));
    assert_eq!(parse_jobs("3", "default", 8), Ok(3));
    assert_eq!(parse_jobs("-3", "default", 8), Ok(5));
    assert_eq!(parse_jobs("-9", "default", 8), Ok(1));
    assert_eq!(parse_jobs("", "", 4), Ok(4));
    assert!(parse_jobs("0", "default", 8).is_err());
    assert!(parse_jobs("x", "default", 8).is_err());
    assert_eq!(job_limits(Some(4), None), (Some(4), None, None));
    assert_eq!(job_limits(Some(4), Some(10)), (None, Some(10), Some(3)));
    assert_eq!(job_limits(None, Some(10)), (None, Some(10), None));
}

#[test]
fn default_features_values() {
    for v in &["1", "yes", "true"] {
        assert_eq!(parse_default_features(v), Ok(true));
    }
    for v in &["0", "no", "false"] {
        assert_eq!(parse_default_features(v), Ok(false));
    }
    assert_eq!(parse_default_features("maybe"), Err("maybe not 1|yes|true or 0|no|false".to_string()));
}

#[test]
fn environment_arguments() {
    assert_eq!(parse_environment_assignment("CC=clang=x"), Ok(("CC".to_string(), "clang=x".to_string())));
    assert_eq!(parse_environment_assignment("CC"), Err("Missing VALUE".to_string()));
    assert_eq!(parse_environment_name("CC"), Ok("CC".to_string()));
    assert_eq!(parse_environment_name("CC=1"), Err("VARIABLE can't contain a =".to_string()));
}

fn flags() -> ConfigFlags {
    ConfigFlags {
        toolchain: None,
        features: vec![],
        no_features: vec![],
        default_features: None,
        debug: false,
        release: false,
        install_prereleases: false,
        no_install_prereleases: false,
        enforce_lock: false,
        no_enforce_lock: false,
        respect_binaries: false,
        no_respect_binaries: false,
        version: None,
        any_version: false,
        environment: vec![],
        clear_environment: vec![],
        inherit_environment: vec![],
        reset: false,
    }
}

#[test]
fn configuration_operations() {
    assert_eq!(config_operations(&flags()), vec![]);
    let mut f = flags();
    f.toolchain = Some(String::new());
    f.features = vec!["a".to_string()];
    f.no_features = vec!["b".to_string()];
    f.default_features = Some(false);
    f.release = true;
    f.no_install_prereleases = true;
    f.enforce_lock = true;
    f.no_respect_binaries = true;
    f.version = Some(VersionReq::parse("^1").unwrap());
    f.environment = vec![("X".to_string(), "1".to_string())];
    f.clear_environment = vec!["Y".to_string()];
    f.inherit_environment = vec!["Z".to_string()];
    f.reset = true;
    assert_eq!(config_operations(&f),
               vec![ConfigOperation::RemoveToolchain,
                    ConfigOperation::AddFeature("a".to_string()),
                    ConfigOperation::RemoveFeature("b".to_string()),
                    ConfigOperation::DefaultFeatures(false),
                    ConfigOperation::SetDebugMode(false),
                    ConfigOperation::SetInstallPrereleases(false),
                    ConfigOperation::SetEnforceLock(true),
                    ConfigOperation::SetRespectBinaries(false),
                    ConfigOperation::SetTargetVersion(VersionReq::parse("^1").unwrap()),
                    ConfigOperation::SetEnvironment("X".to_string(), "1".to_string()),
                    ConfigOperation::ClearEnvironment("Y".to_string()),
                    ConfigOperation::InheritEnvironment("Z".to_string()),
                    ConfigOperation::ResetConfig]);
    let mut g = flags();
    g.toolchain = Some("nightly".to_string());
    g.debug = true;
    g.any_version = true;
    g.version = Some(VersionReq::parse("^1").unwrap());
    assert_eq!(config_operations(&g),
               vec![ConfigOperation::SetToolchain("nightly".to_string()), ConfigOperation::SetDebugMode(true), ConfigOperation::RemoveTargetVersion]);
}

#[test]
fn job_numbers() {
    assert_eq!(parse_jobs("+4", "default", 8), Ok(4));
    assert_eq!(parse_jobs("007", "default", 8), Ok(7));
    assert!(parse_jobs("0", "default", 8).is_err());
    assert!(parse_jobs("", "default", 8).is_err());
    assert!(parse_jobs("+", "default", 8).is_err());
    assert!(parse_jobs(" 4", "default", 8).is_err());
    assert!(parse_jobs("99999999999999999999999", "default", 8).is_err());
}
