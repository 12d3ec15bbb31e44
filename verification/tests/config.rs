use cargo_update::config::{PackageConfig, ConfigOperation, EnvironmentOverride};
use cargo_update::version::VersionReq;


#[test]
fn from_operations() {
    assert_eq!(PackageConfig::from(&[ConfigOperation::SetToolchain("nightly".to_string()),
                                     ConfigOperation::DefaultFeatures(false),
                                     ConfigOperation::AddFeature("rustc-serialize".to_string()),
                                     ConfigOperation::SetDebugMode(true),
                                     ConfigOperation::SetInstallPrereleases(false),
                                     ConfigOperation::SetEnforceLock(true),
                                     ConfigOperation::SetRespectBinaries(true),
                                     ConfigOperation::SetTargetVersion(VersionReq::parse(">=0.1").unwrap()),
                                     ConfigOperation::SetEnvironment("RUSTC_WRAPPER".to_string(), "sccache".to_string()),
                                     ConfigOperation::ClearEnvironment("CC".to_string())]),
               PackageConfig {
                   toolchain: Some("nightly".to_string()),
                   default_features: false,
                   features: vec!["rustc-serialize".to_string()],
                   debug: Some(true),
                   install_prereleases: Some(false),
                   enforce_lock: Some(true),
                   respect_binaries: Some(true),
                   target_version: Some(VersionReq::parse(">=0.1").unwrap()),
                   environment: Some(vec![("CC".to_string(), EnvironmentOverride(None)),
                                          ("RUSTC_WRAPPER".to_string(), EnvironmentOverride(Some("sccache".to_string())))]),
               });
}

#[test]
fn cargo_args_of_configuration() {
    let cfg = PackageConfig::from(&[ConfigOperation::SetToolchain("nightly".to_string()),
                                    ConfigOperation::DefaultFeatures(false),
                                    ConfigOperation::AddFeature("b".to_string()),
                                    ConfigOperation::AddFeature("a".to_string()),
                                    ConfigOperation::SetEnforceLock(true),
                                    ConfigOperation::SetRespectBinaries(true),
                                    ConfigOperation::SetDebugMode(true)]);
    assert_eq!(cfg.cargo_args(&["racer.exe".to_string(), "rls".to_string()]),
               vec!["+nightly", "install", "-f", "--no-default-features", "--features", "a b ", "--locked", "--bin", "racer", "--bin",
                    "rls", "--debug"]);
}

#[test]
fn default_arguments() {
    assert_eq!(PackageConfig::default().cargo_args(&["x".to_string()]), vec!["install", "-f"]);
}

#[test]
fn reset_gives_default() {
    let mut cfg = PackageConfig::from(&[ConfigOperation::SetToolchain("nightly".to_string()), ConfigOperation::AddFeature("a".to_string())]);
    cfg.execute_operations(&[ConfigOperation::ResetConfig]);
    assert_eq!(cfg, PackageConfig::default());
}

#[test]
fn operations_compose() {
    let a = [ConfigOperation::AddFeature("x".to_string()), ConfigOperation::SetToolchain("beta".to_string())];
    let b = [ConfigOperation::RemoveFeature("x".to_string()), ConfigOperation::InheritEnvironment("CC".to_string())];
    let mut one = PackageConfig::from(&a);
    one.execute_operations(&b);
    let all: Vec<ConfigOperation> = a.iter().chain(b.iter()).cloned().collect();
    assert_eq!(one, PackageConfig::from(&all));
}

#[test]
fn operation_idempotent() {
    let op = [ConfigOperation::AddFeature("x".to_string())];
    let once = PackageConfig::from(&op);
    let mut twice = PackageConfig::from(&op);
    twice.execute_operations(&op);
    assert_eq!(once, twice);
}

#[test]
fn add_then_remove_feature() {
    let cfg = PackageConfig::from(&[ConfigOperation::AddFeature("x".to_string()), ConfigOperation::RemoveFeature("x".to_string())]);
    assert!(cfg.features.is_empty());
    let cfg = PackageConfig::from(&[ConfigOperation::RemoveToolchain, ConfigOperation::RemoveTargetVersion]);
    assert_eq!(cfg, PackageConfig::default());
}

#[test]
fn configure_keeps_only_non_default() {
    assert_eq!(PackageConfig::configure(None, &[ConfigOperation::SetToolchain("nightly".to_string())]),
               Some(PackageConfig::from(&[ConfigOperation::SetToolchain("nightly".to_string())])));
    let existing = PackageConfig::from(&[ConfigOperation::SetToolchain("nightly".to_string())]);
    assert_eq!(PackageConfig::configure(Some(existing), &[ConfigOperation::RemoveToolchain]), None);
    assert!(PackageConfig::default().is_default());
    assert!(!PackageConfig::from(&[ConfigOperation::AddFeature("a".to_string())]).is_default());
}
