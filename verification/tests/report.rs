use cargo_update::report::{table_order, UpdateTally, install_args, git_install_args, install_version, install_candidates};
use cargo_update::version::{Semver, VersionReq};
use cargo_update::config::{PackageConfig, ConfigOperation};


#[test]
fn table_rows_order() {
    let rows = vec![(false, "b".to_string()), (true, "z".to_string()), (false, "a".to_string()), (true, "c".to_string())];
    assert_eq!(table_order(&rows), vec![3, 1, 2, 0]);
    assert_eq!(table_order(&vec![]), Vec::<usize>::new());
}

#[test]
fn tally_of_installations() {
    let mut t = UpdateTally::new();
    assert_eq!(t.summary(false), "Updated 0 packages.");
    t.record(Ok(()));
    assert_eq!(t.summary(false), "Updated 1 package.");
    assert_eq!(t.failure(), None);
    t.record(Err((101, "racer".to_string())));
    t.record(Ok(()));
    t.record(Err((3, "rls".to_string())));
    assert_eq!(t.summary(true), "Updated 2 git packages.");
    assert_eq!(t.failure(), Some("Failed to update racer, rls.".to_string()));
    assert_eq!(t.first_error, Some(101));
    assert_eq!(t.updated as usize + t.failed.len(), 4);
}

#[test]
fn install_command_lines() {
    assert_eq!(install_args(None, &[], "racer", "2.0.6", "crates-io"), vec!["install", "-f", "racer", "--vers", "2.0.6"]);
    assert_eq!(install_args(None, &[], "racer", "2.0.6", "sjtu"), vec!["install", "-f", "racer", "--vers", "2.0.6", "--registry", "sjtu"]);
    let cfg = PackageConfig::from(&[ConfigOperation::SetToolchain("nightly".to_string())]);
    assert_eq!(install_args(Some(&cfg), &[], "racer", "2.0.6", "crates-io"), vec!["+nightly", "install", "-f", "racer", "--vers", "2.0.6"]);
    assert_eq!(git_install_args(None, &[], "https://g/r", "r", Some("dev")),
               vec!["install", "-f", "--git", "https://g/r", "r", "--branch", "dev"]);
    assert_eq!(git_install_args(None, &[], "https://g/r", "r", None), vec!["install", "-f", "--git", "https://g/r", "r"]);
}

#[test]
fn install_version_text() {
    let v = Semver::parse("1.2.3").unwrap();
    assert_eq!(install_version(None, &v), "1.2.3");
    let mut cfg = PackageConfig::default();
    assert_eq!(install_version(Some(&cfg), &v), "1.2.3");
    cfg.target_version = Some(VersionReq::parse(">=1.0").unwrap());
    assert_eq!(install_version(Some(&cfg), &v), ">=1.0");
    cfg.target_version = Some(VersionReq::parse("1.0").unwrap());
    assert_eq!(install_version(Some(&cfg), &v), "^1.0");
}

#[test]
fn install_candidate_packages() {
    let needs = vec![true, false, true, false];
    let has_update = vec![true, true, false, false];
    assert_eq!(install_candidates(false, &needs, &has_update), vec![0]);
    assert_eq!(install_candidates(true, &needs, &has_update), vec![0, 1]);
    assert_eq!(install_candidates(false, &vec![], &vec![]), Vec::<usize>::new());
}
