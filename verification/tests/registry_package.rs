use cargo_update::packages::RegistryPackage;
use cargo_update::version::Semver;


#[test]
fn main_registry() {
    assert_eq!(RegistryPackage::parse("cargo-count 0.2.2 (registry+https://github.com/rust-lang/crates.io-index)",
                                      vec!["cc".to_string()]),
               Some(RegistryPackage {
                   name: "cargo-count".to_string(),
                   registry: "https://github.com/rust-lang/crates.io-index".into(),
                   version: Some(Semver::parse("0.2.2").unwrap()),
                   newest_version: None,
                   alternative_version: None,
                   max_version: None,
                   executables: vec!["cc".to_string()],
               }));
}

#[test]
fn alt_registry() {
    assert_eq!(RegistryPackage::parse("cargo-count 0.2.2 (registry+file:///usr/local/share/cargo)", vec!["cc".to_string()]),
               Some(RegistryPackage {
                   name: "cargo-count".to_string(),
                   registry: "file:///usr/local/share/cargo".into(),
                   version: Some(Semver::parse("0.2.2").unwrap()),
                   newest_version: None,
                   alternative_version: None,
                   max_version: None,
                   executables: vec!["cc".to_string()],
               }));
}

#[test]
fn parse_git() {
    assert_eq!(RegistryPackage::parse("treesize 0.2.1 (git+https://github.com/melak47/treesize-rs#742aebb3e66bd14421eb148e7f7981d50c6d1423)",
                                      vec![]),
               None);
}

#[test]
fn invalid() {
    assert_eq!(RegistryPackage::parse("treesize 0.2.1 (gi", vec![]), None);
}

#[test]
fn sparse_registry() {
    let p = RegistryPackage::parse("cargo-audit 0.17.5 (sparse+https://index.crates.io/)", vec![]).unwrap();
    assert_eq!(p.name, "cargo-audit");
    assert_eq!(p.registry, "https://index.crates.io/");
    assert_eq!(p.version, Some(Semver::parse("0.17.5").unwrap()));
}

#[test]
fn try_parse_bad_version() {
    assert!(RegistryPackage::try_parse("x 1.x (registry+https://a.b/)", vec![]).is_err());
    assert_eq!(RegistryPackage::try_parse("x 1.0.0 (git+https://a.b/#0)", vec![]), Ok(None));
}
