use cargo_update::packages::{RegistryPackage, GitRepoPackage, Oid};
use cargo_update::version::{Semver, VersionReq};


fn pkg(name: &str, version: Option<&str>, newest: Option<&str>, max: Option<&str>) -> RegistryPackage {
    RegistryPackage {
        name: name.to_string(),
        registry: "https://github.com/rust-lang/crates.io-index".to_string(),
        version: version.map(|v| Semver::parse(v).unwrap()),
        newest_version: newest.map(|v| Semver::parse(v).unwrap()),
        alternative_version: None,
        max_version: max.map(|v| Semver::parse(v).unwrap()),
        executables: vec!["racer".to_string()],
    }
}

#[test]
fn needs_update_examples() {
    assert!(pkg("racer", Some("1.7.2"), Some("2.0.6"), None).needs_update(None, None, false));
    assert!(pkg("racer", None, Some("2.0.6"), None).needs_update(None, None, false));
    assert!(pkg("racer", Some("2.0.7"), Some("2.0.6"), None).needs_update(None, None, true));
    assert!(!pkg("racer", Some("2.0.6"), Some("2.0.6"), None).needs_update(None, None, false));
    assert!(!pkg("racer", Some("2.0.6"), None, None).needs_update(None, None, false));

    let req = VersionReq::parse("^1.7").unwrap();
    assert!(pkg("racer", Some("1.7.2"), Some("1.7.3"), None).needs_update(Some(&req), None, false));
    assert!(pkg("racer", None, Some("2.0.6"), None).needs_update(Some(&req), None, false));
    assert!(!pkg("racer", Some("1.7.2"), Some("2.0.6"), None).needs_update(Some(&req), None, false));

    assert!(!pkg("cargo-audit", None, Some("0.9.0-beta2"), None).needs_update(Some(&req), None, false));
    assert!(pkg("cargo-audit", None, Some("0.9.0-beta2"), None).needs_update(Some(&req), Some(true), false));
}

#[test]
fn update_to_version_examples() {
    assert_eq!(pkg("racer", Some("1.7.2"), Some("2.0.6"), Some("2.0.5")).update_to_version(), Some(&Semver::parse("2.0.5").unwrap()));
    assert_eq!(pkg("gutenberg", Some("0.0.7"), None, None).update_to_version(), None);
    assert_eq!(pkg("racer", Some("1.7.2"), Some("2.0.4"), Some("2.0.5")).update_to_version(), Some(&Semver::parse("2.0.4").unwrap()));
}

#[test]
fn pull_version_picks_newest() {
    let mut p = pkg("checksums", Some("0.5.0"), None, None);
    let vers = vec![Semver::parse("0.4.0").unwrap(), Semver::parse("0.5.0").unwrap(), Semver::parse("0.5.2").unwrap()];
    p.pull_version(&vers, None);
    assert_eq!(p.newest_version, Some(Semver::parse("0.5.2").unwrap()));
    assert_eq!(p.alternative_version, None);
}

#[test]
fn pull_version_skips_unwanted_prerelease() {
    let mut p = pkg("x", Some("1.0.0"), None, None);
    let vers = vec![Semver::parse("1.0.0").unwrap(), Semver::parse("1.1.0").unwrap(), Semver::parse("2.0.0-rc.1").unwrap()];
    p.pull_version(&vers, None);
    assert_eq!(p.newest_version, Some(Semver::parse("1.1.0").unwrap()));
    assert_eq!(p.alternative_version, Some(Semver::parse("2.0.0-rc.1").unwrap()));

    let mut q = pkg("x", Some("1.0.0"), None, None);
    q.pull_version(&vers, Some(true));
    assert_eq!(q.newest_version, Some(Semver::parse("2.0.0-rc.1").unwrap()));
    assert_eq!(q.alternative_version, None);

    let mut e = pkg("x", Some("1.0.0"), Some("1.0.0"), None);
    e.pull_version(&vec![], None);
    assert_eq!(e.newest_version, None);
}

#[test]
fn git_package_parse_and_needs_update() {
    let p = GitRepoPackage::parse("alacritty 0.1.0 (git+https://github.com/jwilm/alacritty?branch=master#eb231b3e70b87875df4bdd1974d5e94704024d70)",
                                  vec!["alacritty".to_string()])
        .unwrap();
    assert_eq!(p.name, "alacritty");
    assert_eq!(p.url, "https://github.com/jwilm/alacritty");
    assert_eq!(p.branch, Some("master".to_string()));
    assert!(!p.needs_update());

    let mut q = GitRepoPackage::parse("alacritty 0.1.0 (git+https://github.com/jwilm/alacritty#eb231b3e70b87875df4bdd1974d5e94704024d70)", vec![])
        .unwrap();
    assert_eq!(q.branch, None);
    q.newest_id = Ok(Oid::from_str("5f7885749c4d7e48869b1fc0be4d430601cdbbfa").unwrap());
    assert!(q.needs_update());
    q.newest_id = Ok(Oid::from_str("eb231b3e70b87875df4bdd1974d5e94704024d70").unwrap());
    assert!(!q.needs_update());

    assert_eq!(GitRepoPackage::parse("cargo-count 0.2.2 (registry+https://github.com/rust-lang/crates.io-index)", vec![]), None);
    assert!(GitRepoPackage::try_parse("x 0.1.0 (git+https://a.b/#zzzzzzzzzzzzzzzzzzzzzzzzzzzzzzzzzzzzzzzz)", vec![]).is_err());
    assert_eq!(GitRepoPackage::try_parse("x 0.1.0 (git+https://a.b/#short)", vec![]), Ok(None));
}

#[test]
fn semver_text() {
    assert_eq!(Semver::parse("1.2.3").unwrap().to_text(), "1.2.3");
    assert_eq!(Semver::parse("1.2.3-rc.1+build.5").unwrap().to_text(), "1.2.3-rc.1+build.5");
    assert_eq!(Semver::parse("0.0.0+b").unwrap().to_text(), "0.0.0+b");
    assert_eq!(VersionReq::parse("^1.7").unwrap().to_text(), "^1.7");
    assert_eq!(VersionReq::parse("1.2").unwrap().to_text(), "^1.2");
}

#[test]
fn object_ids() {
    assert_eq!(Oid::from_str("eb231b3e70b87875df4bdd1974d5e94704024d70").unwrap().bytes,
               vec![0xeb, 0x23, 0x1b, 0x3e, 0x70, 0xb8, 0x78, 0x75, 0xdf, 0x4b, 0xdd, 0x19, 0x74, 0xd5, 0xe9, 0x47, 0x04, 0x02, 0x4d, 0x70]);
    let mut short = vec![0u8; 20];
    short[0] = 0xab;
    short[1] = 0xc0;
    assert_eq!(Oid::from_str("ABc").unwrap().bytes, short);
    assert!(Oid::from_str("").is_none());
    assert!(Oid::from_str("xyz").is_none());
    assert!(Oid::from_str(&"a".repeat(41)).is_none());
}
