use cargo_update::installed::{installed_registry_packages, installed_git_repo_packages, crates_doc_valid};
use cargo_update::packages::{registry_descriptor_valid, git_descriptor_valid};
use cargo_update::packages::RegistryPackage;
use cargo_update::toml_value::parse_toml;
use cargo_update::version::Semver;


const CRATES: &str = r#"[v1]
"cargo-outdated 0.2.0 (registry+https://github.com/rust-lang/crates.io-index)" = ["cargo-outdated.exe"]
"racer 1.2.10 (registry+https://github.com/rust-lang/crates.io-index)" = ["racer.exe"]
"rustfmt 0.6.2 (registry+file:///usr/local/share/cargo)" = ["cargo-fmt.exe", "rustfmt.exe"]
"treesize 0.2.1 (git+https://github.com/melak47/treesize-rs#742aebb3e66bd14421eb148e7f7981d50c6d1423)" = ["treesize.exe"]
"#;

#[test]
fn existent() {
    let doc = parse_toml(CRATES).unwrap();
    assert_eq!(installed_registry_packages(&doc),
               vec![RegistryPackage {
                        name: "cargo-outdated".to_string(),
                        registry: "https://github.com/rust-lang/crates.io-index".to_string(),
                        version: Some(Semver::parse("0.2.0").unwrap()),
                        newest_version: None,
                        alternative_version: None,
                        max_version: None,
                        executables: vec!["cargo-outdated.exe".to_string()],
                    },
                    RegistryPackage {
                        name: "racer".to_string(),
                        registry: "https://github.com/rust-lang/crates.io-index".to_string(),
                        version: Some(Semver::parse("1.2.10").unwrap()),
                        newest_version: None,
                        alternative_version: None,
                        max_version: None,
                        executables: vec!["racer.exe".to_string()],
                    },
                    RegistryPackage {
                        name: "rustfmt".to_string(),
                        registry: "file:///usr/local/share/cargo".to_string(),
                        version: Some(Semver::parse("0.6.2").unwrap()),
                        newest_version: None,
                        alternative_version: None,
                        max_version: None,
                        executables: vec!["cargo-fmt.exe".to_string(), "rustfmt.exe".to_string()],
                    }]);
}

#[test]
fn non_existent() {
    let doc = parse_toml("").unwrap();
    assert_eq!(installed_registry_packages(&doc), vec![]);
}

#[test]
fn with_private_index_package() {
    let test_data = r#"[v1]
"cargo-outdated 0.2.0 (registry+https://github.com/rust-lang/crates.io-index)" = ["cargo-outdated.exe"]
"treesize 0.2.1 (git+https://github.com/melak47/treesize-rs#742aebb3e66bd14421eb148e7f7981d50c6d1423)" = ["treesize.exe"]
"problematic-package 1.0.0 (registry+ssh://example.com/private-index)" = ["problematic-package.exe"]
"#;

    let packages = installed_registry_packages(&parse_toml(test_data).unwrap());

    assert_eq!(packages.len(), 2);

    assert!(packages.iter().any(|p| p.name == "cargo-outdated"));
    assert!(packages.iter().any(|p| p.name == "problematic-package"));

    assert!(!packages.iter().any(|p| p.name == "treesize"));

    let problematic = packages.iter().find(|p| p.name == "problematic-package").unwrap();
    assert_eq!(problematic.registry, "ssh://example.com/private-index");
}

#[test]
fn duplicates_keep_newest_version() {
    let data = r#"[v1]
"racer 1.2.10 (registry+https://github.com/rust-lang/crates.io-index)" = ["racer"]
"racer 1.3.0 (registry+https://github.com/rust-lang/crates.io-index)" = ["racer"]
"racer 1.2.0 (sparse+https://index.crates.io/)" = ["racer"]
"#;
    let packages = installed_registry_packages(&parse_toml(data).unwrap());
    assert_eq!(packages.len(), 1);
    assert_eq!(packages[0].version, Some(Semver::parse("1.3.0").unwrap()));
}

#[test]
fn git_packages_listed() {
    let packages = installed_git_repo_packages(&parse_toml(CRATES).unwrap());
    assert_eq!(packages.len(), 1);
    assert_eq!(packages[0].name, "treesize");
    assert_eq!(packages[0].url, "https://github.com/melak47/treesize-rs");
    assert_eq!(packages[0].branch, None);
    assert_eq!(packages[0].id.to_hex(), "742aebb3e66bd14421eb148e7f7981d50c6d1423");
}

#[test]
fn intersect_packages() {
    assert_eq!(cargo_update::installed::intersect_packages(&[RegistryPackage::parse("cargo-outdated 0.2.0 (registry+https://github.com/rust-lang/crates.io-index)", vec![])
                                             .unwrap(),
                                         RegistryPackage::parse("cargo-count 0.2.2 (registry+https://github.com/rust-lang/crates.io-index)",
                                                                vec!["cc".to_string()])
                                             .unwrap(),
                                         RegistryPackage::parse("racer 1.2.10 (registry+file:///usr/local/share/cargo)", vec!["r".to_string()]).unwrap()],
                                       &[("cargo-count".to_string(), None, "https://github.com/rust-lang/crates.io-index".into()),
                                         ("racer".to_string(), None, "https://github.com/rust-lang/crates.io-index".into()),
                                         ("checksums".to_string(), None, "file:///usr/local/share/cargo".into())],
                                       false,
                                       &[]),
               vec![RegistryPackage::parse("cargo-count 0.2.2 (registry+https://github.com/rust-lang/crates.io-index)",
                                           vec!["cc".to_string()])
                        .unwrap(),
                    RegistryPackage::parse("racer 1.2.10 (registry+file:///usr/local/share/cargo)", vec!["r".to_string()]).unwrap()]);
}

#[test]
fn intersect_allows_installs() {
    let installed = [RegistryPackage::parse("racer 1.2.10 (registry+https://github.com/rust-lang/crates.io-index)", vec![]).unwrap()];
    let r = cargo_update::installed::intersect_packages(&installed,
                               &[("racer".to_string(), Some(Semver::parse("2.0.0").unwrap()), "https://github.com/rust-lang/crates.io-index".into()),
                                 ("checksums".to_string(), None, "https://github.com/rust-lang/crates.io-index".into())],
                               true,
                               &[]);
    assert_eq!(r.len(), 2);
    assert_eq!(r[0].name, "racer");
    assert_eq!(r[0].max_version, Some(Semver::parse("2.0.0").unwrap()));
    assert_eq!(r[1].name, "checksums");
    assert_eq!(r[1].version, None);
    for p in &r {
        assert!(p.name == "racer" || p.name == "checksums");
    }
}

#[test]
fn crates_documents_checked() {
    let good = parse_toml("[v1]\n\"racer 2.0.6 (registry+https://github.com/rust-lang/crates.io-index)\" = [\"racer\"]\n").unwrap();
    assert!(crates_doc_valid(&good, true));
    let bad = parse_toml("[v1]\n\"racer 2.x (registry+https://github.com/rust-lang/crates.io-index)\" = [\"racer\"]\n").unwrap();
    assert!(!crates_doc_valid(&bad, true));
    assert!(crates_doc_valid(&parse_toml("a = 1\n").unwrap(), true));
    assert!(!crates_doc_valid(&parse_toml("v1 = 1\n").unwrap(), false));
    assert!(registry_descriptor_valid("not a descriptor"));
    assert!(!registry_descriptor_valid("racer 2.x (registry+https://github.com/rust-lang/crates.io-index)"));
    assert!(git_descriptor_valid("alacritty 0.1.0 (git+https://github.com/jwilm/alacritty#eb231b3e70b87875df4bdd1974d5e94704024d70)"));
    assert!(!git_descriptor_valid("alacritty 0.1.0 (git+https://github.com/jwilm/alacritty#zb231b3e70b87875df4bdd1974d5e94704024d70)"));
    assert!(git_descriptor_valid("alacritty 0.1.0 (git+https://github.com/jwilm/alacritty#xyz)"));
}
