use cargo_update::filter::{PackageFilterElement, PackageFilterElementValue, package_selected, name_matches};
use cargo_update::config::PackageConfig;


#[test]
fn no_separator() {
    assert_eq!(PackageFilterElement::parse("toolchain"),
               Err(r#"Filter string "toolchain" does not contain the key/value separator "=""#.to_string()));
}

#[test]
fn unrecognised() {
    assert_eq!(PackageFilterElement::parse("henlo=benlo"), Err(r#"Unrecognised filter key "henlo""#.to_string()));
}

#[test]
fn toolchain() {
    assert_eq!(PackageFilterElement::parse("toolchain=nightly"),
               Ok(PackageFilterElement(false, PackageFilterElementValue::Toolchain("nightly".to_string()))));
    assert_eq!(PackageFilterElement::parse("!toolchain=nightly"),
               Ok(PackageFilterElement(true, PackageFilterElementValue::Toolchain("nightly".to_string()))));
}

#[test]
fn name() {
    assert_eq!(PackageFilterElement::parse("name=cargo-update"),
               Ok(PackageFilterElement(false, PackageFilterElementValue::Name(["cargo-update"].map(str::to_string).to_vec()))));
    assert_eq!(PackageFilterElement::parse("name=cargo-*"),
               Ok(PackageFilterElement(false, PackageFilterElementValue::Name(["cargo-", ""].map(str::to_string).to_vec()))));
    assert_eq!(PackageFilterElement::parse("name=*update"),
               Ok(PackageFilterElement(false, PackageFilterElementValue::Name(["", "update"].map(str::to_string).to_vec()))));
    assert_eq!(PackageFilterElement::parse("name=*upd*"),
               Ok(PackageFilterElement(false, PackageFilterElementValue::Name(["", "upd", ""].map(str::to_string).to_vec()))));
    assert_eq!(PackageFilterElement::parse("name=*u*d*"),
               Ok(PackageFilterElement(false, PackageFilterElementValue::Name(["", "u", "d", ""].map(str::to_string).to_vec()))));
}

#[test]
fn negated_errors_name_the_rest() {
    assert_eq!(PackageFilterElement::parse("!henlo=benlo"), Err(r#"Unrecognised filter key "henlo""#.to_string()));
    assert_eq!(PackageFilterElement::parse("!toolchain"),
               Err(r#"Filter string "!toolchain" does not contain the key/value separator "=""#.to_string()));
}

#[test]
fn toolchain_filter_matches_configured_toolchain() {
    let filter = PackageFilterElement::parse("toolchain=nightly").unwrap();
    let negated = PackageFilterElement::parse("!toolchain=nightly").unwrap();

    let mut cfg = PackageConfig::default();
    assert!(!filter.matches("a", Some(&cfg)));
    assert!(negated.matches("a", Some(&cfg)));
    cfg.toolchain = Some("nightly".to_string());
    assert!(filter.matches("a", Some(&cfg)));
    assert!(!negated.matches("a", Some(&cfg)));
    cfg.toolchain = Some("stable".to_string());
    assert!(!filter.matches("a", Some(&cfg)));
    assert!(!filter.matches("a", None));
    assert!(negated.matches("a", None));
}

#[test]
fn toolchain_filter_value_after_first_separator() {
    assert_eq!(PackageFilterElement::parse("toolchain=a=b"),
               Ok(PackageFilterElement(false, PackageFilterElementValue::Toolchain("a=b".to_string()))));
    assert_eq!(PackageFilterElement::parse("toolchain="),
               Ok(PackageFilterElement(false, PackageFilterElementValue::Toolchain(String::new()))));
}

#[test]
fn name_patterns() {
    let pat = |s: &[&str]| s.iter().map(|p| p.to_string()).collect::<Vec<_>>();
    assert!(name_matches("cargo-update", &pat(&["cargo-update"])));
    assert!(!name_matches("cargo-updates", &pat(&["cargo-update"])));
    assert!(name_matches("cargo-update", &pat(&["cargo-", ""])));
    assert!(!name_matches("ripgrep", &pat(&["cargo-", ""])));
    assert!(name_matches("cargo-update", &pat(&["", "update"])));
    assert!(name_matches("cargo-update", &pat(&["", "u", "d", ""])));
    assert!(!name_matches("cargo-dupe", &pat(&["", "u", "d", "e", "x"])));
    assert!(name_matches("abab", &pat(&["a", "b"])));
    assert!(!name_matches("aba", &pat(&["ab", "ba"])));
    assert!(name_matches("abba", &pat(&["ab", "ba"])));
    assert!(!name_matches("anything", &pat(&[])));

    let filter = PackageFilterElement::parse("name=cargo-*").unwrap();
    assert!(filter.matches("cargo-update", None));
    assert!(!filter.matches("ripgrep", None));
    let negated = PackageFilterElement::parse("!name=cargo-*").unwrap();
    assert!(!negated.matches("cargo-update", None));
    assert!(negated.matches("ripgrep", None));
}

#[test]
fn package_selection() {
    let filters = vec![PackageFilterElement(false, PackageFilterElementValue::Toolchain("nightly".to_string()))];
    let mut cfg = PackageConfig::default();
    cfg.toolchain = Some("nightly".to_string());
    assert!(package_selected("a", Some(&cfg), &filters, &vec![]));
    assert!(!package_selected("a", Some(&cfg), &filters, &vec!["a".to_string()]));
    assert!(!package_selected("a", None, &filters, &vec![]));
    assert!(package_selected("a", None, &vec![], &vec!["b".to_string()]));
    assert!(!package_selected("a", Some(&PackageConfig::default()), &filters, &vec![]));

    let by_name = vec![PackageFilterElement::parse("name=*update").unwrap()];
    assert!(package_selected("cargo-update", None, &by_name, &vec![]));
    assert!(!package_selected("ripgrep", None, &by_name, &vec![]));
}
