use cargo_update::sparse::{sort_versions, sparse_versions, json_safe_exec, crate_versions_checked, sparse_versions_checked, decimal_text, updating_message, sparse_package_url,
                            authorization_header};
use cargo_update::version::Semver;


fn index_lines(versions: &[(&str, bool)]) -> Vec<u8> {
    let mut out = String::new();
    for (v, yanked) in versions {
        out.push_str(&format!("{{\"name\":\"checksums\",\"vers\":\"{}\",\"deps\":[],\"cksum\":\"00\",\"features\":{{}},\"yanked\":{}}}\n",
                              v,
                              yanked));
    }
    out.into_bytes()
}

#[test]
fn crate_versions() {
    let data = index_lines(&[("0.2.0", false), ("0.2.1", false), ("0.3.0", false), ("0.4.0", false), ("0.4.1", false),
                             ("0.5.0", false), ("0.5.1", false), ("0.5.2", false)]);
    assert_eq!(cargo_update::sparse::crate_versions(&data).unwrap(),
               vec![Semver::parse("0.2.0").unwrap(),
                    Semver::parse("0.2.1").unwrap(),
                    Semver::parse("0.3.0").unwrap(),
                    Semver::parse("0.4.0").unwrap(),
                    Semver::parse("0.4.1").unwrap(),
                    Semver::parse("0.5.0").unwrap(),
                    Semver::parse("0.5.1").unwrap(),
                    Semver::parse("0.5.2").unwrap()]);
}

#[test]
fn yanked_versions_skipped() {
    let data = index_lines(&[("1.0.0", false), ("1.0.1", true), ("1.1.0", false)]);
    assert_eq!(cargo_update::sparse::crate_versions(&data).unwrap(), vec![Semver::parse("1.0.0").unwrap(), Semver::parse("1.1.0").unwrap()]);
}

#[test]
fn crate_versions_errors() {
    assert_eq!(cargo_update::sparse::crate_versions(b"[1]\n"), Err("line not object".to_string()));
    assert_eq!(cargo_update::sparse::crate_versions(b"{\"name\":\"x\"}"), Err("no \"vers\" key".to_string()));
    assert_eq!(cargo_update::sparse::crate_versions(b"{\"vers\":1}"), Err("\"vers\" not string".to_string()));
    assert!(cargo_update::sparse::crate_versions(b"{\"vers\":\"x.y\"}").is_err());
    assert!(cargo_update::sparse::crate_versions(b"{").is_err());
    assert_eq!(cargo_update::sparse::crate_versions(b"\n\n"), Ok(vec![]));
    assert_eq!(cargo_update::sparse::crate_versions(b"{\"vers\":\"1.2.3\"}").unwrap(), vec![Semver::parse("1.2.3").unwrap()]);
}

#[test]
fn versions_sorted() {
    let v = vec![Semver::parse("1.0.0").unwrap(), Semver::parse("0.1.0").unwrap(), Semver::parse("1.0.0-rc.1").unwrap(),
                 Semver::parse("0.10.0").unwrap()];
    assert_eq!(sort_versions(v),
               vec![Semver::parse("0.1.0").unwrap(), Semver::parse("0.10.0").unwrap(), Semver::parse("1.0.0-rc.1").unwrap(),
                    Semver::parse("1.0.0").unwrap()]);
}

#[test]
fn sparse_answers() {
    let body = index_lines(&[("2.0.0", false), ("1.0.0", false)]);
    assert_eq!(sparse_versions("pkg", Ok(200), &body).unwrap(), vec![Semver::parse("1.0.0").unwrap(), Semver::parse("2.0.0").unwrap()]);
    assert_eq!(sparse_versions("pkg", Ok(404), b""), Err("package pkg doesn't exist: HTTP 404".to_string()));
    assert_eq!(sparse_versions("pkg", Ok(410), b""), Err("package pkg doesn't exist: HTTP 410".to_string()));
    assert_eq!(sparse_versions("pkg", Ok(451), b""), Err("package pkg doesn't exist: HTTP 451".to_string()));
    assert_eq!(sparse_versions("pkg", Ok(500), b""), Err("package pkg: HTTP 500".to_string()));
    assert_eq!(sparse_versions("pkg", Err("timeout".to_string()), b""), Err("package pkg: timeout".to_string()));
    assert_eq!(sparse_versions("pkg", Ok(200), b"[]"), Err("package pkg: line not object".to_string()));
}

#[test]
fn decimal_numbers() {
    assert_eq!(decimal_text(0), "0");
    assert_eq!(decimal_text(7), "7");
    assert_eq!(decimal_text(451), "451");
    assert_eq!(decimal_text(u64::MAX), "18446744073709551615");
}

#[test]
fn update_messages() {
    assert_eq!(updating_message(false, "https://github.com/rust-lang/crates.io-index"),
               "    Updating registry 'https://github.com/rust-lang/crates.io-index'\n");
    assert_eq!(updating_message(true, "https://index.crates.io/"), "    Polling registry 'https://index.crates.io/'");
    assert_eq!(authorization_header("tok"), "Authorization: tok");
}

#[test]
fn sparse_urls() {
    assert_eq!(sparse_package_url("https://index.crates.io/", "cargo-update"), "https://index.crates.io/ca/rg/cargo-update");
    assert_eq!(sparse_package_url("https://index.crates.io", "Jot"), "https://index.crates.io/3/j/jot");
    assert_eq!(sparse_package_url("https://x/", "a"), "https://x/1/a");
}

#[test]
fn json_safety() {
    assert!(json_safe_exec(b"{\"vers\":\"1.0.0\"}"));
    assert!(!json_safe_exec(b"\"\\u123"));
    assert!(!json_safe_exec(b"{\"a\":1,"));
    assert!(!json_safe_exec(b"{\"a\":1, \t\r "));
    assert!(json_safe_exec(b"\"\\u1234\""));
    assert!(json_safe_exec(b""));
}

#[test]
fn versions_where_the_parser_would_not_return() {
    assert_eq!(crate_versions_checked(b"{\"vers\":\"1.0.0\"}\n\"\\u123"), None);
    assert_eq!(crate_versions_checked(b"{\"vers\":\"1.0.0\"}\n{\"a\":1,"), None);
    assert_eq!(crate_versions_checked(b"{\"vers\":1}\n{\"a\":1,"), Some(Err("\"vers\" not string".to_string())));
    assert_eq!(crate_versions_checked(b"{\"vers\":\"1.0.0\"}\n"), Some(Ok(vec![Semver::parse("1.0.0").unwrap()])));
    assert_eq!(sparse_versions_checked("pkg", Ok(200), b"{\"a\":1,"), None);
    assert_eq!(sparse_versions_checked("pkg", Ok(404), b"{\"a\":1,"), Some(Err("package pkg doesn't exist: HTTP 404".to_string())));
    assert_eq!(sparse_versions_checked("pkg", Ok(200), b"[]"), Some(Err("package pkg: line not object".to_string())));
}
