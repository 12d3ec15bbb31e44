use cargo_update::auth::{auth_providers, token_from_stdout, AuthStep, SparseRegistryAuthProviderBundle};
use cargo_update::cargo_config::{CargoConfig, CargoEnvironment, SparseRegistryAuthProvider};
use cargo_update::toml_value::parse_toml;


fn no_env() -> CargoEnvironment {
    CargoEnvironment { vars: vec![], windows: false }
}

#[test]
fn git_registries_get_no_providers() {
    let cfg = CargoConfig::load(&None, &None, &no_env());
    let b = auth_providers(&None, None, &cfg.sparse_registries, false, "crates-io", "https://index.crates.io/");
    assert_eq!(b, SparseRegistryAuthProviderBundle(vec![], "cargo".to_string(), "!sparse".to_string(), "!sparse".to_string(), None, None));
    assert!(matches!(b.next_step(0), AuthStep::Exhausted));
}

#[test]
fn crates_io_bundle() {
    let creds = parse_toml("[registry]\ntoken = \"tok\"\n").unwrap();
    let cfg = CargoConfig::load(&None, &Some(creds), &no_env());
    let b = auth_providers(&None, Some("/bin/cargo"), &cfg.sparse_registries, true, "crates-io", "https://index.crates.io/");
    assert_eq!(b.0, vec![SparseRegistryAuthProvider::TokenNoEnvironment]);
    assert_eq!(b.1, "/bin/cargo");
    assert_eq!(b.5, Some("tok".to_string()));
    match b.next_step(0) {
        AuthStep::Token { index, token } => {
            assert_eq!(index, 0);
            assert_eq!(token, "tok");
        }
        other => panic!("{:?}", other),
    }
}

#[test]
fn registry_bundle_from_its_table() {
    let text = r#"
[registries.private]
credential-provider = "cargo:token-from-stdout print-token --now"
token = "cfg-token"
"#;
    let cfg_doc = parse_toml(text).unwrap();
    let cfg = CargoConfig::load(&Some(parse_toml(text).unwrap()), &None, &no_env());
    let b = auth_providers(&Some(cfg_doc), None, &cfg.sparse_registries, true, "private", "https://private/");
    assert_eq!(b.0, vec![SparseRegistryAuthProvider::TokenFromStdout(vec!["print-token".to_string(), "--now".to_string()])]);
    assert_eq!(b.4, None);
    assert_eq!(b.5, Some("cfg-token".to_string()));
    match b.next_step(0) {
        AuthStep::Run { index, command, env } => {
            assert_eq!(index, 0);
            assert_eq!(command, vec!["print-token".to_string(), "--now".to_string()]);
            assert_eq!(env,
                       vec![("CARGO".to_string(), "cargo".to_string()),
                            ("CARGO_REGISTRY_INDEX_URL".to_string(), "https://private/".to_string()),
                            ("CARGO_REGISTRY_NAME_OPT".to_string(), "private".to_string())]);
        }
        other => panic!("{:?}", other),
    }
    assert!(matches!(b.next_step(1), AuthStep::Exhausted));
}

#[test]
fn providers_asked_last_first() {
    let b = SparseRegistryAuthProviderBundle(vec![SparseRegistryAuthProvider::Token, SparseRegistryAuthProvider::Libsecret],
                                             "cargo".to_string(),
                                             "r".to_string(),
                                             "u".to_string(),
                                             Some("env".to_string()),
                                             Some("cfg".to_string()));
    match b.next_step(0) {
        AuthStep::Token { index, token } => {
            assert_eq!(index, 1);
            assert_eq!(token, "env");
        }
        other => panic!("{:?}", other),
    }
}

#[test]
fn stdout_tokens() {
    assert_eq!(token_from_stdout(b"\n\ntoken\n"), Some("token".to_string()));
    assert_eq!(token_from_stdout(b"a\nb\n"), Some("a\nb".to_string()));
    assert_eq!(token_from_stdout(b"\xff"), None);
}
