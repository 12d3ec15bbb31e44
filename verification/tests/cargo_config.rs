use cargo_update::cargo_config::{CargoConfig, CargoEnvironment, SparseRegistryAuthProvider, CargoConfigEnvironmentNormalisedString};
use cargo_update::toml_value::parse_toml;


fn env(vars: &[(&str, &str)]) -> CargoEnvironment {
    CargoEnvironment {
        vars: vars.iter().map(|(k, v)| (k.as_bytes().to_vec(), v.as_bytes().to_vec())).collect(),
        windows: false,
    }
}

#[test]
fn normalise_names() {
    assert_eq!(CargoConfigEnvironmentNormalisedString::normalise("my-registry.name".to_string()).0, "MY_REGISTRY_NAME");
}

#[test]
fn providers_from_config() {
    assert_eq!(SparseRegistryAuthProvider::from_config("cargo:token"), SparseRegistryAuthProvider::Token);
    assert_eq!(SparseRegistryAuthProvider::from_config("cargo:token-from-stdout echo hi"),
               SparseRegistryAuthProvider::TokenFromStdout(vec!["echo".to_string(), "hi".to_string()]));
    assert_eq!(SparseRegistryAuthProvider::from_config("cargo:libsecret"), SparseRegistryAuthProvider::Libsecret);
    assert_eq!(SparseRegistryAuthProvider::from_config("my-provider --arg"),
               SparseRegistryAuthProvider::Provider(vec!["my-provider".to_string(), "--arg".to_string()]));
}

#[test]
fn load_defaults() {
    let cfg = CargoConfig::load(&None, &None, &env(&[]));
    assert!(!cfg.net_git_fetch_with_cli);
    assert!(cfg.registries_crates_io_protocol_sparse);
    assert_eq!(cfg.http.cainfo, None);
    assert!(!cfg.http.check_revoke);
    assert_eq!(cfg.sparse_registries.global_credential_providers, vec![SparseRegistryAuthProvider::TokenNoEnvironment]);
    assert_eq!(cfg.sparse_registries.crates_io_credential_provider, None);
    assert_eq!(cfg.sparse_registries.crates_io_token, None);
}

#[test]
fn load_from_documents_and_environment() {
    let config = parse_toml(r#"
[registry]
global-credential-providers = ["cargo:token", "mine"]
token = "from-config"

[registries.private]
token = "private-token"

[registries.crates-io]
protocol = "git"

[credential-alias]
mine = "my-provider --flag"

[net]
git-fetch-with-cli = true

[http]
cainfo = "/etc/ca.pem"
check-revoke = false
"#)
        .unwrap();
    let creds = parse_toml("[registry]\ntoken = \"from-credentials\"\n").unwrap();
    let cfg = CargoConfig::load(&Some(config),
                                &Some(creds),
                                &env(&[("CARGO_REGISTRY_TOKEN", "env-token"), ("CARGO_REGISTRIES_PRIVATE_TOKEN", "env-private")]));
    assert!(cfg.net_git_fetch_with_cli);
    assert!(!cfg.registries_crates_io_protocol_sparse);
    assert_eq!(cfg.http.cainfo, Some(b"/etc/ca.pem".to_vec()));
    assert!(!cfg.http.check_revoke);
    assert_eq!(cfg.sparse_registries.global_credential_providers,
               vec![SparseRegistryAuthProvider::Token,
                    SparseRegistryAuthProvider::Provider(vec!["my-provider".to_string(), "--flag".to_string()])]);
    assert_eq!(cfg.sparse_registries.crates_io_token, Some("from-credentials".to_string()));
    assert_eq!(cfg.sparse_registries.crates_io_token_env, Some("env-token".to_string()));
    assert_eq!(cfg.sparse_registries.registry_tokens, vec![("private".to_string(), "private-token".to_string())]);
    assert_eq!(cfg.sparse_registries.registry_tokens_env, vec![("PRIVATE".to_string(), "env-private".to_string())]);
}

#[test]
fn git_fetch_with_cli_from_environment() {
    let config = parse_toml("[net]\ngit-fetch-with-cli = true\n").unwrap();
    assert!(CargoConfig::load(&None, &None, &env(&[("CARGO_NET_GIT_FETCH_WITH_CLI", "true")])).net_git_fetch_with_cli);
    assert!(!CargoConfig::load(&Some(config), &None, &env(&[("CARGO_NET_GIT_FETCH_WITH_CLI", "")])).net_git_fetch_with_cli);
    let config = parse_toml("[net]\ngit-fetch-with-cli = true\n").unwrap();
    assert!(CargoConfig::load(&Some(config), &None, &env(&[("CARGO_NET_GIT_FETCH_WITH_CLI", "not a toml value")])).net_git_fetch_with_cli);
    assert!(!CargoConfig::load(&None, &None, &env(&[("CARGO_NET_GIT_FETCH_WITH_CLI", "false")])).net_git_fetch_with_cli);
}
