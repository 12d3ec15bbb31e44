use cargo_update::sources::{get_index_url, index_url};


const CONFIG: &str = r#"
[source.crates-io]
replace-with = "tralternative"

[source.tralternative]
registry = "outside-the-scope-of-this-document"

[source.alternative]
registry = "file:///usr/local/share/cargo"
replace-with = "tralternative"

[source.sus]
replace-with = "sussy"

[source.dead-end]
replace-with = "death"

[registries.sussy]
index = "sparse+zupa"
"#;

const SEARCHED: &str = "/cargo_update-test/config";

fn file_for(suffix: &str) -> String {
    format!("/cargo_update-test/{}", suffix)
}

#[test]
fn default_vs_sparse() {
    for suffix in &["config", "config.toml"] {
        let f = file_for(suffix);
        assert_eq!(get_index_url(&f, SEARCHED, None, "https://github.com/rust-lang/crates.io-index", false),
                   Ok(("https://github.com/rust-lang/crates.io-index".to_string(), false, "crates-io".into())));
        assert_eq!(get_index_url(&f, SEARCHED, None, "https://github.com/rust-lang/crates.io-index", true),
                   Ok(("https://index.crates.io/".to_string(), true, "crates-io".into())));
    }
}

#[test]
fn get_index_url_nonexistent() {
    let f = file_for("config.toml");
    assert_eq!(get_index_url(&f, SEARCHED, None, "https://github.com/LoungeCPP/pir-8-emu", false),
               Err(format!("Non-crates.io registry specified and no config file found at {} or {}. Due to a Cargo limitation we will not be able to \
                            install from there until it's given a [source.NAME] in that file!",
                           SEARCHED,
                           f)));
}

#[test]
fn unknown() {
    for suffix in &["config", "config.toml"] {
        let f = file_for(suffix);
        assert_eq!(get_index_url(&f, SEARCHED, Some(CONFIG), "https://github.com/LoungeCPP/pir-8-emu", false),
                   Err(format!("Non-crates.io registry specified and https://github.com/LoungeCPP/pir-8-emu couldn't be found in the config file at {}. \
                                Due to a Cargo limitation we will not be able to install from there until it's given a [source.NAME] in that file!",
                               f)));
    }
}

#[test]
fn default() {
    for suffix in &["config", "config.toml"] {
        assert_eq!(get_index_url(&file_for(suffix), SEARCHED, Some(CONFIG), "https://github.com/rust-lang/crates.io-index", false),
                   Ok(("outside-the-scope-of-this-document".to_string(), false, "tralternative".into())));
    }
}

#[test]
fn from_alt_url() {
    for suffix in &["config", "config.toml"] {
        assert_eq!(get_index_url(&file_for(suffix), SEARCHED, Some(CONFIG), "file:///usr/local/share/cargo", false),
                   Ok(("outside-the-scope-of-this-document".to_string(), false, "tralternative".into())));
    }
}

#[test]
fn from_name() {
    for suffix in &["config", "config.toml"] {
        assert_eq!(get_index_url(&file_for(suffix), SEARCHED, Some(CONFIG), "alternative", false),
                   Ok(("outside-the-scope-of-this-document".to_string(), false, "tralternative".into())));
    }
}

#[test]
fn sus() {
    for suffix in &["config", "config.toml"] {
        assert_eq!(get_index_url(&file_for(suffix), SEARCHED, Some(CONFIG), "sus", false),
                   Ok(("zupa".to_string(), true, "sussy".into())));
    }
}

#[test]
fn dead_end() {
    for suffix in &["config", "config.toml"] {
        let f = file_for(suffix);
        assert_eq!(get_index_url(&f, SEARCHED, Some(CONFIG), "dead-end", false),
                   Err(format!("Couldn't find appropriate source URL for dead-end in {} (resolved to \"death\")", f)));
    }
}

#[test]
fn not_toml() {
    let f = file_for("config");
    let r = get_index_url(&f, SEARCHED, Some("[source"), "https://github.com/rust-lang/crates.io-index", false);
    assert!(r.unwrap_err().starts_with(&format!("{} not TOML: ", f)));
}

#[test]
fn source_not_table() {
    assert_eq!(get_index_url("c", "s", Some("source = 1"), "x", false), Err("source not table".to_string()));
    assert_eq!(get_index_url("c", "s", Some("registries = 1"), "x", false), Err("registries is not a table".to_string()));
    assert_eq!(get_index_url("c", "s", Some("[source.a]\nregistry = 1"), "x", false), Err("source.a.registry not string".to_string()));
    assert_eq!(get_index_url("c", "s", Some("[source.a]\nreplace-with = 1"), "x", false),
               Err("source.a.replacement not string".to_string()));
}

#[test]
fn crates_io_sparse_with_config() {
    assert_eq!(get_index_url("c", "s", Some(""), "https://github.com/rust-lang/crates.io-index", true),
               Ok(("https://index.crates.io/".to_string(), true, "crates-io".into())));
}

#[test]
fn replacement_cycle_is_reported() {
    let cyclic = "[source.a]\nreplace-with = \"b\"\n[source.b]\nreplace-with = \"a\"\n";
    assert_eq!(index_url("c", "s", Some(cyclic), "a", false), None);
    assert_eq!(index_url("c", "s", Some(CONFIG), "sus", false), Some(Ok(("zupa".to_string(), true, "sussy".into()))));
}
