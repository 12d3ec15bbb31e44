use cargo_update::locate::{crates_file_in, find_proxy, is_old_update_exec, ChaseStep, RootChase};
use cargo_update::toml_value::{parse_toml, TomlValue};


#[test]
fn install_root() {
    let doc = parse_toml("[install]\nroot = \"/opt/cargo\"\n").unwrap();
    assert_eq!(crates_file_in(Some(&doc)), Some("/opt/cargo".to_string()));
    assert_eq!(crates_file_in(Some(&parse_toml("[install]\nroot = 1\n").unwrap())), None);
    assert_eq!(crates_file_in(None), None);
}

#[test]
fn proxies() {
    let doc = parse_toml("[http]\nproxy = \"http://p:1\"\n").unwrap();
    let env = vec![(b"HTTPS_PROXY".to_vec(), b"http://e:3".to_vec()), (b"http_proxy".to_vec(), b"".to_vec())];
    assert_eq!(find_proxy(Some(&doc), Some("http://g:2"), &env), Some("http://p:1".to_string()));
    let empty = parse_toml("[http]\nproxy = \"\"\n").unwrap();
    assert_eq!(find_proxy(Some(&empty), Some("http://g:2"), &env), Some("http://g:2".to_string()));
    assert_eq!(find_proxy(None, Some(""), &env), Some("http://e:3".to_string()));
    assert_eq!(find_proxy(None, None, &vec![]), None);
}

#[test]
fn toml_documents() {
    let doc = parse_toml("a = \"x\"\n[t]\nb = [1, true]\n").unwrap();
    assert_eq!(doc.get("a").and_then(|v| v.as_str()), Some("x"));
    assert_eq!(doc.get("t").and_then(|t| t.get("b")), Some(&TomlValue::Array(vec![TomlValue::Integer(1), TomlValue::Boolean(true)])));
    assert!(parse_toml("= nonsense").is_err());
}

fn chase(start: &str, configs: &[(&str, &str)]) -> Result<String, String> {
    let mut c = RootChase::start(start);
    loop {
        let text = configs.iter().find(|(d, _)| *d == c.current()).map(|(_, t)| *t);
        let doc = text.map(|t| parse_toml(t).unwrap());
        match c.step(doc.as_ref()) {
            ChaseStep::Next(n) => c = n,
            ChaseStep::Loop(d) => return Err(d),
            ChaseStep::Done(d) => return Ok(d),
        }
    }
}

#[test]
fn install_root_chain() {
    let configs = [("/home/u/.cargo", "[install]\nroot = \"/opt/cargo\"\n"),
                   ("/opt/cargo", "[install]\nroot = \"/srv/cargo\"\n"),
                   ("/srv/cargo", "[http]\nproxy = \"p\"\n")];
    assert_eq!(chase("/home/u/.cargo", &configs), Ok("/srv/cargo".to_string()));
    assert_eq!(chase("/opt/cargo", &configs), Ok("/srv/cargo".to_string()));
    assert_eq!(chase("/elsewhere", &configs), Ok("/elsewhere".to_string()));

    let looping = [("/a", "[install]\nroot = \"/b\"\n"), ("/b", "[install]\nroot = \"/a\"\n")];
    assert_eq!(chase("/a", &looping), Err("/a".to_string()));
    assert_eq!(chase("/b", &looping), Err("/b".to_string()));
    let itself = [("/a", "[install]\nroot = \"/a\"\n")];
    assert_eq!(chase("/a", &itself), Err("/a".to_string()));
}

#[test]
fn old_update_executables() {
    assert!(is_old_update_exec("cargo-install-update.exe-v13.4.0"));
    assert!(is_old_update_exec("x-cargo-install-update.exe-v1"));
    assert!(!is_old_update_exec("cargo-install-update.exe-v"));
    assert!(!is_old_update_exec("cargo-install-update.exe"));
    assert!(!is_old_update_exec("cargo-install-update.exe-v\n"));
    assert!(!is_old_update_exec("cargo-install-update-config.exe-v1"));
}
