use cargo_update::index::{split_package_path, find_package_data, index_dir_name, git_db_repo_name, cargo_hash, hash_text, lcase};


#[test]
fn normal() {
    assert_eq!(split_package_path("a"), vec!["1", "a"]);
    assert_eq!(split_package_path("an"), vec!["2", "an"]);
    assert_eq!(split_package_path("jot"), vec!["3", "j", "jot"]);
    assert_eq!(split_package_path("cargo-update"), vec!["ca", "rg", "cargo-update"]);

    assert_eq!(split_package_path("FileSorterX"), vec!["fi", "le", "filesorterx"]);
}

#[test]
fn split_is_lowered_path() {
    for name in &["A", "Ab", "JoT", "FileSorterX", "cargo-update"] {
        let lowered: Vec<String> = find_package_data(name).iter().map(|c| lcase(c)).collect();
        assert_eq!(split_package_path(name), lowered);
    }
}

/// An index holding one package file at `subpath/name`: the directories and the file.
struct Index(Vec<String>);

fn add_package(subpath: &str, name: &str) -> Index {
    let mut entries = Vec::new();
    let mut path = String::new();
    for elem in subpath.split('/') {
        if !path.is_empty() {
            path.push('/');
        }
        path.push_str(elem);
        entries.push(path.clone());
    }
    entries.push(format!("{}/{}", path, name));
    Index(entries)
}

fn probe(index: &Index, cratename: &str) -> Option<String> {
    let mut p = String::new();
    for c in find_package_data(cratename) {
        if !p.is_empty() {
            p.push('/');
        }
        p.push_str(&c);
        if !index.0.contains(&p) {
            return None;
        }
    }
    Some(p)
}

#[test]
fn one_length() {
    let index = add_package("1", "a");

    assert_eq!(probe(&index, "a"), Some("1/a".to_string()));
    assert_eq!(probe(&index, "b"), None);
}

#[test]
fn two_length() {
    let index = add_package("2", "ab");

    assert_eq!(probe(&index, "ab"), Some("2/ab".to_string()));
    assert_eq!(probe(&index, "bc"), None);
}

#[test]
fn three_length() {
    let index = add_package("3/a", "abc");

    assert_eq!(probe(&index, "abc"), Some("3/a/abc".to_string()));
    assert_eq!(probe(&index, "abe"), None);
    assert_eq!(probe(&index, "zxt"), None);
}

#[test]
fn four_length() {
    let index = add_package("ab/cd", "abcd");

    assert_eq!(probe(&index, "abcd"), Some("ab/cd/abcd".to_string()));
    assert_eq!(probe(&index, "zxth"), None);
}

#[test]
fn five_length() {
    let index = add_package("ab/cd", "abcde");

    assert_eq!(probe(&index, "abcde"), Some("ab/cd/abcde".to_string()));
    assert_eq!(probe(&index, "zxthk"), None);
}

#[test]
fn more_length() {
    let index = add_package("ca/rg", "cargo-update");

    assert_eq!(probe(&index, "cargo-update"), Some("ca/rg/cargo-update".to_string()));
    assert_eq!(probe(&index, "sieg-heil"), None);
}

#[test]
fn index_path_keeps_case() {
    assert_eq!(find_package_data("FileSorterX"), vec!["Fi", "le", "FileSorterX"]);
}

#[test]
fn assert_index_path_single() {
    assert_eq!(index_dir_name("https://github.com/rust-lang/crates.io-index"), Some("github.com-1ecc6299db9ec823".to_string()));
}

#[test]
fn assert_index_path_double() {
    assert_eq!(index_dir_name("https://github.com/rust-lang/crates.io-index"), Some("github.com-1ecc6299db9ec823".to_string()));
}

#[test]
fn two() {
    assert_eq!(index_dir_name("https://github.com/rust-lang/crates.io-index"), Some("github.com-1ecc6299db9ec823".to_string()));
    assert_eq!(index_dir_name("file:///usr/local/share/cargo"), Some("-72ffea3e1e10b7e3".to_string()));
}

#[test]
fn index_dir_of_non_url() {
    assert_eq!(index_dir_name("not a url"), None);
}

#[test]
fn hash_text_is_little_endian_hex() {
    assert_eq!(hash_text(0x0123456789abcdef), "efcdab8967452301");
    assert_eq!(hash_text(0), "0000000000000000");
}

#[test]
fn cargo_hash_of_str_stream() {
    let url = "https://github.com/rust-lang/cargo";
    let mut stream = url.as_bytes().to_vec();
    stream.push(0xff);
    let name = git_db_repo_name(url).unwrap();
    assert_eq!(name, format!("cargo-{}", cargo_hash(&stream)));
    assert_eq!(cargo_hash(&stream).len(), 16);
    assert_ne!(cargo_hash(&stream), cargo_hash(b"\xff"));
}

#[test]
fn git_db_repo_name_empty_segment() {
    assert!(git_db_repo_name("https://example.com/").unwrap().starts_with("_empty-"));
    assert_eq!(git_db_repo_name("not a url"), None);
}
