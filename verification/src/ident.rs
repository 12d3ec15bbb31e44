//! The package descriptors of `.crates.toml`, such as
//! `cargo-audit 0.17.5 (registry+https://github.com/rust-lang/crates.io-index)` or
//! `alacritty 0.1.0 (git+https://github.com/jwilm/alacritty#eb231b3e70b87875df4bdd1974d5e94704024d70)`.

use vstd::prelude::*;
use crate::text::{find, find_from, lemma_find_from, is_prefix, chars_of, string_of, find_char_from, matches_at, sub_chars};

verus! {

pub open spec fn registry_plus() -> Seq<char> {
    seq!['r', 'e', 'g', 'i', 's', 't', 'r', 'y', '+']
}

pub open spec fn sparse_plus() -> Seq<char> {
    seq!['s', 'p', 'a', 'r', 's', 'e', '+']
}

pub open spec fn git_open() -> Seq<char> {
    seq!['(', 'g', 'i', 't', '+']
}

/// The first three fields of `s.splitn(3, ' ')`, when there are three.
pub open spec fn three_fields(s: Seq<char>) -> Option<(Seq<char>, Seq<char>, Seq<char>)> {
    match find(s, ' ') {
        None => None,
        Some(i) => match find_from(s, ' ', i + 1) {
            None => None,
            Some(j) => Some((s.subrange(0, i), s.subrange(i + 1, j), s.subrange(j + 1, s.len() as int))),
        },
    }
}

/// `name version (registry+URL)` or `name version (sparse+URL)` -> `(name, version, URL)`.
pub open spec fn registry_ident(s: Seq<char>) -> Option<(Seq<char>, Seq<char>, Seq<char>)> {
    match three_fields(s) {
        None => None,
        Some((name, version, reg)) => if reg.len() >= 2 && reg[0] == '(' && reg[reg.len() - 1] == ')' {
            let inner = reg.subrange(1, reg.len() - 1);
            if is_prefix(registry_plus(), inner) {
                Some((name, version, inner.subrange(9, inner.len() as int)))
            } else if is_prefix(sparse_plus(), inner) {
                Some((name, version, inner.subrange(7, inner.len() as int)))
            } else {
                None
            }
        } else {
            None
        },
    }
}

/// `name version (git+URL#SHA)` -> `(name, URL, SHA)`, where SHA is 40 bytes long in UTF-8
/// (`str::len`, whose result is a `usize`).
pub open spec fn git_ident(s: Seq<char>) -> Option<(Seq<char>, Seq<char>, Seq<char>)> {
    match three_fields(s) {
        None => None,
        Some((name, _version, blob)) => if blob.len() >= 6 && is_prefix(git_open(), blob) && blob[blob.len()
            - 1] == ')' {
            let inner = blob.subrange(5, blob.len() - 1);
            match find(inner, '#') {
                None => None,
                Some(k) => {
                    let sha = inner.subrange(k + 1, inner.len() as int);
                    if vstd::utf8::encode_utf8(sha).len() as usize == 40 {
                        Some((name, inner.subrange(0, k), sha))
                    } else {
                        None
                    }
                },
            }
        } else {
            None
        },
    }
}

fn split3(v: &Vec<char>) -> (r: Option<(usize, usize)>)
    ensures
        match r {
            Some((i, j)) => i < j < v.len() && find(v@, ' ') == Some(i as int) && find_from(v@, ' ', i + 1)
                == Some(j as int),
            None => three_fields(v@) is None,
        },
{
    proof {
        lemma_find_from(v@, ' ', 0);
    }
    match find_char_from(v, ' ', 0) {
        None => None,
        Some(i) => {
            proof {
                lemma_find_from(v@, ' ', i + 1);
            }
            match find_char_from(v, ' ', i + 1) {
                None => None,
                Some(j) => Some((i, j)),
            }
        },
    }
}

/// Splits a registry package descriptor into its name, version and registry URL.
pub fn parse_registry_package_ident(ident: &str) -> (r: Option<(String, String, String)>)
    ensures
        match r {
            Some((n, v, u)) => registry_ident(ident@) == Some((n@, v@, u@)),
            None => registry_ident(ident@) is None,
        },
{
    let s = chars_of(ident);
    let (i, j) = match split3(&s) {
        Some(p) => p,
        None => return None,
    };
    let lo = j + 1;
    let hi = s.len();
    if hi - lo < 2 || s[lo] != '(' || s[hi - 1] != ')' {
        return None;
    }
    let ghost reg = s@.subrange(lo as int, hi as int);
    let ghost inner = reg.subrange(1, reg.len() - 1);
    assert(inner =~= s@.subrange(lo + 1, hi - 1));
    let rp = chars_of("registry+");
    let sp = chars_of("sparse+");
    proof {
        reveal_strlit("registry+");
        reveal_strlit("sparse+");
        assert(rp@ =~= registry_plus());
        assert(sp@ =~= sparse_plus());
    }
    let name = string_of(&s, 0, i);
    let version = string_of(&s, i + 1, j);
    let inner_v = sub_chars(&s, lo + 1, hi - 1);
    if matches_at(&inner_v, 0, &rp) {
        assert(inner_v@.subrange(0, inner_v@.len() as int) =~= inner_v@);
        let url = string_of(&inner_v, 9, inner_v.len());
        Some((name, version, url))
    } else if matches_at(&inner_v, 0, &sp) {
        assert(inner_v@.subrange(0, inner_v@.len() as int) =~= inner_v@);
        let url = string_of(&inner_v, 7, inner_v.len());
        Some((name, version, url))
    } else {
        assert(inner_v@.subrange(0, inner_v@.len() as int) =~= inner_v@);
        None
    }
}

/// Splits a git package descriptor into its name, repository URL (with query) and commit hash.
pub fn parse_git_package_ident(ident: &str) -> (r: Option<(String, String, String)>)
    ensures
        match r {
            Some((n, u, h)) => git_ident(ident@) == Some((n@, u@, h@)),
            None => git_ident(ident@) is None,
        },
{
    let s = chars_of(ident);
    let (i, j) = match split3(&s) {
        Some(p) => p,
        None => return None,
    };
    let blob = sub_chars(&s, j + 1, s.len());
    let go = chars_of("(git+");
    proof {
        reveal_strlit("(git+");
        assert(go@ =~= git_open());
    }
    if blob.len() < 6 || !matches_at(&blob, 0, &go) || blob[blob.len() - 1] != ')' {
        assert(blob@.subrange(0, blob@.len() as int) =~= blob@);
        return None;
    }
    assert(blob@.subrange(0, blob@.len() as int) =~= blob@);
    let inner = sub_chars(&blob, 5, blob.len() - 1);
    proof {
        lemma_find_from(inner@, '#', 0);
    }
    let k = match find_char_from(&inner, '#', 0) {
        Some(k) => k,
        None => return None,
    };
    let sha = string_of(&inner, k + 1, inner.len());
    if sha.as_str().len() != 40 {
        return None;
    }
    let name = string_of(&s, 0, i);
    let url = string_of(&inner, 0, k);
    Some((name, url, sha))
}

} // verus!
