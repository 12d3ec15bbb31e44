//! Environment variables, held as the encoded bytes of their names and values.

use vstd::prelude::*;
use vstd::utf8::{valid_utf8, decode_utf8, encode_utf8};
use vstd::string::StringSliceAdditionalSpecFns;

verus! {

/// The text that UTF-8 bytes decode to, if they are valid UTF-8.
pub open spec fn decoded(b: Seq<u8>) -> Option<Seq<char>> {
    if valid_utf8(b) {
        Some(decode_utf8(b))
    } else {
        None
    }
}

/// `std::str::from_utf8`, owned.
#[verifier::external_body]
pub(crate) fn utf8_decode(b: &[u8]) -> (r: Option<String>)
    ensures
        match r {
            Some(s) => decoded(b@) == Some(s@),
            None => decoded(b@) is None,
        },
{
    std::str::from_utf8(b).ok().map(|s| s.to_string())
}

/// The value of the first variable named `name`.
pub open spec fn env_lookup(vars: Seq<(Vec<u8>, Vec<u8>)>, name: Seq<u8>) -> Option<Seq<u8>>
    decreases vars.len(),
{
    if vars.len() == 0 {
        None
    } else if vars[0].0@ == name {
        Some(vars[0].1@)
    } else {
        env_lookup(vars.drop_first(), name)
    }
}

/// `std::env::var(name)`: the value, if the variable is set and its value is UTF-8.
pub open spec fn env_text(vars: Seq<(Vec<u8>, Vec<u8>)>, name: Seq<char>) -> Option<Seq<char>> {
    match env_lookup(vars, encode_utf8(name)) {
        Some(b) => decoded(b),
        None => None,
    }
}

pub fn bytes_eq(a: &[u8], b: &[u8]) -> (r: bool)
    ensures
        r == (a@ == b@),
{
    if a.len() != b.len() {
        return false;
    }
    let mut i: usize = 0;
    while i < a.len()
        invariant
            a.len() == b.len(),
            i <= a.len(),
            forall|j: int| 0 <= j < i ==> a@[j] == b@[j],
        decreases a.len() - i,
    {
        if a[i] != b[i] {
            return false;
        }
        i = i + 1;
    }
    assert(a@ =~= b@);
    true
}

/// `std::env::var_os(name)`.
pub fn env_var_os<'a>(vars: &'a Vec<(Vec<u8>, Vec<u8>)>, name: &str) -> (r: Option<&'a Vec<u8>>)
    ensures
        match r {
            Some(v) => env_lookup(vars@, encode_utf8(name@)) == Some(v@),
            None => env_lookup(vars@, encode_utf8(name@)) is None,
        },
{
    let nb = name.as_bytes();
    let mut i: usize = 0;
    assert(vars@.subrange(0, vars.len() as int) =~= vars@);
    while i < vars.len()
        invariant
            i <= vars.len(),
            nb@ == encode_utf8(name@),
            env_lookup(vars@, nb@) == env_lookup(vars@.subrange(i as int, vars.len() as int), nb@),
        decreases vars.len() - i,
    {
        assert(vars@.subrange(i as int, vars.len() as int).drop_first() =~= vars@.subrange(i + 1, vars.len() as int));
        assert(vars@.subrange(i as int, vars.len() as int)[0] == vars@[i as int]);
        if bytes_eq(vars[i].0.as_slice(), nb) {
            return Some(&vars[i].1);
        }
        i = i + 1;
    }
    None
}

/// `std::env::var(name)`, owned.
pub fn env_var(vars: &Vec<(Vec<u8>, Vec<u8>)>, name: &str) -> (r: Option<String>)
    ensures
        match r {
            Some(s) => env_text(vars@, name@) == Some(s@),
            None => env_text(vars@, name@) is None,
        },
{
    match env_var_os(vars, name) {
        Some(v) => utf8_decode(v.as_slice()),
        None => None,
    }
}

pub open spec fn has_prefix_bytes(p: Seq<u8>, s: Seq<u8>) -> bool {
    p.len() <= s.len() && s.subrange(0, p.len() as int) == p
}

pub open spec fn has_suffix_bytes(p: Seq<u8>, s: Seq<u8>) -> bool {
    p.len() <= s.len() && s.subrange(s.len() - p.len(), s.len() as int) == p
}

pub fn starts_with_bytes(s: &[u8], p: &[u8]) -> (r: bool)
    ensures
        r == has_prefix_bytes(p@, s@),
{
    if p.len() > s.len() {
        return false;
    }
    let mut i: usize = 0;
    while i < p.len()
        invariant
            p.len() <= s.len(),
            i <= p.len(),
            forall|j: int| 0 <= j < i ==> s@[j] == p@[j],
        decreases p.len() - i,
    {
        if s[i] != p[i] {
            assert(s@.subrange(0, p.len() as int)[i as int] != p@[i as int]);
            return false;
        }
        i = i + 1;
    }
    assert(s@.subrange(0, p.len() as int) =~= p@);
    true
}

pub fn ends_with_bytes(s: &[u8], p: &[u8]) -> (r: bool)
    ensures
        r == has_suffix_bytes(p@, s@),
{
    if p.len() > s.len() {
        return false;
    }
    let off = s.len() - p.len();
    let mut i: usize = 0;
    while i < p.len()
        invariant
            p.len() <= s.len(),
            off == s.len() - p.len(),
            i <= p.len(),
            forall|j: int| 0 <= j < i ==> s@[off + j] == p@[j],
        decreases p.len() - i,
    {
        if s[off + i] != p[i] {
            assert(s@.subrange(off as int, s.len() as int)[i as int] != p@[i as int]);
            return false;
        }
        i = i + 1;
    }
    assert(s@.subrange(off as int, s.len() as int) =~= p@);
    true
}

/// A byte that `cargo`'s normalised names never hold: an ASCII lower-case letter, `.` or `-`.
pub open spec fn unnormalised_byte(b: u8) -> bool {
    (97 <= b && b <= 122) || b == 46 || b == 45
}

/// No byte of `b[lo..hi]` is unnormalised.
pub fn all_normalised(b: &[u8], lo: usize, hi: usize) -> (r: bool)
    requires
        lo <= hi <= b.len(),
    ensures
        r == forall|i: int| lo <= i < hi ==> !unnormalised_byte(#[trigger] b@[i]),
{
    let mut i = lo;
    while i < hi
        invariant
            lo <= i <= hi <= b.len(),
            forall|j: int| lo <= j < i ==> !unnormalised_byte(#[trigger] b@[j]),
        decreases hi - i,
    {
        let c = b[i];
        if (97 <= c && c <= 122) || c == 46 || c == 45 {
            return false;
        }
        i = i + 1;
    }
    true
}

pub fn sub_bytes(b: &[u8], lo: usize, hi: usize) -> (r: Vec<u8>)
    requires
        lo <= hi <= b.len(),
    ensures
        r@ == b@.subrange(lo as int, hi as int),
{
    let mut r: Vec<u8> = Vec::new();
    let mut i = lo;
    while i < hi
        invariant
            lo <= i <= hi <= b.len(),
            r@ == b@.subrange(lo as int, i as int),
        decreases hi - i,
    {
        r.push(b[i]);
        i = i + 1;
    }
    r
}

} // verus!
