//! Where a package lies in a registry index, and the names cargo gives index directories.

use vstd::prelude::*;
use vstd::utf8::*;
use vstd::string::StringSliceAdditionalSpecFns;
use crate::text::{lower_seq, strings_view, chars_of, lower_string_of, copy_str, append_str};
use crate::urls::{url_parses, url_host, url_last_segment, host_of, last_segment_of};

verus! {

broadcast use vstd::utf8::group_utf8_lib;

/// The UTF-8 bytes of a text.
pub open spec fn utf8(s: Seq<char>) -> Seq<u8> {
    encode_utf8(s)
}

/// The text whose UTF-8 encoding is `b[lo..hi]`.
pub open spec fn piece(s: Seq<char>, lo: int, hi: int) -> Seq<char> {
    decode_utf8(utf8(s).subrange(lo, hi))
}

/// The index directories of a crate name: `[n, name]` for names of `n` = 1 or 2 bytes,
/// `[3, first byte, name]` for 3 bytes, and `[bytes 0..2, bytes 2..4, name]` otherwise,
/// each but the length ASCII-lower-cased by `lower`.
pub open spec fn index_components(s: Seq<char>, lower: bool) -> Seq<Seq<char>> {
    let n = utf8(s).len();
    let l = |t: Seq<char>| if lower { lower_seq(t) } else { t };
    if n == 1 {
        seq!["1"@, l(s)]
    } else if n == 2 {
        seq!["2"@, l(s)]
    } else if n == 3 {
        seq!["3"@, l(piece(s, 0, 1)), l(s)]
    } else {
        seq![l(piece(s, 0, 2)), l(piece(s, 2, 4)), l(s)]
    }
}

/// A crate name that the index layout can split: not empty, and cut by the layout only at
/// character boundaries.
pub open spec fn splittable(s: Seq<char>) -> bool {
    let b = utf8(s);
    &&& b.len() > 0
    &&& b.len() == 3 ==> is_char_boundary(b, 1)
    &&& b.len() >= 4 ==> is_char_boundary(b, 2) && is_char_boundary(b, 4)
}

/// ASCII-lower-cases a text.
pub fn lcase(s: &str) -> (r: String)
    ensures
        r@ == lower_seq(s@),
{
    let v = chars_of(s);
    let r = lower_string_of(&v, 0, v.len());
    assert(v@.subrange(0, v.len() as int) =~= v@);
    r
}

/// Splits `s` at the character boundaries `lo < hi` of its UTF-8 bytes and returns the middle.
fn byte_piece(s: &str, lo: usize, hi: usize) -> (r: &str)
    requires
        lo < hi <= utf8(s@).len(),
        is_char_boundary(utf8(s@), lo as int),
        is_char_boundary(utf8(s@), hi as int),
    ensures
        r@ == piece(s@, lo as int, hi as int),
{
    let ghost b = utf8(s@);
    proof {
        encode_utf8_valid_utf8(s@);
    }
    let (head, _) = s.split_at(hi);
    let ghost hb = b.subrange(0, hi as int);
    proof {
        valid_utf8_split(b, hi as int);
        assert(head.spec_bytes() == hb);
        if lo > 0 {
            is_char_boundary_iff_not_is_continuation_byte(b, lo as int);
            is_char_boundary_iff_not_is_continuation_byte(hb, lo as int);
        }
    }
    let (_, mid) = head.split_at(lo);
    proof {
        assert(mid.spec_bytes() =~= b.subrange(lo as int, hi as int));
        encode_utf8_decode_utf8(mid@);
    }
    mid
}

/// Splits and lower-cases a crate name into its index directories: `cargo-update` into
/// `[ca, rg, cargo-update]`, `jot` into `[3, j, jot]`.
pub fn split_package_path(cratename: &str) -> (r: Vec<String>)
    requires
        splittable(cratename@),
    ensures
        strings_view(r@) == index_components(cratename@, true),
{
    let n = cratename.as_bytes().len();
    let mut r: Vec<String> = Vec::new();
    if n == 1 {
        r.push(copy_str("1"));
    } else if n == 2 {
        r.push(copy_str("2"));
    } else if n == 3 {
        r.push(copy_str("3"));
        r.push(lcase(byte_piece(cratename, 0, 1)));
    } else {
        r.push(lcase(byte_piece(cratename, 0, 2)));
        r.push(lcase(byte_piece(cratename, 2, 4)));
    }
    r.push(lcase(cratename));
    assert(strings_view(r@) =~= index_components(cratename@, true));
    r
}

/// The path of a crate's entry in a file-system index, relative to the index directory: the
/// directories of [`split_package_path`] without lower-casing. The entry exists when each of
/// these, joined in turn onto the index directory, exists.
pub fn find_package_data(cratename: &str) -> (r: Vec<String>)
    requires
        splittable(cratename@),
    ensures
        strings_view(r@) == index_components(cratename@, false),
{
    let n = cratename.as_bytes().len();
    let mut r: Vec<String> = Vec::new();
    if n == 1 {
        r.push(copy_str("1"));
    } else if n == 2 {
        r.push(copy_str("2"));
    } else if n == 3 {
        r.push(copy_str("3"));
        r.push(copy_str(byte_piece(cratename, 0, 1)));
    } else {
        r.push(copy_str(byte_piece(cratename, 0, 2)));
        r.push(copy_str(byte_piece(cratename, 2, 4)));
    }
    r.push(copy_str(cratename));
    assert(strings_view(r@) =~= index_components(cratename@, false));
    r
}

/// A hexadecimal digit, lower-case.
pub open spec fn hex_digit(n: int) -> char {
    if n < 10 {
        (48 + n) as char
    } else {
        (87 + n) as char
    }
}

/// Each byte as two lower-case hexadecimal digits, high nibble first.
pub open spec fn hex_text(b: Seq<u8>) -> Seq<char>
    decreases b.len(),
{
    if b.len() == 0 {
        seq![]
    } else {
        seq![hex_digit(b[0] as int / 16), hex_digit(b[0] as int % 16)] + hex_text(b.drop_first())
    }
}

/// Calls `hex::encode`.
///
/// Claims what its documentation states: each byte becomes two lower-case hexadecimal digits.
#[verifier::external_body]
pub(crate) fn hex_encode(data: &[u8]) -> (r: String)
    ensures
        r@ == hex_text(data@),
{
    hex::encode(data)
}

/// SipHash 2-4 with both keys zero over the bytes handed to a hasher (what
/// `std::hash::SipHasher::new_with_keys(0, 0)` finishes with after `write` of these bytes).
pub uninterp spec fn sip_hash(bytes: Seq<u8>) -> u64;

/// Calls `SipHasher::new_with_keys(0, 0)`, `Hasher::write` and `Hasher::finish`.
///
/// Claims the result is the named `sip_hash` of the bytes.
#[verifier::external_body]
#[allow(deprecated)]
fn sip_hash_of(bytes: &[u8]) -> (r: u64)
    ensures
        r == sip_hash(bytes@),
{
    let mut h = std::hash::SipHasher::new_with_keys(0, 0);
    std::hash::Hasher::write(&mut h, bytes);
    std::hash::Hasher::finish(&h)
}

/// The eight bytes of a hash, least significant first.
pub open spec fn le_bytes(h: u64) -> Seq<u8> {
    seq![h as u8, (h >> 8) as u8, (h >> 16) as u8, (h >> 24) as u8, (h >> 32) as u8, (h >> 40) as u8,
        (h >> 48) as u8, (h >> 56) as u8]
}

/// The text cargo makes of a hash: its little-endian bytes in hexadecimal.
pub open spec fn hash_text_spec(h: u64) -> Seq<char> {
    hex_text(le_bytes(h))
}

/// What `Hash` for `str` hands a hasher: the UTF-8 bytes, then `0xff`.
pub open spec fn str_hash_stream(s: Seq<char>) -> Seq<u8> {
    utf8(s).push(0xffu8)
}

/// Cargo's short text of a hash.
pub fn hash_text(h: u64) -> (r: String)
    ensures
        r@ == hash_text_spec(h),
{
    let b: Vec<u8> = vec![h as u8, (h >> 8) as u8, (h >> 16) as u8, (h >> 24) as u8, (h >> 32) as u8,
        (h >> 40) as u8, (h >> 48) as u8, (h >> 56) as u8];
    assert(b@ =~= le_bytes(h));
    hex_encode(b.as_slice())
}

/// Cargo's `short_hash` of what a value's `Hash` hands a hasher: SipHash with zero keys, as the
/// hexadecimal text of its little-endian bytes.
pub fn cargo_hash(stream: &[u8]) -> (r: String)
    ensures
        r@ == hash_text_spec(sip_hash(stream@)),
{
    hash_text(sip_hash_of(stream))
}

/// The `n` lowest bytes of `x` in two's complement, least significant first.
pub open spec fn le_bytes_of(x: int, n: nat) -> Seq<u8>
    decreases n,
{
    if n == 0 {
        seq![]
    } else {
        seq![(x % 256) as u8] + le_bytes_of(x / 256, (n - 1) as nat)
    }
}

/// `b` is what `isize::to_ne_bytes` gives for `i`: as many bytes as a `usize` has, in the
/// machine's byte order (little- or big-endian).
pub open spec fn isize_ne_bytes_spec(i: int, b: Seq<u8>) -> bool {
    ||| usize::BITS == 64 && (b == le_bytes_of(i, 8) || b == le_bytes_of(i, 8).reverse())
    ||| usize::BITS == 32 && (b == le_bytes_of(i, 4) || b == le_bytes_of(i, 4).reverse())
}

/// Calls `isize::to_ne_bytes`.
///
/// Claims what its documentation states: the bytes of the integer in native byte order, as
/// many as the integer type has (the width of `usize`).
#[verifier::external_body]
fn isize_ne_bytes(i: isize) -> (r: Vec<u8>)
    ensures
        isize_ne_bytes_spec(i as int, r@),
{
    i.to_ne_bytes().to_vec()
}

/// The discriminant of cargo's source kind `Registry` among `Git`, `Path`, `Registry`,
/// `LocalRegistry` and `Directory`.
pub open spec fn registry_kind() -> int {
    2
}

/// What `Hash` hands a hasher for a registry source: the kind's discriminant as an `isize`
/// (`d`, its native bytes), then the URL as a `str`.
pub open spec fn registry_source_stream(d: Seq<u8>, url: Seq<char>) -> Seq<u8> {
    d + str_hash_stream(url)
}

/// The hash cargo gives a registry's source identity.
fn registry_source_hash(url: &str) -> (r: u64)
    ensures
        exists|d: Seq<u8>| isize_ne_bytes_spec(registry_kind(), d)
            && r == sip_hash(#[trigger] registry_source_stream(d, url@)),
{
    let mut stream = isize_ne_bytes(2);
    let ghost d = stream@;
    let mut b = crate::text::bytes_of(url);
    stream.append(&mut b);
    stream.push(0xffu8);
    assert(stream@ =~= registry_source_stream(d, url@));
    sip_hash_of(stream.as_slice())
}

/// `host-hash`, the shape of cargo's name for a registry's index directory.
pub open spec fn shortname_spec(url: Seq<char>, h: u64) -> Seq<char> {
    let host = match url_host(url) {
        Some(s) => s,
        None => seq![],
    };
    host + seq!['-'] + hash_text_spec(h)
}

/// The short file-system name cargo gives a registry's index: the URL's host, a `-`, and the
/// hash of the registry's source identity (`github.com-1ecc6299db9ec823` for crates.io on
/// 64-bit little-endian machines). The identity's bytes start with the kind's discriminant in
/// the machine's native encoding, which is the only thing left open.
pub fn registry_shortname(url: &str) -> (r: String)
    requires
        url_parses(url@),
    ensures
        exists|d: Seq<u8>| isize_ne_bytes_spec(registry_kind(), d)
            && r@ == shortname_spec(url@, sip_hash(#[trigger] registry_source_stream(d, url@))),
{
    let host = host_of(url);
    let mut r = match host {
        Some(Some(h)) => h,
        _ => String::new(),
    };
    append_str(&mut r, "-");
    let h = registry_source_hash(url);
    let t = hash_text(h);
    append_str(&mut r, t.as_str());
    proof {
        reveal_strlit("-");
        assert(r@ =~= shortname_spec(url@, h));
    }
    r
}

/// The name of a registry's index directory under `registry/index` of the cargo directory;
/// `None` when the registry is not a URL.
pub fn index_dir_name(url: &str) -> (r: Option<String>)
    ensures
        r is Some == url_parses(url@),
        r matches Some(n) ==> exists|d: Seq<u8>| isize_ne_bytes_spec(registry_kind(), d)
            && n@ == shortname_spec(url@, sip_hash(#[trigger] registry_source_stream(d, url@))),
{
    if crate::urls::parses_as_url(url) {
        Some(registry_shortname(url))
    } else {
        None
    }
}

/// The name of cargo's bare clone of a git repository under `git/db`: the last segment of the
/// URL's path (`_empty` when there is none or it is empty), a `-`, and the hash of the URL;
/// `None` when the URL does not parse.
pub open spec fn git_db_name_spec(url: Seq<char>) -> Option<Seq<char>> {
    if url_parses(url) {
        let seg = match url_last_segment(url) {
            Some(s) => if s.len() == 0 { "_empty"@ } else { s },
            None => "_empty"@,
        };
        Some(seg + seq!['-'] + hash_text_spec(sip_hash(str_hash_stream(url))))
    } else {
        None
    }
}

/// See [`git_db_name_spec`].
pub fn git_db_repo_name(url: &str) -> (r: Option<String>)
    ensures
        crate::text::opt_str_view(r) == git_db_name_spec(url@),
{
    match last_segment_of(url) {
        None => None,
        Some(seg) => {
            let mut r = match seg {
                Some(s) => if s.as_str().is_empty() { copy_str("_empty") } else { s },
                None => copy_str("_empty"),
            };
            append_str(&mut r, "-");
            let mut stream: Vec<u8> = crate::text::bytes_of(url);
            stream.push(0xffu8);
            let t = cargo_hash(stream.as_slice());
            append_str(&mut r, t.as_str());
            proof {
                reveal_strlit("-");
            }
            assert(stream@ =~= str_hash_stream(url@));
            assert(r@ =~= git_db_name_spec(url@).unwrap());
            Some(r)
        },
    }
}

/// The directories of a crate in a git index are those of a file-system index, lower-cased.
pub proof fn law_split_is_lowered_path(s: Seq<char>)
    ensures
        index_components(s, true).len() == index_components(s, false).len(),
        forall|i: int| 0 <= i < index_components(s, true).len() ==>
            #[trigger] index_components(s, true)[i] == lower_seq(index_components(s, false)[i]),
{
    reveal_strlit("1");
    reveal_strlit("2");
    reveal_strlit("3");
    assert(lower_seq("1"@) =~= "1"@);
    assert(lower_seq("2"@) =~= "2"@);
    assert(lower_seq("3"@) =~= "3"@);
}

/// The last directory of a crate is its whole name, lower-cased.
pub proof fn law_split_ends_with_name(s: Seq<char>)
    ensures
        index_components(s, true).last() == lower_seq(s),
        index_components(s, true).len() == 2 || index_components(s, true).len() == 3,
{
}

} // verus!
