//! `cargo`'s own configuration (`.cargo/config[.toml]`, `credentials[.toml]` and `CARGO_*`
//! environment variables), as far as updating packages needs it.

use vstd::prelude::*;
use crate::text::{chars_of, string_of, strings_view, upper_char, push_char, find, find_from, lemma_find_from, find_char_from, copy_strings, str_eq};
use crate::toml_value::TomlValue;
use crate::sorted::{sorted, keys_of, map_of, map_get, map_insert};
use crate::env::{env_text, env_lookup, decoded, env_var, env_var_os, utf8_decode, has_prefix_bytes, has_suffix_bytes, starts_with_bytes, ends_with_bytes, unnormalised_byte, all_normalised, sub_bytes};
use vstd::utf8::encode_utf8;
use vstd::string::StringSliceAdditionalSpecFns;

verus! {

/// <https://doc.rust-lang.org/cargo/reference/registry-authentication.html>
#[derive(Debug, Clone, PartialEq, Eq, Hash, PartialOrd, Ord)]
pub enum SparseRegistryAuthProvider {
    /// The default; does not read `CARGO_REGISTRY_TOKEN` or `CARGO_REGISTRIES_{}_TOKEN` environment variables.
    TokenNoEnvironment,
    /// `cargo:token`
    Token,
    /// `cargo:wincred` (not implemented)
    Wincred,
    /// `cargo:macos-keychain` (not implemented)
    MacosKeychain,
    /// `cargo:libsecret` (not implemented)
    Libsecret,
    /// `cargo:token-from-stdout prog arg arg`
    TokenFromStdout(Vec<String>),
    /// Not `cargo:`-prefixed (not implemented)
    Provider(Vec<String>),
}

pub ghost enum AuthProviderView {
    TokenNoEnvironment,
    Token,
    Wincred,
    MacosKeychain,
    Libsecret,
    TokenFromStdout(Seq<Seq<char>>),
    Provider(Seq<Seq<char>>),
}

impl View for SparseRegistryAuthProvider {
    type V = AuthProviderView;

    open spec fn view(&self) -> AuthProviderView {
        match self {
            SparseRegistryAuthProvider::TokenNoEnvironment => AuthProviderView::TokenNoEnvironment,
            SparseRegistryAuthProvider::Token => AuthProviderView::Token,
            SparseRegistryAuthProvider::Wincred => AuthProviderView::Wincred,
            SparseRegistryAuthProvider::MacosKeychain => AuthProviderView::MacosKeychain,
            SparseRegistryAuthProvider::Libsecret => AuthProviderView::Libsecret,
            SparseRegistryAuthProvider::TokenFromStdout(a) => AuthProviderView::TokenFromStdout(strings_view(a@)),
            SparseRegistryAuthProvider::Provider(a) => AuthProviderView::Provider(strings_view(a@)),
        }
    }
}

/// `s.split(c)`: the pieces between occurrences of `c` (at least one, possibly empty).
pub open spec fn split_on(s: Seq<char>, c: char) -> Seq<Seq<char>>
    decreases s.len(),
{
    match find(s, c) {
        None => seq![s],
        Some(i) => {
            proof {
                lemma_find_from(s, c, 0);
            }
            seq![s.subrange(0, i)] + split_on(s.subrange(i + 1, s.len() as int), c)
        },
    }
}

/// Splits `v[from..]` on `c`.
pub(crate) fn split_chars(v: &Vec<char>, from: usize, c: char) -> (r: Vec<String>)
    requires
        from <= v.len(),
    ensures
        strings_view(r@) == split_on(v@.subrange(from as int, v.len() as int), c),
    decreases v.len() - from,
{
    let ghost rest = v@.subrange(from as int, v.len() as int);
    proof {
        lemma_find_from(v@, c, from as int);
        lemma_find_from(rest, c, 0);
    }
    match find_char_from(v, c, from) {
        None => {
            assert(find(rest, c) is None) by {
                if find(rest, c) is Some {
                    let i = find(rest, c)->0;
                    assert(rest[i] == v@[from + i]);
                }
            }
            let mut r: Vec<String> = Vec::new();
            r.push(string_of(v, from, v.len()));
            assert(strings_view(r@) =~= seq![rest]);
            r
        },
        Some(i) => {
            assert(find(rest, c) == Some((i - from) as int)) by {
                assert(rest[i - from] == v@[i as int]);
                if find(rest, c) is Some {
                    let jj = find(rest, c)->0;
                    assert(rest[jj] == v@[from + jj]);
                }
            }
            let first = string_of(v, from, i);
            let tail = split_chars(v, i + 1, c);
            let mut r: Vec<String> = Vec::new();
            r.push(first);
            let mut t = tail;
            r.append(&mut t);
            assert(rest.subrange(0, i - from) =~= v@.subrange(from as int, i as int));
            assert(rest.subrange(i - from + 1, rest.len() as int) =~= v@.subrange(i + 1, v.len() as int));
            assert(strings_view(r@) =~= seq![v@.subrange(from as int, i as int)] + strings_view(tail@));
            r
        },
    }
}

/// `s.split(' ')`, owned.
pub fn split_spaces(s: &str) -> (r: Vec<String>)
    ensures
        strings_view(r@) == split_on(s@, ' '),
{
    let v = chars_of(s);
    assert(v@.subrange(0, v.len() as int) =~= v@);
    split_chars(&v, 0, ' ')
}

/// What `SparseRegistryAuthProvider::from_config` makes of a `cargo:token-from-stdout whatever`-style entry.
pub open spec fn provider_from_config(s: Seq<char>) -> AuthProviderView {
    let toks = split_on(s, ' ');
    let first = toks[0];
    if first == "cargo:token"@ {
        AuthProviderView::Token
    } else if first == "cargo:wincred"@ {
        AuthProviderView::Wincred
    } else if first == "cargo:macos-keychain"@ {
        AuthProviderView::MacosKeychain
    } else if first == "cargo:libsecret"@ {
        AuthProviderView::Libsecret
    } else if first == "cargo:token-from-stdout"@ {
        AuthProviderView::TokenFromStdout(toks.drop_first())
    } else {
        AuthProviderView::Provider(toks)
    }
}

proof fn lemma_split_nonempty(s: Seq<char>, c: char)
    ensures
        split_on(s, c).len() >= 1,
    decreases s.len(),
{
    lemma_find_from(s, c, 0);
    if let Some(i) = find(s, c) {
        lemma_split_nonempty(s.subrange(i + 1, s.len() as int), c);
    }
}

impl SparseRegistryAuthProvider {
    /// Parses a `cargo:token-from-stdout whatever`-style entry.
    pub fn from_config(s: &str) -> (r: SparseRegistryAuthProvider)
        ensures
            r@ == provider_from_config(s@),
    {
        let toks = split_spaces(s);
        proof {
            lemma_split_nonempty(s@, ' ');
        }
        assert(strings_view(toks@)[0] == toks@[0]@);
        let first = toks[0].as_str();
        if str_eq(first, "cargo:token") {
            SparseRegistryAuthProvider::Token
        } else if str_eq(first, "cargo:wincred") {
            SparseRegistryAuthProvider::Wincred
        } else if str_eq(first, "cargo:macos-keychain") {
            SparseRegistryAuthProvider::MacosKeychain
        } else if str_eq(first, "cargo:libsecret") {
            SparseRegistryAuthProvider::Libsecret
        } else if str_eq(first, "cargo:token-from-stdout") {
            let mut t = toks;
            t.remove(0);
            assert(strings_view(t@) =~= strings_view(toks@).drop_first());
            SparseRegistryAuthProvider::TokenFromStdout(t)
        } else {
            SparseRegistryAuthProvider::Provider(toks)
        }
    }
}

/// A name in the form of `cargo`'s environment variables: `tr a-z.- A-Z__`.
#[derive(Debug, Clone, PartialEq, Eq, Hash, PartialOrd, Ord)]
pub struct CargoConfigEnvironmentNormalisedString(pub String);

pub open spec fn normalise_char(c: char) -> char {
    if c == '.' || c == '-' {
        '_'
    } else {
        upper_char(c)
    }
}

pub open spec fn normalise_spec(s: Seq<char>) -> Seq<char> {
    s.map_values(|c: char| normalise_char(c))
}

impl CargoConfigEnvironmentNormalisedString {
    /// `tr a-z.- A-Z__`
    pub fn normalise(s: String) -> (r: CargoConfigEnvironmentNormalisedString)
        ensures
            r.0@ == normalise_spec(s@),
    {
        let v = chars_of(s.as_str());
        let up = crate::text::upper_string_of(&v);
        let u = chars_of(up.as_str());
        let mut out = String::new();
        let mut i: usize = 0;
        while i < u.len()
            invariant
                i <= u.len(),
                u@ == crate::text::upper_seq(s@),
                out@ == normalise_spec(s@.subrange(0, i as int)),
            decreases u.len() - i,
        {
            let c = u[i];
            if c == '.' || c == '-' {
                push_char(&mut out, '_');
            } else {
                push_char(&mut out, c);
            }
            i = i + 1;
            assert(normalise_spec(s@.subrange(0, i as int)) =~= normalise_spec(s@.subrange(0, i - 1)).push(
                normalise_char(s@[i - 1]),
            ));
        }
        assert(s@.subrange(0, s@.len() as int) =~= s@);
        CargoConfigEnvironmentNormalisedString(out)
    }
}

/// The strings of a TOML array, in order (other items are skipped).
pub open spec fn toml_strings(a: Seq<TomlValue>) -> Seq<Seq<char>>
    decreases a.len(),
{
    crate::installed::array_strings(a)
}

/// `CargoConfig::truthy`: an empty string, a zero number and `false` are false, anything else true.
pub open spec fn truthy(v: TomlValue) -> bool {
    match v {
        TomlValue::String(s) => s@.len() != 0,
        TomlValue::Float(bits) => !(bits == 0 || bits == 0x8000_0000_0000_0000u64),
        TomlValue::Integer(i) => i != 0,
        TomlValue::Boolean(b) => b,
        _ => true,
    }
}

pub fn toml_truthy(v: &TomlValue) -> (r: bool)
    ensures
        r == truthy(*v),
{
    match v {
        TomlValue::String(s) => !s.as_str().is_empty(),
        TomlValue::Float(bits) => !(*bits == 0 || *bits == 0x8000_0000_0000_0000u64),
        TomlValue::Integer(i) => *i != 0,
        TomlValue::Boolean(b) => *b,
        _ => true,
    }
}

/// The strings of a TOML array.
pub fn toml_string_array(a: &Vec<TomlValue>) -> (r: Vec<String>)
    ensures
        strings_view(r@) == toml_strings(a@),
{
    let mut r: Vec<String> = Vec::new();
    let mut i: usize = 0;
    while i < a.len()
        invariant
            i <= a.len(),
            strings_view(r@) == toml_strings(a@.subrange(0, i as int)),
        decreases a.len() - i,
    {
        assert(a@.subrange(0, i + 1).drop_last() =~= a@.subrange(0, i as int));
        match &a[i] {
            TomlValue::String(s) => {
                r.push(s.clone());
                assert(strings_view(r@) =~= strings_view(r@.drop_last()).push(s@));
            },
            _ => {},
        }
        i = i + 1;
    }
    assert(a@.subrange(0, a.len() as int) =~= a@);
    r
}

pub open spec fn aliases_view(m: Seq<(String, Vec<String>)>) -> Map<Seq<char>, Seq<Seq<char>>> {
    map_of(m).map_values(|v: Vec<String>| strings_view(v@))
}

/// What a credential-provider string stands for: the alias it names, if any, else
/// `from_config` of it.
pub open spec fn string_provider_spec(s: Seq<char>, aliases: Map<Seq<char>, Seq<Seq<char>>>) -> AuthProviderView {
    if aliases.contains_key(normalise_spec(s)) {
        AuthProviderView::Provider(aliases[normalise_spec(s)])
    } else {
        provider_from_config(s)
    }
}

/// What a `credential-provider` value stands for: a string as above, an array as a provider
/// command line of its strings.
pub open spec fn credential_provider_spec(v: TomlValue, aliases: Map<Seq<char>, Seq<Seq<char>>>) -> Option<AuthProviderView> {
    match v {
        TomlValue::String(s) => Some(string_provider_spec(s@, aliases)),
        TomlValue::Array(a) => Some(AuthProviderView::Provider(toml_strings(a@))),
        _ => None,
    }
}

pub fn string_provider(s: &str, credential_aliases: &Vec<(String, Vec<String>)>) -> (r: SparseRegistryAuthProvider)
    requires
        sorted(keys_of(credential_aliases@)),
    ensures
        r@ == string_provider_spec(s@, aliases_view(credential_aliases@)),
{
    let key = CargoConfigEnvironmentNormalisedString::normalise(crate::text::copy_str(s));
    match map_get(credential_aliases, key.0.as_str()) {
        Some(av) => SparseRegistryAuthProvider::Provider(copy_strings(av)),
        None => SparseRegistryAuthProvider::from_config(s),
    }
}

pub fn credential_provider_of(v: &TomlValue, credential_aliases: &Vec<(String, Vec<String>)>) -> (r: Option<SparseRegistryAuthProvider>)
    requires
        sorted(keys_of(credential_aliases@)),
    ensures
        match r {
            Some(p) => credential_provider_spec(*v, aliases_view(credential_aliases@)) == Some(p@),
            None => credential_provider_spec(*v, aliases_view(credential_aliases@)) is None,
        },
{
    match v {
        TomlValue::String(s) => Some(string_provider(s.as_str(), credential_aliases)),
        TomlValue::Array(a) => Some(SparseRegistryAuthProvider::Provider(toml_string_array(a))),
        _ => None,
    }
}

/// HTTP settings of `cargo`.
#[derive(Debug, Clone, PartialEq, Eq, Hash)]
pub struct HttpCargoConfig {
    /// `http.cainfo`: the certificate-authority file, by the encoded bytes of its path.
    pub cainfo: Option<Vec<u8>>,
    /// `http.check-revoke`.
    pub check_revoke: bool,
}

/// Authentication settings for sparse registries.
///
/// The maps are kept sorted by key, without repeated keys.
#[derive(Debug, Clone, PartialEq, Eq, Hash)]
pub struct SparseRegistryConfig {
    pub global_credential_providers: Vec<SparseRegistryAuthProvider>,
    pub crates_io_credential_provider: Option<SparseRegistryAuthProvider>,
    pub crates_io_token_env: Option<String>,
    pub crates_io_token: Option<String>,
    /// `CARGO_REGISTRIES_{NAME}_TOKEN`, by `NAME`.
    pub registry_tokens_env: Vec<(String, String)>,
    /// `registries.NAME.token`, by `NAME`.
    pub registry_tokens: Vec<(String, String)>,
    /// `credential-alias.NAME` and `CARGO_CREDENTIAL_ALIAS_NAME`, by normalised `NAME`.
    pub credential_aliases: Vec<(String, Vec<String>)>,
}

/// `cargo` configuration, as obtained from `.cargo/config[.toml]`.
#[derive(Debug, Clone, PartialEq, Eq, Hash)]
pub struct CargoConfig {
    pub net_git_fetch_with_cli: bool,
    /// Whether crates.io is to be reached over the sparse protocol.
    pub registries_crates_io_protocol_sparse: bool,
    pub http: HttpCargoConfig,
    pub sparse_registries: SparseRegistryConfig,
}

/// What `CargoConfig::load` reads of the process environment.
pub struct CargoEnvironment {
    /// Every variable, by the encoded bytes of its name and value, as `std::env::vars_os` lists them.
    pub vars: Vec<(Vec<u8>, Vec<u8>)>,
    /// Whether this is Windows, where revocation checks are on by default.
    pub windows: bool,
}

pub open spec fn str_map_view(m: Seq<(String, String)>) -> Map<Seq<char>, Seq<char>> {
    map_of(m).map_values(|v: String| v@)
}

pub open spec fn providers_view(v: Seq<SparseRegistryAuthProvider>) -> Seq<AuthProviderView> {
    v.map_values(|p: SparseRegistryAuthProvider| p@)
}

/// The value at `a.b` of an optional document.
pub open spec fn at2(doc: Option<TomlValue>, a: Seq<char>, b: Seq<char>) -> Option<TomlValue> {
    match doc {
        Some(d) => match d.get_spec(a) {
            Some(t) => t.get_spec(b),
            None => None,
        },
        None => None,
    }
}

/// The value at `a.b.c` of an optional document.
pub open spec fn at3(doc: Option<TomlValue>, a: Seq<char>, b: Seq<char>, c: Seq<char>) -> Option<TomlValue> {
    match at2(doc, a, b) {
        Some(t) => t.get_spec(c),
        None => None,
    }
}

pub open spec fn opt_str(v: Option<TomlValue>) -> Option<Seq<char>> {
    match v {
        Some(t) => t.str_spec(),
        None => None,
    }
}

fn get2<'a>(doc: &'a Option<TomlValue>, a: &str, b: &str) -> (r: Option<&'a TomlValue>)
    ensures
        crate::toml_value::opt_deref(r) == at2(*doc, a@, b@),
{
    match doc {
        Some(d) => match d.get(a) {
            Some(t) => t.get(b),
            None => None,
        },
        None => None,
    }
}

fn get3<'a>(doc: &'a Option<TomlValue>, a: &str, b: &str, c: &str) -> (r: Option<&'a TomlValue>)
    ensures
        crate::toml_value::opt_deref(r) == at3(*doc, a@, b@, c@),
{
    match get2(doc, a, b) {
        Some(t) => t.get(c),
        None => None,
    }
}

/// `net.git-fetch-with-cli`: the environment variable (empty is false; otherwise its TOML value,
/// if it parses), else the configuration, else false.
pub open spec fn git_fetch_with_cli_spec(cfg: Option<TomlValue>, vars: Seq<(Vec<u8>, Vec<u8>)>) -> bool {
    let from_env: Option<bool> = match env_text(vars, "CARGO_NET_GIT_FETCH_WITH_CLI"@) {
        Some(e) => if e.len() == 0 {
            Some(false)
        } else {
            match crate::toml_value::toml_value_text(e) {
                Some(v) => Some(truthy(v)),
                None => None,
            }
        },
        None => None,
    };
    match from_env {
        Some(b) => b,
        None => match at2(cfg, "net"@, "git-fetch-with-cli"@) {
            Some(v) => truthy(v),
            None => false,
        },
    }
}

/// `registries.crates-io.protocol == "sparse"`, from the environment, else the configuration
/// (a non-string counting as unset), else true.
pub open spec fn protocol_sparse_spec(cfg: Option<TomlValue>, vars: Seq<(Vec<u8>, Vec<u8>)>) -> bool {
    match env_text(vars, "CARGO_REGISTRIES_CRATES_IO_PROTOCOL"@) {
        Some(s) => s == "sparse"@,
        None => match opt_str(at3(cfg, "registries"@, "crates-io"@, "protocol"@)) {
            Some(s) => s == "sparse"@,
            None => true,
        },
    }
}

/// `http.cainfo`: the environment variable's bytes, else the configuration's string.
pub open spec fn cainfo_spec(cfg: Option<TomlValue>, vars: Seq<(Vec<u8>, Vec<u8>)>) -> Option<Seq<u8>> {
    match env_lookup(vars, encode_utf8("CARGO_HTTP_CAINFO"@)) {
        Some(b) => Some(b),
        None => match opt_str(at2(cfg, "http"@, "cainfo"@)) {
            Some(s) => Some(encode_utf8(s)),
            None => None,
        },
    }
}

/// `http.check-revoke`: a non-empty environment variable, else the configuration's truthiness,
/// else whether this is Windows.
pub open spec fn check_revoke_spec(cfg: Option<TomlValue>, vars: Seq<(Vec<u8>, Vec<u8>)>, windows: bool) -> bool {
    match env_text(vars, "CARGO_HTTP_CHECK_REVOKE"@) {
        Some(s) => s.len() != 0,
        None => match at2(cfg, "http"@, "check-revoke"@) {
            Some(v) => truthy(v),
            None => windows,
        },
    }
}

/// The aliases of the `credential-alias` table, in order: a string is split on spaces, an array
/// gives its strings; other values are skipped. Later entries win.
pub open spec fn config_aliases(entries: Seq<(String, TomlValue)>) -> Map<Seq<char>, Seq<Seq<char>>>
    decreases entries.len(),
{
    if entries.len() == 0 {
        Map::empty()
    } else {
        let m = config_aliases(entries.drop_last());
        let (k, v) = entries.last();
        match v {
            TomlValue::String(s) => m.insert(normalise_spec(k@), split_on(s@, ' ')),
            TomlValue::Array(a) => m.insert(normalise_spec(k@), toml_strings(a@)),
            _ => m,
        }
    }
}

/// An environment variable `CARGO_CREDENTIAL_ALIAS_NAME` as an alias: `NAME` (which must be
/// normalised and UTF-8) and its UTF-8 value split on spaces.
pub open spec fn env_alias(k: Seq<u8>, v: Seq<u8>) -> Option<(Seq<char>, Seq<Seq<char>>)> {
    let p = encode_utf8("CARGO_CREDENTIAL_ALIAS_"@);
    if has_prefix_bytes(p, k) && (forall|i: int| p.len() <= i < k.len() ==> !unnormalised_byte(k[i])) {
        match (decoded(k.subrange(p.len() as int, k.len() as int)), decoded(v)) {
            (Some(name), Some(val)) => Some((name, split_on(val, ' '))),
            _ => None,
        }
    } else {
        None
    }
}

/// The aliases from the environment, over those given, later ones winning.
pub open spec fn env_aliases(m: Map<Seq<char>, Seq<Seq<char>>>, vars: Seq<(Vec<u8>, Vec<u8>)>) -> Map<Seq<char>, Seq<Seq<char>>>
    decreases vars.len(),
{
    if vars.len() == 0 {
        m
    } else {
        let m2 = env_aliases(m, vars.drop_last());
        match env_alias(vars.last().0@, vars.last().1@) {
            Some((k, v)) => m2.insert(k, v),
            None => m2,
        }
    }
}

/// An environment variable `CARGO_REGISTRIES_NAME_TOKEN` as a token: `NAME` (normalised, UTF-8)
/// and its UTF-8 value.
pub open spec fn env_token(k: Seq<u8>, v: Seq<u8>) -> Option<(Seq<char>, Seq<char>)> {
    let p = encode_utf8("CARGO_REGISTRIES_"@);
    let sfx = encode_utf8("_TOKEN"@);
    if has_prefix_bytes(p, k) && has_suffix_bytes(sfx, k) && (forall|i: int|
        p.len() <= i < k.len() - sfx.len() ==> !unnormalised_byte(k[i])) {
        match (decoded(k.subrange(p.len() as int, k.len() - sfx.len())), decoded(v)) {
            (Some(name), Some(val)) => Some((name, val)),
            _ => None,
        }
    } else {
        None
    }
}

pub open spec fn env_tokens(vars: Seq<(Vec<u8>, Vec<u8>)>) -> Map<Seq<char>, Seq<char>>
    decreases vars.len(),
{
    if vars.len() == 0 {
        Map::empty()
    } else {
        let m = env_tokens(vars.drop_last());
        match env_token(vars.last().0@, vars.last().1@) {
            Some((k, v)) => m.insert(k, v),
            None => m,
        }
    }
}

/// `CARGO_REGISTRIES_..._TOKEN` names do not overlap their prefix and suffix (such a name makes
/// the slicing of its middle panic).
pub open spec fn token_vars_ok(vars: Seq<(Vec<u8>, Vec<u8>)>) -> bool {
    forall|i: int| 0 <= i < vars.len() ==> {
        let k = (#[trigger] vars[i]).0@;
        has_prefix_bytes(encode_utf8("CARGO_REGISTRIES_"@), k) && has_suffix_bytes(encode_utf8("_TOKEN"@), k)
            ==> k.len() >= encode_utf8("CARGO_REGISTRIES_"@).len() + encode_utf8("_TOKEN"@).len()
    }
}

/// `registries.NAME.token` strings of a table of registries, over the map given, later ones winning.
pub open spec fn registry_tokens_in(m: Map<Seq<char>, Seq<char>>, regs: Seq<(String, TomlValue)>) -> Map<Seq<char>, Seq<char>>
    decreases regs.len(),
{
    if regs.len() == 0 {
        m
    } else {
        let m2 = registry_tokens_in(m, regs.drop_last());
        match regs.last().1.get_spec("token"@) {
            Some(TomlValue::String(t)) => m2.insert(regs.last().0@, t@),
            _ => m2,
        }
    }
}

pub open spec fn doc_registry_tokens(m: Map<Seq<char>, Seq<char>>, doc: Option<TomlValue>) -> Map<Seq<char>, Seq<char>> {
    match doc {
        Some(d) => match d.get_spec("registries"@) {
            Some(TomlValue::Table(t)) => registry_tokens_in(m, t@),
            _ => m,
        },
        None => m,
    }
}

pub open spec fn all_aliases(cfg: Option<TomlValue>, vars: Seq<(Vec<u8>, Vec<u8>)>) -> Map<Seq<char>, Seq<Seq<char>>> {
    let from_cfg = match cfg {
        Some(d) => match d.get_spec("credential-alias"@) {
            Some(TomlValue::Table(t)) => config_aliases(t@),
            _ => Map::empty(),
        },
        None => Map::empty(),
    };
    env_aliases(from_cfg, vars)
}

pub open spec fn global_providers_spec(cfg: Option<TomlValue>, aliases: Map<Seq<char>, Seq<Seq<char>>>) -> Seq<AuthProviderView> {
    match at2(cfg, "registry"@, "global-credential-providers"@) {
        Some(TomlValue::Array(a)) => toml_strings(a@).map_values(|s: Seq<char>| string_provider_spec(s, aliases)),
        _ => seq![AuthProviderView::TokenNoEnvironment],
    }
}

pub open spec fn crates_io_provider_spec(cfg: Option<TomlValue>, vars: Seq<(Vec<u8>, Vec<u8>)>, aliases: Map<Seq<char>, Seq<Seq<char>>>) -> Option<AuthProviderView> {
    match env_text(vars, "CARGO_REGISTRY_CREDENTIAL_PROVIDER"@) {
        Some(s) => Some(string_provider_spec(s, aliases)),
        None => match at2(cfg, "registry"@, "credential-provider"@) {
            Some(v) => credential_provider_spec(v, aliases),
            None => None,
        },
    }
}

pub open spec fn crates_io_token_spec(cfg: Option<TomlValue>, creds: Option<TomlValue>) -> Option<Seq<char>> {
    match opt_str(at2(creds, "registry"@, "token"@)) {
        Some(t) => Some(t),
        None => opt_str(at2(cfg, "registry"@, "token"@)),
    }
}

proof fn lemma_map_values_insert<V, W>(m: Map<Seq<char>, V>, k: Seq<char>, v: V, f: spec_fn(V) -> W)
    ensures
        m.insert(k, v).map_values(f) == m.map_values(f).insert(k, f(v)),
{
    assert(m.insert(k, v).map_values(f) =~= m.map_values(f).insert(k, f(v)));
}

fn insert_alias(m: &mut Vec<(String, Vec<String>)>, k: String, v: Vec<String>)
    requires
        sorted(keys_of(old(m)@)),
    ensures
        sorted(keys_of(final(m)@)),
        aliases_view(final(m)@) == aliases_view(old(m)@).insert(k@, strings_view(v@)),
{
    let ghost kv = k@;
    let ghost vv = v;
    map_insert(m, k, v);
    proof {
        lemma_map_values_insert(map_of(old(m)@), kv, vv, |x: Vec<String>| strings_view(x@));
    }
}

pub(crate) fn insert_str(m: &mut Vec<(String, String)>, k: String, v: String)
    requires
        sorted(keys_of(old(m)@)),
    ensures
        sorted(keys_of(final(m)@)),
        str_map_view(final(m)@) == str_map_view(old(m)@).insert(k@, v@),
{
    let ghost kv = k@;
    let ghost vv = v;
    map_insert(m, k, v);
    proof {
        lemma_map_values_insert(map_of(old(m)@), kv, vv, |x: String| x@);
    }
}

fn git_fetch_with_cli(cfg: &Option<TomlValue>, env: &CargoEnvironment) -> (r: bool)
    ensures
        r == git_fetch_with_cli_spec(*cfg, env.vars@),
{
    let from_env: Option<bool> = match env_var(&env.vars, "CARGO_NET_GIT_FETCH_WITH_CLI") {
        Some(e) => if e.as_str().is_empty() {
            Some(false)
        } else {
            match crate::toml_value::toml_value_from_str(e.as_str()) {
                Some(v) => Some(toml_truthy(&v)),
                None => None,
            }
        },
        None => None,
    };
    match from_env {
        Some(b) => b,
        None => match get2(cfg, "net", "git-fetch-with-cli") {
            Some(v) => toml_truthy(v),
            None => false,
        },
    }
}

fn protocol_sparse(cfg: &Option<TomlValue>, vars: &Vec<(Vec<u8>, Vec<u8>)>) -> (r: bool)
    ensures
        r == protocol_sparse_spec(*cfg, vars@),
{
    match env_var(vars, "CARGO_REGISTRIES_CRATES_IO_PROTOCOL") {
        Some(s) => str_eq(s.as_str(), "sparse"),
        None => match get3(cfg, "registries", "crates-io", "protocol") {
            Some(v) => match v.as_str() {
                Some(s) => str_eq(s, "sparse"),
                None => true,
            },
            None => true,
        },
    }
}

fn cainfo(cfg: &Option<TomlValue>, vars: &Vec<(Vec<u8>, Vec<u8>)>) -> (r: Option<Vec<u8>>)
    ensures
        match r {
            Some(b) => cainfo_spec(*cfg, vars@) == Some(b@),
            None => cainfo_spec(*cfg, vars@) is None,
        },
{
    match env_var_os(vars, "CARGO_HTTP_CAINFO") {
        Some(b) => Some(b.clone()),
        None => match get2(cfg, "http", "cainfo") {
            Some(v) => match v.as_str() {
                Some(s) => Some(crate::text::bytes_of(s)),
                None => None,
            },
            None => None,
        },
    }
}

fn check_revoke(cfg: &Option<TomlValue>, env: &CargoEnvironment) -> (r: bool)
    ensures
        r == check_revoke_spec(*cfg, env.vars@, env.windows),
{
    match env_var(&env.vars, "CARGO_HTTP_CHECK_REVOKE") {
        Some(s) => !s.as_str().is_empty(),
        None => match get2(cfg, "http", "check-revoke") {
            Some(v) => toml_truthy(v),
            None => env.windows,
        },
    }
}

fn collect_aliases(cfg: &Option<TomlValue>, vars: &Vec<(Vec<u8>, Vec<u8>)>) -> (r: Vec<(String, Vec<String>)>)
    ensures
        sorted(keys_of(r@)),
        aliases_view(r@) == all_aliases(*cfg, vars@),
{
    let mut m: Vec<(String, Vec<String>)> = Vec::new();
    assert(aliases_view(m@) =~= Map::<Seq<char>, Seq<Seq<char>>>::empty());
    let table = match cfg {
        Some(d) => d.get("credential-alias"),
        None => None,
    };
    if let Some(TomlValue::Table(t)) = table {
        let mut i: usize = 0;
        while i < t.len()
            invariant
                i <= t.len(),
                sorted(keys_of(m@)),
                aliases_view(m@) == config_aliases(t@.subrange(0, i as int)),
            decreases t.len() - i,
        {
            assert(t@.subrange(0, i + 1).drop_last() =~= t@.subrange(0, i as int));
            assert(t@.subrange(0, i + 1).last() == t@[i as int]);
            match &t[i].1 {
                TomlValue::String(s) => {
                    let k = CargoConfigEnvironmentNormalisedString::normalise(t[i].0.clone());
                    insert_alias(&mut m, k.0, split_spaces(s.as_str()));
                },
                TomlValue::Array(a) => {
                    let k = CargoConfigEnvironmentNormalisedString::normalise(t[i].0.clone());
                    insert_alias(&mut m, k.0, toml_string_array(a));
                },
                _ => {},
            }
            i = i + 1;
        }
        assert(t@.subrange(0, t.len() as int) =~= t@);
    }
    let ghost base = aliases_view(m@);
    let prefix = "CARGO_CREDENTIAL_ALIAS_".as_bytes();
    let mut j: usize = 0;
    while j < vars.len()
        invariant
            j <= vars.len(),
            sorted(keys_of(m@)),
            prefix@ == encode_utf8("CARGO_CREDENTIAL_ALIAS_"@),
            aliases_view(m@) == env_aliases(base, vars@.subrange(0, j as int)),
        decreases vars.len() - j,
    {
        assert(vars@.subrange(0, j + 1).drop_last() =~= vars@.subrange(0, j as int));
        assert(vars@.subrange(0, j + 1).last() == vars@[j as int]);
        let k = &vars[j].0;
        let v = &vars[j].1;
        if starts_with_bytes(k.as_slice(), prefix) && all_normalised(k.as_slice(), prefix.len(), k.len()) {
            let rest = sub_bytes(k.as_slice(), prefix.len(), k.len());
            match (utf8_decode(rest.as_slice()), utf8_decode(v.as_slice())) {
                (Some(name), Some(val)) => {
                    insert_alias(&mut m, name, split_spaces(val.as_str()));
                },
                _ => {},
            }
        }
        j = j + 1;
    }
    assert(vars@.subrange(0, vars.len() as int) =~= vars@);
    m
}

fn collect_env_tokens(vars: &Vec<(Vec<u8>, Vec<u8>)>) -> (r: Vec<(String, String)>)
    requires
        token_vars_ok(vars@),
    ensures
        sorted(keys_of(r@)),
        str_map_view(r@) == env_tokens(vars@),
{
    let mut m: Vec<(String, String)> = Vec::new();
    assert(str_map_view(m@) =~= Map::<Seq<char>, Seq<char>>::empty());
    let prefix = "CARGO_REGISTRIES_".as_bytes();
    let suffix = "_TOKEN".as_bytes();
    let mut j: usize = 0;
    while j < vars.len()
        invariant
            j <= vars.len(),
            token_vars_ok(vars@),
            sorted(keys_of(m@)),
            prefix@ == encode_utf8("CARGO_REGISTRIES_"@),
            suffix@ == encode_utf8("_TOKEN"@),
            str_map_view(m@) == env_tokens(vars@.subrange(0, j as int)),
        decreases vars.len() - j,
    {
        assert(vars@.subrange(0, j + 1).drop_last() =~= vars@.subrange(0, j as int));
        assert(vars@.subrange(0, j + 1).last() == vars@[j as int]);
        let k = &vars[j].0;
        let v = &vars[j].1;
        if starts_with_bytes(k.as_slice(), prefix) && ends_with_bytes(k.as_slice(), suffix) {
            assert(k@.len() >= prefix@.len() + suffix@.len());
            if all_normalised(k.as_slice(), prefix.len(), k.len() - suffix.len()) {
                let mid = sub_bytes(k.as_slice(), prefix.len(), k.len() - suffix.len());
                match (utf8_decode(mid.as_slice()), utf8_decode(v.as_slice())) {
                    (Some(name), Some(val)) => {
                        insert_str(&mut m, name, val);
                    },
                    _ => {},
                }
            }
        }
        j = j + 1;
    }
    assert(vars@.subrange(0, vars.len() as int) =~= vars@);
    m
}

fn add_registry_tokens(m: &mut Vec<(String, String)>, doc: &Option<TomlValue>)
    requires
        sorted(keys_of(old(m)@)),
    ensures
        sorted(keys_of(final(m)@)),
        str_map_view(final(m)@) == doc_registry_tokens(str_map_view(old(m)@), *doc),
{
    let ghost base = str_map_view(m@);
    let regs = match doc {
        Some(d) => d.get("registries"),
        None => None,
    };
    if let Some(TomlValue::Table(t)) = regs {
        let mut i: usize = 0;
        while i < t.len()
            invariant
                i <= t.len(),
                sorted(keys_of(m@)),
                str_map_view(m@) == registry_tokens_in(base, t@.subrange(0, i as int)),
            decreases t.len() - i,
        {
            assert(t@.subrange(0, i + 1).drop_last() =~= t@.subrange(0, i as int));
            assert(t@.subrange(0, i + 1).last() == t@[i as int]);
            match t[i].1.get("token") {
                Some(TomlValue::String(tok)) => {
                    insert_str(m, t[i].0.clone(), tok.clone());
                },
                _ => {},
            }
            i = i + 1;
        }
        assert(t@.subrange(0, t.len() as int) =~= t@);
    }
}

fn global_providers(cfg: &Option<TomlValue>, aliases: &Vec<(String, Vec<String>)>) -> (r: Vec<SparseRegistryAuthProvider>)
    requires
        sorted(keys_of(aliases@)),
    ensures
        providers_view(r@) == global_providers_spec(*cfg, aliases_view(aliases@)),
{
    let mut r: Vec<SparseRegistryAuthProvider> = Vec::new();
    match get2(cfg, "registry", "global-credential-providers") {
        Some(TomlValue::Array(a)) => {
            let names = toml_string_array(a);
            let ghost nv = strings_view(names@);
            let mut i: usize = 0;
            while i < names.len()
                invariant
                    i <= names.len(),
                    sorted(keys_of(aliases@)),
                    nv == strings_view(names@),
                    providers_view(r@) == nv.subrange(0, i as int).map_values(|s: Seq<char>| string_provider_spec(s, aliases_view(aliases@))),
                decreases names.len() - i,
            {
                let ghost before = r@;
                let p = string_provider(names[i].as_str(), aliases);
                assert(nv[i as int] == names@[i as int]@);
                r.push(p);
                assert(nv.subrange(0, i + 1) =~= nv.subrange(0, i as int).push(nv[i as int]));
                assert(providers_view(r@) =~= providers_view(before).push(p@));
                i = i + 1;
                assert(providers_view(r@) =~= nv.subrange(0, i as int).map_values(|s: Seq<char>| string_provider_spec(s, aliases_view(aliases@))));
            }
            assert(nv.subrange(0, names.len() as int) =~= nv);
        },
        _ => {
            r.push(SparseRegistryAuthProvider::TokenNoEnvironment);
            assert(providers_view(r@) =~= seq![AuthProviderView::TokenNoEnvironment]);
        },
    }
    r
}

impl CargoConfig {
    /// The configuration from the parsed `config[.toml]` and `credentials[.toml]` files next to
    /// `.crates.toml` (each `None` when missing or not TOML) and the environment.
    pub fn load(cfg: &Option<TomlValue>, creds: &Option<TomlValue>, env: &CargoEnvironment) -> (r: CargoConfig)
        requires
            token_vars_ok(env.vars@),
        ensures
            r.net_git_fetch_with_cli == git_fetch_with_cli_spec(*cfg, env.vars@),
            r.registries_crates_io_protocol_sparse == protocol_sparse_spec(*cfg, env.vars@),
            match r.http.cainfo {
                Some(b) => cainfo_spec(*cfg, env.vars@) == Some(b@),
                None => cainfo_spec(*cfg, env.vars@) is None,
            },
            r.http.check_revoke == check_revoke_spec(*cfg, env.vars@, env.windows),
            r.sparse_registries.wf(),
            aliases_view(r.sparse_registries.credential_aliases@) == all_aliases(*cfg, env.vars@),
            providers_view(r.sparse_registries.global_credential_providers@) == global_providers_spec(*cfg, all_aliases(*cfg, env.vars@)),
            match r.sparse_registries.crates_io_credential_provider {
                Some(p) => crates_io_provider_spec(*cfg, env.vars@, all_aliases(*cfg, env.vars@)) == Some(p@),
                None => crates_io_provider_spec(*cfg, env.vars@, all_aliases(*cfg, env.vars@)) is None,
            },
            crate::text::opt_str_view(r.sparse_registries.crates_io_token_env) == env_text(env.vars@, "CARGO_REGISTRY_TOKEN"@),
            crate::text::opt_str_view(r.sparse_registries.crates_io_token) == crates_io_token_spec(*cfg, *creds),
            str_map_view(r.sparse_registries.registry_tokens_env@) == env_tokens(env.vars@),
            str_map_view(r.sparse_registries.registry_tokens@) == doc_registry_tokens(doc_registry_tokens(Map::empty(), *cfg), *creds),
    {
        let credential_aliases = collect_aliases(cfg, &env.vars);
        let crates_io_credential_provider = match env_var(&env.vars, "CARGO_REGISTRY_CREDENTIAL_PROVIDER") {
            Some(s) => Some(string_provider(s.as_str(), &credential_aliases)),
            None => match get2(cfg, "registry", "credential-provider") {
                Some(v) => credential_provider_of(v, &credential_aliases),
                None => None,
            },
        };
        let crates_io_token = match get2(creds, "registry", "token") {
            Some(TomlValue::String(t)) => Some(t.clone()),
            _ => match get2(cfg, "registry", "token") {
                Some(TomlValue::String(t)) => Some(t.clone()),
                _ => None,
            },
        };
        let mut registry_tokens: Vec<(String, String)> = Vec::new();
        assert(str_map_view(registry_tokens@) =~= Map::<Seq<char>, Seq<char>>::empty());
        add_registry_tokens(&mut registry_tokens, cfg);
        add_registry_tokens(&mut registry_tokens, creds);
        CargoConfig {
            net_git_fetch_with_cli: git_fetch_with_cli(cfg, env),
            registries_crates_io_protocol_sparse: protocol_sparse(cfg, &env.vars),
            http: HttpCargoConfig { cainfo: cainfo(cfg, &env.vars), check_revoke: check_revoke(cfg, env) },
            sparse_registries: SparseRegistryConfig {
                global_credential_providers: global_providers(cfg, &credential_aliases),
                crates_io_credential_provider,
                crates_io_token_env: env_var(&env.vars, "CARGO_REGISTRY_TOKEN"),
                crates_io_token,
                registry_tokens_env: collect_env_tokens(&env.vars),
                registry_tokens,
                credential_aliases,
            },
        }
    }
}

impl SparseRegistryConfig {
    /// The maps are sorted by key.
    pub open spec fn wf(&self) -> bool {
        &&& sorted(keys_of(self.registry_tokens_env@))
        &&& sorted(keys_of(self.registry_tokens@))
        &&& sorted(keys_of(self.credential_aliases@))
    }

    /// What a `credential-provider` value stands for, given the credential aliases.
    pub fn credential_provider(&self, v: &TomlValue) -> (r: Option<SparseRegistryAuthProvider>)
        requires
            self.wf(),
        ensures
            match r {
                Some(p) => credential_provider_spec(*v, aliases_view(self.credential_aliases@)) == Some(p@),
                None => credential_provider_spec(*v, aliases_view(self.credential_aliases@)) is None,
            },
    {
        credential_provider_of(v, &self.credential_aliases)
    }
}

} // verus!
