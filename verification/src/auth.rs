//! Authentication to sparse registries: which credential providers apply to a registry, and
//! the order in which they are asked for a token.

use vstd::prelude::*;
use crate::toml_value::TomlValue;
use crate::sorted::{sorted, keys_of, map_get};
use crate::text::{strings_view, copy_str, copy_strings, copy_opt_string, opt_str_view, str_eq, chars_of, string_of};
use crate::cargo_config::{
    SparseRegistryAuthProvider, AuthProviderView, SparseRegistryConfig, CargoConfigEnvironmentNormalisedString,
    providers_view, str_map_view, aliases_view, credential_provider_spec, normalise_spec, at2,
};

verus! {

/// Everything needed to get a token for one registry: the providers (asked last first), the
/// cargo to name to them, the registry's name and URL, and its tokens from the environment
/// and from the configuration.
#[derive(Debug, Clone, PartialEq, Eq, Hash)]
pub struct SparseRegistryAuthProviderBundle(
    pub Vec<SparseRegistryAuthProvider>,
    pub String,
    pub String,
    pub String,
    pub Option<String>,
    pub Option<String>,
);

pub ghost struct BundleView {
    pub providers: Seq<AuthProviderView>,
    pub cargo: Seq<char>,
    pub name: Seq<char>,
    pub url: Seq<char>,
    pub token_env: Option<Seq<char>>,
    pub token: Option<Seq<char>>,
}

impl View for SparseRegistryAuthProviderBundle {
    type V = BundleView;

    open spec fn view(&self) -> BundleView {
        BundleView {
            providers: providers_view(self.0@),
            cargo: self.1@,
            name: self.2@,
            url: self.3@,
            token_env: opt_str_view(self.4),
            token: opt_str_view(self.5),
        }
    }
}

/// The value of `k` in a map, if any.
pub open spec fn map_get_spec(m: Map<Seq<char>, Seq<char>>, k: Seq<char>) -> Option<Seq<char>> {
    if m.contains_key(k) {
        Some(m[k])
    } else {
        None
    }
}

/// The `credential-provider` of `registries.NAME` in the configuration.
pub open spec fn registry_provider_spec(cfg: Option<TomlValue>, sr: SparseRegistryConfig, name: Seq<char>) -> Option<AuthProviderView> {
    match at2(cfg, "registries"@, name) {
        Some(t) => match t.get_spec("credential-provider"@) {
            Some(v) => credential_provider_spec(v, aliases_view(sr.credential_aliases@)),
            None => None,
        },
        None => None,
    }
}

/// The bundle for a registry. A git registry gets no providers. crates.io gets its own
/// provider, else the global ones, and crates.io's tokens. Another registry gets the provider
/// of its `registries.NAME` table, else the global ones, its token from the configuration,
/// and its token from the environment when `cargo:token` is among its providers.
pub open spec fn bundle_spec(cfg: Option<TomlValue>, install_cargo: Option<Seq<char>>, sr: SparseRegistryConfig,
    sparse: bool, repo_name: Seq<char>, repo_url: Seq<char>) -> BundleView {
    let cargo = match install_cargo {
        Some(c) => c,
        None => "cargo"@,
    };
    if !sparse {
        BundleView { providers: seq![], cargo, name: "!sparse"@, url: "!sparse"@, token_env: None, token: None }
    } else if repo_name == "crates-io"@ {
        BundleView {
            providers: match sr.crates_io_credential_provider {
                Some(p) => seq![p@],
                None => providers_view(sr.global_credential_providers@),
            },
            cargo,
            name: repo_name,
            url: repo_url,
            token_env: opt_str_view(sr.crates_io_token_env),
            token: opt_str_view(sr.crates_io_token),
        }
    } else {
        let providers = match registry_provider_spec(cfg, sr, repo_name) {
            Some(p) => seq![p],
            None => providers_view(sr.global_credential_providers@),
        };
        BundleView {
            providers,
            cargo,
            name: repo_name,
            url: repo_url,
            token_env: if providers.contains(AuthProviderView::Token) {
                map_get_spec(str_map_view(sr.registry_tokens_env@), normalise_spec(repo_name))
            } else {
                None
            },
            token: map_get_spec(str_map_view(sr.registry_tokens@), repo_name),
        }
    }
}

fn copy_provider(p: &SparseRegistryAuthProvider) -> (r: SparseRegistryAuthProvider)
    ensures
        r@ == p@,
{
    match p {
        SparseRegistryAuthProvider::TokenNoEnvironment => SparseRegistryAuthProvider::TokenNoEnvironment,
        SparseRegistryAuthProvider::Token => SparseRegistryAuthProvider::Token,
        SparseRegistryAuthProvider::Wincred => SparseRegistryAuthProvider::Wincred,
        SparseRegistryAuthProvider::MacosKeychain => SparseRegistryAuthProvider::MacosKeychain,
        SparseRegistryAuthProvider::Libsecret => SparseRegistryAuthProvider::Libsecret,
        SparseRegistryAuthProvider::TokenFromStdout(a) => SparseRegistryAuthProvider::TokenFromStdout(copy_strings(a)),
        SparseRegistryAuthProvider::Provider(a) => SparseRegistryAuthProvider::Provider(copy_strings(a)),
    }
}

fn copy_providers(v: &Vec<SparseRegistryAuthProvider>) -> (r: Vec<SparseRegistryAuthProvider>)
    ensures
        providers_view(r@) == providers_view(v@),
{
    let mut r: Vec<SparseRegistryAuthProvider> = Vec::new();
    let mut i: usize = 0;
    while i < v.len()
        invariant
            i <= v.len(),
            providers_view(r@) == providers_view(v@).subrange(0, i as int),
        decreases v.len() - i,
    {
        let ghost rb = r@;
        let c = copy_provider(&v[i]);
        r.push(c);
        assert(providers_view(r@) =~= providers_view(rb).push(c@));
        i = i + 1;
        assert(providers_view(r@) =~= providers_view(v@).subrange(0, i as int));
    }
    assert(providers_view(v@).subrange(0, v.len() as int) =~= providers_view(v@));
    r
}

fn copy_value<'a>(m: &'a Vec<(String, String)>, k: &str) -> (r: Option<String>)
    requires
        sorted(keys_of(m@)),
    ensures
        opt_str_view(r) == map_get_spec(str_map_view(m@), k@),
{
    match map_get(m, k) {
        Some(v) => Some(copy_str(v.as_str())),
        None => None,
    }
}

/// Collects everything needed to get an authentication token for a registry, given the
/// parsed cargo configuration beside `.crates.toml` (`None` when there is none).
pub fn auth_providers(cfg: &Option<TomlValue>, install_cargo: Option<&str>, sparse_registries: &SparseRegistryConfig,
    sparse: bool, repo_name: &str, repo_url: &str) -> (r: SparseRegistryAuthProviderBundle)
    requires
        sparse_registries.wf(),
    ensures
        r@ == bundle_spec(*cfg, crate::sources::opt_text(install_cargo), *sparse_registries, sparse, repo_name@, repo_url@),
{
    let cargo = match install_cargo {
        Some(c) => copy_str(c),
        None => copy_str("cargo"),
    };
    if !sparse {
        let r = SparseRegistryAuthProviderBundle(Vec::new(), cargo, copy_str("!sparse"), copy_str("!sparse"), None, None);
        assert(r@.providers =~= seq![]);
        return r;
    }
    if str_eq(repo_name, "crates-io") {
        let providers = match &sparse_registries.crates_io_credential_provider {
            Some(p) => {
                let v = vec![copy_provider(p)];
                assert(providers_view(v@) =~= seq![p@]);
                v
            },
            None => copy_providers(&sparse_registries.global_credential_providers),
        };
        return SparseRegistryAuthProviderBundle(providers, cargo, copy_str(repo_name), copy_str(repo_url),
            copy_opt_string(&sparse_registries.crates_io_token_env), copy_opt_string(&sparse_registries.crates_io_token));
    }
    let found = match cfg {
        Some(d) => match d.get("registries") {
            Some(t) => match t.get(repo_name) {
                Some(t2) => match t2.get("credential-provider") {
                    Some(v) => sparse_registries.credential_provider(v),
                    None => None,
                },
                None => None,
            },
            None => None,
        },
        None => None,
    };
    let providers = match found {
        Some(p) => {
            let ghost pv = p@;
            let v = vec![p];
            assert(providers_view(v@) =~= seq![pv]);
            v
        },
        None => copy_providers(&sparse_registries.global_credential_providers),
    };
    let mut has_token = false;
    let mut i: usize = 0;
    while i < providers.len()
        invariant
            i <= providers.len(),
            has_token == providers_view(providers@).subrange(0, i as int).contains(AuthProviderView::Token),
        decreases providers.len() - i,
    {
        let ghost before = providers_view(providers@).subrange(0, i as int);
        let ghost y = providers_view(providers@)[i as int];
        if matches!(providers[i], SparseRegistryAuthProvider::Token) {
            has_token = true;
        }
        i = i + 1;
        proof {
            let s2 = before.push(y);
            assert(providers_view(providers@).subrange(0, i as int) =~= s2);
            if before.contains(AuthProviderView::Token) {
                let k = choose|k: int| 0 <= k < before.len() && before[k] == AuthProviderView::Token;
                assert(s2[k] == AuthProviderView::Token);
            }
            if y == AuthProviderView::Token {
                assert(s2[before.len() as int] == AuthProviderView::Token);
            }
            if s2.contains(AuthProviderView::Token) {
                let k = choose|k: int| 0 <= k < s2.len() && s2[k] == AuthProviderView::Token;
                if k < before.len() {
                    assert(before[k] == AuthProviderView::Token);
                }
            }
        }
    }
    assert(providers_view(providers@).subrange(0, providers.len() as int) =~= providers_view(providers@));
    let token_env = if has_token {
        let key = CargoConfigEnvironmentNormalisedString::normalise(copy_str(repo_name));
        copy_value(&sparse_registries.registry_tokens_env, key.0.as_str())
    } else {
        None
    };
    let token = copy_value(&sparse_registries.registry_tokens, repo_name);
    SparseRegistryAuthProviderBundle(providers, cargo, copy_str(repo_name), copy_str(repo_url), token_env, token)
}

/// The token a provider gives without running anything: `cargo:token-from-stdout` runs a
/// command, the others that are not implemented give none.
pub open spec fn static_token(p: AuthProviderView, token_env: Option<Seq<char>>, token: Option<Seq<char>>) -> Option<Seq<char>> {
    match p {
        AuthProviderView::TokenNoEnvironment => token,
        AuthProviderView::Token => match token_env {
            Some(t) => Some(t),
            None => token,
        },
        _ => None,
    }
}

/// The `j`-th provider asked: the last first.
pub open spec fn asked(b: BundleView, j: int) -> AuthProviderView {
    b.providers[b.providers.len() - 1 - j]
}

/// The `j`-th provider asked neither gives a token nor runs a command.
pub open spec fn silent(b: BundleView, j: int) -> bool {
    !(asked(b, j) is TokenFromStdout) && static_token(asked(b, j), b.token_env, b.token) is None
}

/// What to do next to get a token.
#[derive(Debug)]
pub enum AuthStep {
    /// The `index`-th provider asked gives this token.
    Token { index: usize, token: String },
    /// The `index`-th provider asked runs `command` (the program, then its arguments) with these
    /// environment variables set; its standard output, when it succeeds, goes to
    /// [`token_from_stdout`]. Without a token from it, continue after `index`.
    Run { index: usize, command: Vec<String>, env: Vec<(String, String)> },
    /// No provider gives a token.
    Exhausted,
}

impl SparseRegistryAuthProviderBundle {
    /// The environment of a provider command: `CARGO` is the cargo to use,
    /// `CARGO_REGISTRY_INDEX_URL` the registry's URL and `CARGO_REGISTRY_NAME_OPT` its name.
    pub open spec fn command_env(self) -> Seq<(Seq<char>, Seq<char>)> {
        seq![("CARGO"@, self@.cargo), ("CARGO_REGISTRY_INDEX_URL"@, self@.url), ("CARGO_REGISTRY_NAME_OPT"@, self@.name)]
    }

    /// The first provider, asked last first and from the `from`-th on, that gives a token or
    /// runs a command.
    pub fn next_step(&self, from: usize) -> (r: AuthStep)
        ensures
            match r {
                AuthStep::Token { index, token } => from <= index < self.0.len()
                    && static_token(asked(self@, index as int), self@.token_env, self@.token) == Some(token@)
                    && forall|k: int| from <= k < index ==> silent(self@, k),
                AuthStep::Run { index, command, env } => from <= index < self.0.len()
                    && asked(self@, index as int) == AuthProviderView::TokenFromStdout(strings_view(command@))
                    && env@.map_values(|e: (String, String)| (e.0@, e.1@)) == self.command_env()
                    && forall|k: int| from <= k < index ==> silent(self@, k),
                AuthStep::Exhausted => forall|k: int| from <= k < self.0.len() ==> silent(self@, k),
            },
    {
        let n = self.0.len();
        let mut j = from;
        while j < n
            invariant
                n == self.0.len(),
                from <= j || j == from,
                forall|k: int| from <= k < j ==> silent(self@, k),
            decreases n - j,
        {
            let p = &self.0[n - 1 - j];
            assert(asked(self@, j as int) == p@);
            match p {
                SparseRegistryAuthProvider::TokenNoEnvironment => {
                    if let Some(t) = &self.5 {
                        return AuthStep::Token { index: j, token: copy_str(t.as_str()) };
                    }
                },
                SparseRegistryAuthProvider::Token => {
                    if let Some(t) = &self.4 {
                        return AuthStep::Token { index: j, token: copy_str(t.as_str()) };
                    }
                    if let Some(t) = &self.5 {
                        return AuthStep::Token { index: j, token: copy_str(t.as_str()) };
                    }
                },
                SparseRegistryAuthProvider::TokenFromStdout(args) => {
                    let env = vec![
                        (copy_str("CARGO"), copy_str(self.1.as_str())),
                        (copy_str("CARGO_REGISTRY_INDEX_URL"), copy_str(self.3.as_str())),
                        (copy_str("CARGO_REGISTRY_NAME_OPT"), copy_str(self.2.as_str())),
                    ];
                    assert(env@.map_values(|e: (String, String)| (e.0@, e.1@)) =~= self.command_env());
                    return AuthStep::Run { index: j, command: copy_strings(args), env };
                },
                _ => {},
            }
            j = j + 1;
        }
        AuthStep::Exhausted
    }
}

/// A text without the `\n`s at its end.
pub open spec fn trim_newlines_end(s: Seq<char>) -> Seq<char>
    decreases s.len(),
{
    if s.len() > 0 && s.last() == '\n' {
        trim_newlines_end(s.drop_last())
    } else {
        s
    }
}

/// A text without the `\n`s at its start.
pub open spec fn trim_newlines_start(s: Seq<char>) -> Seq<char>
    decreases s.len(),
{
    if s.len() > 0 && s[0] == '\n' {
        trim_newlines_start(s.drop_first())
    } else {
        s
    }
}

/// The token a provider command printed: its output as UTF-8, without the `\n`s around it;
/// `None` when the output is not UTF-8. The output must hold something besides `\n`s.
pub fn token_from_stdout(out: &[u8]) -> (r: Option<String>)
    requires
        exists|i: int| 0 <= i < out@.len() && out@[i] != 10u8,
    ensures
        match crate::env::decoded(out@) {
            Some(t) => r matches Some(x) && x@ == trim_newlines_start(trim_newlines_end(t)),
            None => r is None,
        },
{
    let text = match crate::env::utf8_decode(out) {
        Some(t) => t,
        None => {
            return None;
        },
    };
    let v = chars_of(text.as_str());
    let mut hi = v.len();
    assert(v@.subrange(0, v.len() as int) =~= v@);
    while hi > 0 && v[hi - 1] == '\n'
        invariant
            hi <= v.len(),
            trim_newlines_end(v@) == trim_newlines_end(v@.subrange(0, hi as int)),
        decreases hi,
    {
        assert(v@.subrange(0, hi as int).drop_last() =~= v@.subrange(0, hi - 1));
        hi = hi - 1;
    }
    assert(trim_newlines_end(v@.subrange(0, hi as int)) == v@.subrange(0, hi as int));
    let mut lo: usize = 0;
    while lo < hi && v[lo] == '\n'
        invariant
            lo <= hi <= v.len(),
            trim_newlines_start(v@.subrange(0, hi as int)) == trim_newlines_start(v@.subrange(lo as int, hi as int)),
        decreases hi - lo,
    {
        assert(v@.subrange(lo as int, hi as int).drop_first() =~= v@.subrange(lo + 1, hi as int));
        lo = lo + 1;
    }
    assert(trim_newlines_start(v@.subrange(lo as int, hi as int)) == v@.subrange(lo as int, hi as int));
    Some(string_of(&v, lo, hi))
}

/// A trimmed token neither starts nor ends with `\n`.
pub proof fn law_token_trimmed(t: Seq<char>)
    ensures
        trim_newlines_start(trim_newlines_end(t)).len() > 0 ==> trim_newlines_start(trim_newlines_end(t))[0] != '\n'
            && trim_newlines_start(trim_newlines_end(t)).last() != '\n',
{
    lemma_trim_end(t);
    lemma_trim_start(trim_newlines_end(t));
}

proof fn lemma_trim_end(t: Seq<char>)
    ensures
        trim_newlines_end(t).len() > 0 ==> trim_newlines_end(t).last() != '\n',
        trim_newlines_end(t).len() <= t.len(),
    decreases t.len(),
{
    if t.len() > 0 && t.last() == '\n' {
        lemma_trim_end(t.drop_last());
    }
}

proof fn lemma_trim_start(t: Seq<char>)
    ensures
        trim_newlines_start(t).len() > 0 ==> trim_newlines_start(t)[0] != '\n',
        t.len() > 0 && t.last() != '\n' ==> trim_newlines_start(t).len() > 0 ==> trim_newlines_start(t).last() == t.last(),
        t.len() > 0 && t.last() != '\n' ==> trim_newlines_start(t).len() > 0,
    decreases t.len(),
{
    if t.len() > 0 && t[0] == '\n' {
        lemma_trim_start(t.drop_first());
        if t.len() > 1 {
            assert(t.drop_first().last() == t.last());
        }
    }
}

} // verus!
