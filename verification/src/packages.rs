//! Installed packages: those from a registry, whose newest version is looked up in the
//! registry index, and those built from a git repository, whose newest commit is fetched.

use vstd::prelude::*;
use crate::text::{strings_view, copy_strings, opt_str_view, copy_opt_string, copy_str};
use crate::version::{Semver, SemverView, VersionReq, semver_parse, semver_order, semver_req_matches, result_view};
use crate::ident::{registry_ident, git_ident, parse_registry_package_ident, parse_git_package_ident};
use crate::urls::{url_parses, url_query_pairs, url_without_query, pairs_view, query_pairs_of, without_query};

verus! {

pub open spec fn opt_ver(o: Option<Semver>) -> Option<SemverView> {
    match o {
        Some(v) => Some(v@),
        None => None,
    }
}

pub open spec fn opt_ref_ver(o: Option<&Semver>) -> Option<SemverView> {
    match o {
        Some(v) => Some(v@),
        None => None,
    }
}

pub open spec fn opt_ver_wf(o: Option<SemverView>) -> bool {
    match o {
        Some(v) => v.wf(),
        None => true,
    }
}

fn copy_opt_ver(o: &Option<Semver>) -> (r: Option<Semver>)
    ensures
        opt_ver(r) == opt_ver(*o),
{
    match o {
        Some(v) => Some(v.duplicate()),
        None => None,
    }
}

/// A package installed from a registry.
#[derive(Debug, Clone, PartialEq, Eq, Hash)]
pub struct RegistryPackage {
    /// The package's name.
    pub name: String,
    /// The registry the package is available from: a URL, or a name from `~/.cargo/config`.
    pub registry: String,
    /// The package's locally installed version.
    pub version: Option<Semver>,
    /// The latest version of the package in the registry; `None` until `pull_version()`.
    pub newest_version: Option<Semver>,
    /// The newest version not chosen because it is an unwanted prerelease.
    pub alternative_version: Option<Semver>,
    /// User-bounded maximum version to update up to.
    pub max_version: Option<Semver>,
    /// Executables currently installed for this package.
    pub executables: Vec<String>,
}

pub ghost struct RegistryPackageView {
    pub name: Seq<char>,
    pub registry: Seq<char>,
    pub version: Option<SemverView>,
    pub newest_version: Option<SemverView>,
    pub alternative_version: Option<SemverView>,
    pub max_version: Option<SemverView>,
    pub executables: Seq<Seq<char>>,
}

impl View for RegistryPackage {
    type V = RegistryPackageView;

    open spec fn view(&self) -> RegistryPackageView {
        RegistryPackageView {
            name: self.name@,
            registry: self.registry@,
            version: opt_ver(self.version),
            newest_version: opt_ver(self.newest_version),
            alternative_version: opt_ver(self.alternative_version),
            max_version: opt_ver(self.max_version),
            executables: strings_view(self.executables@),
        }
    }
}

impl RegistryPackageView {
    /// Every version held is one that `semver` can order and match.
    pub open spec fn wf(self) -> bool {
        opt_ver_wf(self.version) && opt_ver_wf(self.newest_version) && opt_ver_wf(
            self.alternative_version,
        ) && opt_ver_wf(self.max_version)
    }
}

/// The package that a descriptor with the given name, version text and registry stands for.
pub open spec fn parsed_registry_package(
    name: Seq<char>,
    version: SemverView,
    registry: Seq<char>,
    executables: Seq<Seq<char>>,
) -> RegistryPackageView {
    RegistryPackageView {
        name: name,
        registry: registry,
        version: Some(version),
        newest_version: None,
        alternative_version: None,
        max_version: None,
        executables: executables,
    }
}

/// The descriptor is not a registry one, or its version parses.
pub open spec fn registry_descriptor_ok(what: Seq<char>) -> bool {
    registry_ident(what) matches Some((_n, v, _r)) ==> semver_parse(v) is Ok
}

/// Whether a prerelease `v` is to be installed: prereleases are allowed, or the installed version
/// is a prerelease of the same `major.minor.patch`.
pub open spec fn wants_prerelease(cur: Option<SemverView>, v: SemverView, install_prereleases: Option<bool>) -> bool {
    install_prereleases == Some(true) || (cur matches Some(c) && c.is_prerelease() && c.major == v.major
        && c.minor == v.minor && c.patch == v.patch)
}

/// The index of the last non-prerelease version among `vers[..end]`.
pub open spec fn last_release_before(vers: Seq<SemverView>, end: int) -> Option<int>
    decreases end,
{
    if end <= 0 || end > vers.len() {
        None
    } else if !vers[end - 1].is_prerelease() {
        Some(end - 1)
    } else {
        last_release_before(vers, end - 1)
    }
}

pub proof fn lemma_last_release_before(vers: Seq<SemverView>, end: int)
    requires
        0 <= end <= vers.len(),
    ensures
        last_release_before(vers, end) matches Some(i) ==> 0 <= i < end && !vers[i].is_prerelease() && (
        forall|j: int| i < j < end ==> vers[j].is_prerelease()),
        last_release_before(vers, end) is None ==> (forall|j: int| 0 <= j < end ==> vers[j].is_prerelease()),
    decreases end,
{
    if end > 0 && vers[end - 1].is_prerelease() {
        lemma_last_release_before(vers, end - 1);
    }
}

/// `(newest_version, alternative_version)` chosen from the registry's sorted version list: the
/// last version, unless it is an unwanted prerelease and a release precedes it, in which case the
/// last release, with the prerelease kept as the alternative.
pub open spec fn chosen_versions(
    cur: Option<SemverView>,
    vers: Seq<SemverView>,
    install_prereleases: Option<bool>,
) -> (Option<SemverView>, Option<SemverView>) {
    if vers.len() == 0 {
        (None, None)
    } else {
        let newest = vers[vers.len() - 1];
        if newest.is_prerelease() && !wants_prerelease(cur, newest, install_prereleases) {
            match last_release_before(vers, vers.len() - 1) {
                Some(i) => (Some(vers[i]), Some(newest)),
                None => (Some(newest), None),
            }
        } else {
            (Some(newest), None)
        }
    }
}

/// The version to update to: the newest one, bounded by `max_version` (the smaller of the two,
/// the newest one when they compare equal).
pub open spec fn update_target(newest: Option<SemverView>, max: Option<SemverView>) -> Option<SemverView> {
    match newest {
        None => None,
        Some(n) => match max {
            None => Some(n),
            Some(m) => if semver_order(n, m) > 0 {
                Some(m)
            } else {
                Some(n)
            },
        },
    }
}

/// Whether the package is to be (re)installed.
pub open spec fn needs_update_spec(
    p: RegistryPackageView,
    req: Option<Seq<char>>,
    install_prereleases: Option<bool>,
    downdate: bool,
) -> bool {
    let u = update_target(p.newest_version, p.max_version);
    let req_ok = match req {
        None => true,
        Some(r) => (match p.version {
            Some(cv) => !semver_req_matches(r, cv),
            None => true,
        }) || (match u {
            Some(uv) => semver_req_matches(r, uv),
            None => true,
        }),
    };
    req_ok && match u {
        None => false,
        Some(uv) => (!uv.is_prerelease() || wants_prerelease(p.version, uv, install_prereleases)) && (match p.version {
            None => true,
            Some(cv) => if downdate {
                !cv.same(uv)
            } else {
                cv.lt(uv)
            },
        }),
    }
}

pub open spec fn versions_view(v: Seq<Semver>) -> Seq<SemverView> {
    v.map_values(|x: Semver| x@)
}

fn last_release_index(versions: &Vec<Semver>, end: usize) -> (r: Option<usize>)
    requires
        end <= versions.len(),
    ensures
        match r {
            Some(k) => last_release_before(versions_view(versions@), end as int) == Some(k as int),
            None => last_release_before(versions_view(versions@), end as int) is None,
        },
{
    let ghost vv = versions_view(versions@);
    let mut i = end;
    while i > 0
        invariant
            i <= end <= versions.len(),
            vv == versions_view(versions@),
            last_release_before(vv, end as int) == last_release_before(vv, i as int),
        decreases i,
    {
        assert(versions@[i - 1]@ == vv[i - 1]);
        if !versions[i - 1].is_prerelease() {
            return Some(i - 1);
        }
        i = i - 1;
    }
    None
}

impl RegistryPackage {
    /// Decyphers a package descriptor such as
    /// `racer 1.2.10 (registry+https://github.com/rust-lang/crates.io-index)`; `None` if it is
    /// not one of a registry package. The executable list is used as-is.
    pub fn parse(what: &str, executables: Vec<String>) -> (r: Option<RegistryPackage>)
        requires
            registry_descriptor_ok(what@),
        ensures
            match registry_ident(what@) {
                None => r is None,
                Some((n, v, reg)) => r matches Some(p) && p@ == parsed_registry_package(
                    n,
                    semver_parse(v)->Ok_0,
                    reg,
                    strings_view(executables@),
                ) && p@.wf(),
            },
    {
        match parse_registry_package_ident(what) {
            None => None,
            Some((name, version, registry)) => {
                let v = Semver::parse(version.as_str());
                match v {
                    Ok(v) => Some(
                        RegistryPackage {
                            name,
                            registry,
                            version: Some(v),
                            newest_version: None,
                            alternative_version: None,
                            max_version: None,
                            executables,
                        },
                    ),
                    Err(_) => None,
                }
            },
        }
    }

    /// As `parse()`, but a version that `semver` rejects gives its error message.
    pub fn try_parse(what: &str, executables: Vec<String>) -> (r: Result<Option<RegistryPackage>, String>)
        ensures
            match registry_ident(what@) {
                None => r == Ok::<Option<RegistryPackage>, String>(None),
                Some((n, v, reg)) => match semver_parse(v) {
                    Ok(ver) => r matches Ok(Some(p)) && p@ == parsed_registry_package(
                        n,
                        ver,
                        reg,
                        strings_view(executables@),
                    ),
                    Err(e) => r matches Err(m) && m@ == e,
                },
            },
    {
        match parse_registry_package_ident(what) {
            None => Ok(None),
            Some((_name, version, _registry)) => match Semver::parse(version.as_str()) {
                Ok(_) => Ok(RegistryPackage::parse(what, executables)),
                Err(e) => Err(e),
            },
        }
    }

    pub fn duplicate(&self) -> (r: RegistryPackage)
        ensures
            r@ == self@,
    {
        RegistryPackage {
            name: self.name.clone(),
            registry: self.registry.clone(),
            version: copy_opt_ver(&self.version),
            newest_version: copy_opt_ver(&self.newest_version),
            alternative_version: copy_opt_ver(&self.alternative_version),
            max_version: copy_opt_ver(&self.max_version),
            executables: copy_strings(&self.executables),
        }
    }

    fn want_to_install_prerelease(&self, version_to_install: &Semver, install_prereleases: Option<bool>) -> (r: bool)
        ensures
            r == wants_prerelease(opt_ver(self.version), version_to_install@, install_prereleases),
    {
        if install_prereleases == Some(true) {
            return true;
        }
        match &self.version {
            Some(cur) => cur.is_prerelease() && cur.major == version_to_install.major && cur.minor
                == version_to_install.minor && cur.patch == version_to_install.patch,
            None => false,
        }
    }

    /// Sets the latest and alternative versions from the registry's version list for this
    /// crate, sorted in ascending order.
    pub fn pull_version(&mut self, versions: &Vec<Semver>, install_prereleases: Option<bool>)
        ensures
            final(self)@ == (RegistryPackageView {
                newest_version: chosen_versions(opt_ver(old(self).version), versions_view(versions@), install_prereleases).0,
                alternative_version: chosen_versions(opt_ver(old(self).version), versions_view(versions@), install_prereleases).1,
                ..old(self)@
            }),
    {
        let ghost vv = versions_view(versions@);
        let n = versions.len();
        if n == 0 {
            self.newest_version = None;
            self.alternative_version = None;
            return;
        }
        let newest = &versions[n - 1];
        assert(newest@ == vv[n - 1]);
        let unwanted = newest.is_prerelease() && !self.want_to_install_prerelease(newest, install_prereleases);
        let release = if unwanted {
            last_release_index(versions, n - 1)
        } else {
            None
        };
        proof {
            lemma_last_release_before(vv, n - 1);
        }
        match release {
            Some(k) => {
                assert(versions@[k as int]@ == vv[k as int]);
                self.newest_version = Some(versions[k].duplicate());
                self.alternative_version = Some(newest.duplicate());
            },
            None => {
                self.newest_version = Some(newest.duplicate());
                self.alternative_version = None;
            },
        }
    }

    /// The version to update to, or `None` if the crate has no newest version (was yanked).
    pub fn update_to_version(&self) -> (r: Option<&Semver>)
        requires
            self@.wf(),
        ensures
            opt_ref_ver(r) == update_target(opt_ver(self.newest_version), opt_ver(self.max_version)),
    {
        match &self.newest_version {
            None => None,
            Some(n) => match &self.max_version {
                None => Some(n),
                Some(m) => if m.less_than(n) {
                    Some(m)
                } else {
                    Some(n)
                },
            },
        }
    }

    /// Whether this package needs to be installed: the target version satisfies `req` (or the
    /// installed one does not), is not an unwanted prerelease, and is newer than (with `downdate`,
    /// different from) the installed one.
    pub fn needs_update(&self, req: Option<&VersionReq>, install_prereleases: Option<bool>, downdate: bool) -> (r: bool)
        requires
            self@.wf(),
            req matches Some(q) ==> q.wf(),
        ensures
            r == needs_update_spec(self@, match req { Some(q) => Some(q.text@), None => None }, install_prereleases, downdate),
    {
        let u = self.update_to_version();
        let req_ok = match req {
            None => true,
            Some(sr) => (match &self.version {
                Some(cv) => !sr.matches(cv),
                None => true,
            }) || (match u {
                Some(uv) => sr.matches(uv),
                None => true,
            }),
        };
        if !req_ok {
            return false;
        }
        match u {
            None => false,
            Some(uv) => (!uv.is_prerelease() || self.want_to_install_prerelease(uv, install_prereleases)) && (
            match &self.version {
                None => true,
                Some(cv) => if downdate {
                    !cv.same(uv)
                } else {
                    cv.less_than(uv)
                },
            }),
        }
    }
}

/// The value of a hexadecimal digit (either case); -1 for any other character.
pub open spec fn hex_value(c: char) -> int {
    if '0' <= c && c <= '9' {
        c as int - 48
    } else if 'a' <= c && c <= 'f' {
        c as int - 87
    } else if 'A' <= c && c <= 'F' {
        c as int - 55
    } else {
        -1
    }
}

/// The `p`-th digit of a hexadecimal text, 0 past its end.
pub open spec fn nibble(s: Seq<char>, p: int) -> int {
    if p < s.len() {
        hex_value(s[p])
    } else {
        0
    }
}

/// What `git2::Oid::from_str` gives for a text: one to forty hexadecimal digits, read as the
/// 20 bytes of a SHA-1 id, high digit first, padded with zeros.
pub open spec fn git_oid_parse(text: Seq<char>) -> Option<Seq<u8>> {
    if 1 <= text.len() <= 40 && forall|i: int| 0 <= i < text.len() ==> hex_value(#[trigger] text[i]) >= 0 {
        Some(Seq::new(20, |k: int| (nibble(text, 2 * k) * 16 + nibble(text, 2 * k + 1)) as u8))
    } else {
        None
    }
}

/// Calls `git2::Oid::from_str` and takes the id's bytes.
///
/// Claims what its documentation and libgit2's `git_oid_fromstrn` show: an error for an empty
/// text, one longer than 40 digits or one with a non-hexadecimal character; otherwise the
/// digits fill the 20 bytes from the start, two to a byte, the rest zero.
#[verifier::external_body]
fn oid_from_str_call(text: &str) -> (r: Option<Vec<u8>>)
    ensures
        match r {
            Some(b) => git_oid_parse(text@) == Some(b@),
            None => git_oid_parse(text@) is None,
        },
{
    git2::Oid::from_str(text).ok().map(|o| o.as_bytes().to_vec())
}

/// A git object id, by its raw bytes.
#[derive(Debug, Clone, PartialEq, Eq, Hash)]
pub struct Oid {
    pub bytes: Vec<u8>,
}

impl Oid {
    /// Parses a hex-formatted object id, as git does.
    pub fn from_str(text: &str) -> (r: Option<Oid>)
        ensures
            match r {
                Some(o) => git_oid_parse(text@) == Some(o.bytes@),
                None => git_oid_parse(text@) is None,
            },
    {
        match oid_from_str_call(text) {
            Some(b) => Some(Oid { bytes: b }),
            None => None,
        }
    }

    pub fn same(&self, other: &Oid) -> (r: bool)
        ensures
            r == (self.bytes@ == other.bytes@),
    {
        if self.bytes.len() != other.bytes.len() {
            return false;
        }
        let mut i: usize = 0;
        while i < self.bytes.len()
            invariant
                self.bytes.len() == other.bytes.len(),
                i <= self.bytes.len(),
                forall|j: int| 0 <= j < i ==> self.bytes@[j] == other.bytes@[j],
            decreases self.bytes.len() - i,
        {
            if self.bytes[i] != other.bytes[i] {
                return false;
            }
            i = i + 1;
        }
        assert(self.bytes@ =~= other.bytes@);
        true
    }
}

/// A package installed from a remote git repository.
#[derive(Debug, PartialEq, Eq, Hash)]
pub struct GitRepoPackage {
    /// The package's name.
    pub name: String,
    /// The remote git repo URL.
    pub url: String,
    /// The installed branch, or `None` for default.
    pub branch: Option<String>,
    /// The package's locally installed version's object hash.
    pub id: Oid,
    /// The latest commit of the repository, or the error met when looking for it.
    pub newest_id: Result<Oid, String>,
    /// Executables currently installed for this package.
    pub executables: Vec<String>,
}

pub ghost struct GitRepoPackageView {
    pub name: Seq<char>,
    pub url: Seq<char>,
    pub branch: Option<Seq<char>>,
    pub id: Seq<u8>,
    pub newest_id: Result<Seq<u8>, Seq<char>>,
    pub executables: Seq<Seq<char>>,
}

impl View for GitRepoPackage {
    type V = GitRepoPackageView;

    open spec fn view(&self) -> GitRepoPackageView {
        GitRepoPackageView {
            name: self.name@,
            url: self.url@,
            branch: opt_str_view(self.branch),
            id: self.id.bytes@,
            newest_id: match self.newest_id {
                Ok(o) => Ok(o.bytes@),
                Err(e) => Err(e@),
            },
            executables: strings_view(self.executables@),
        }
    }
}

pub open spec fn branch_key() -> Seq<char> {
    seq!['b', 'r', 'a', 'n', 'c', 'h']
}

/// The value of the first `branch` query pair.
pub open spec fn branch_of(pairs: Seq<(Seq<char>, Seq<char>)>) -> Option<Seq<char>>
    decreases pairs.len(),
{
    if pairs.len() == 0 {
        None
    } else if pairs[0].0 == branch_key() {
        Some(pairs[0].1)
    } else {
        branch_of(pairs.drop_first())
    }
}

/// The descriptor is not a git one, or its URL and commit hash parse.
pub open spec fn git_descriptor_ok(what: Seq<char>) -> bool {
    git_ident(what) matches Some((_n, u, h)) ==> url_parses(u) && git_oid_parse(h) is Some
}

/// Whether a registry package descriptor is one that [`RegistryPackage::parse`] takes: one that
/// does not split, or one whose version parses.
pub fn registry_descriptor_valid(what: &str) -> (r: bool)
    ensures
        r == registry_descriptor_ok(what@),
{
    match parse_registry_package_ident(what) {
        None => true,
        Some((_n, v, _u)) => Semver::parse(v.as_str()).is_ok(),
    }
}

/// Whether a git package descriptor is one that [`GitRepoPackage::parse`] takes: one that does
/// not split, or one whose URL and commit hash parse.
pub fn git_descriptor_valid(what: &str) -> (r: bool)
    ensures
        r == git_descriptor_ok(what@),
{
    match parse_git_package_ident(what) {
        None => true,
        Some((_n, u, h)) => crate::urls::parses_as_url(u.as_str()) && oid_from_str_call(h.as_str()).is_some(),
    }
}

pub open spec fn parsed_git_package(
    name: Seq<char>,
    url: Seq<char>,
    sha: Seq<char>,
    executables: Seq<Seq<char>>,
) -> GitRepoPackageView {
    GitRepoPackageView {
        name: name,
        url: url_without_query(url),
        branch: branch_of(url_query_pairs(url)),
        id: git_oid_parse(sha)->Some_0,
        newest_id: Err(Seq::empty()),
        executables: executables,
    }
}

fn find_branch(pairs: &Vec<(String, String)>) -> (r: Option<String>)
    ensures
        opt_str_view(r) == branch_of(pairs_view(pairs@)),
{
    let key = crate::text::chars_of("branch");
    proof {
        reveal_strlit("branch");
        assert(key@ =~= branch_key());
    }
    let ghost pv = pairs_view(pairs@);
    let mut i: usize = 0;
    assert(pv.subrange(0, pv.len() as int) =~= pv);
    while i < pairs.len()
        invariant
            i <= pairs.len(),
            pv == pairs_view(pairs@),
            key@ == branch_key(),
            branch_of(pv) == branch_of(pv.subrange(i as int, pv.len() as int)),
        decreases pairs.len() - i,
    {
        assert(pv.subrange(i as int, pv.len() as int).drop_first() =~= pv.subrange(i + 1, pv.len() as int));
        let k = crate::text::chars_of(pairs[i].0.as_str());
        if crate::text::chars_eq(&k, &key) {
            return Some(pairs[i].1.clone());
        }
        i = i + 1;
    }
    None
}

impl GitRepoPackage {
    /// Decyphers a package descriptor such as
    /// `alacritty 0.1.0 (git+https://github.com/jwilm/alacritty#eb231b3e70b87875df4bdd1974d5e94704024d70)`;
    /// `None` if it is not one of a git package. A `branch` query parameter of the URL becomes
    /// the branch and is removed from the URL. The executable list is used as-is.
    pub fn parse(what: &str, executables: Vec<String>) -> (r: Option<GitRepoPackage>)
        requires
            git_descriptor_ok(what@),
        ensures
            match git_ident(what@) {
                None => r is None,
                Some((n, u, h)) => r matches Some(p) && p@ == parsed_git_package(n, u, h, strings_view(executables@)),
            },
    {
        match parse_git_package_ident(what) {
            None => None,
            Some((name, url, sha)) => {
                let pairs = match query_pairs_of(url.as_str()) {
                    Some(p) => p,
                    None => return None,
                };
                let branch = find_branch(&pairs);
                let bare = match without_query(url.as_str()) {
                    Some(b) => b,
                    None => return None,
                };
                let id = match Oid::from_str(sha.as_str()) {
                    Some(o) => o,
                    None => return None,
                };
                Some(
                    GitRepoPackage {
                        name,
                        url: bare,
                        branch,
                        id,
                        newest_id: Err(String::new()),
                        executables,
                    },
                )
            },
        }
    }

    /// As `parse()`, but a URL that does not parse, or a commit hash that is not an object id,
    /// gives that text back as the error.
    pub fn try_parse(what: &str, executables: Vec<String>) -> (r: Result<Option<GitRepoPackage>, String>)
        ensures
            match git_ident(what@) {
                None => r == Ok::<Option<GitRepoPackage>, String>(None),
                Some((n, u, h)) => if !url_parses(u) {
                    r matches Err(m) && m@ == u
                } else if git_oid_parse(h) is None {
                    r matches Err(m) && m@ == h
                } else {
                    r matches Ok(Some(p)) && p@ == parsed_git_package(n, u, h, strings_view(executables@))
                },
            },
    {
        match parse_git_package_ident(what) {
            None => Ok(None),
            Some((_name, url, sha)) => {
                if !crate::urls::parses_as_url(url.as_str()) {
                    return Err(url);
                }
                if Oid::from_str(sha.as_str()).is_none() {
                    return Err(sha);
                }
                Ok(GitRepoPackage::parse(what, executables))
            },
        }
    }

    /// Whether the latest commit is known and differs from the installed one.
    pub fn needs_update(&self) -> (r: bool)
        ensures
            r == (self@.newest_id matches Ok(n) && n != self@.id),
    {
        match &self.newest_id {
            Ok(n) => !self.id.same(n),
            Err(_) => false,
        }
    }
}

/// A package that is not installed needs installing once a release is known (with no version
/// requirement).
pub proof fn law_not_installed_needs_update(p: RegistryPackageView, ip: Option<bool>, downdate: bool)
    requires
        p.version is None,
        p.newest_version matches Some(n) && !n.is_prerelease(),
        p.max_version is None,
    ensures
        needs_update_spec(p, None, ip, downdate),
{
}

/// With no version known in the registry, nothing needs updating.
pub proof fn law_nothing_newer_no_update(p: RegistryPackageView, req: Option<Seq<char>>, ip: Option<bool>, downdate: bool)
    requires
        p.newest_version is None,
    ensures
        !needs_update_spec(p, req, ip, downdate),
{
}

/// An installed package needs an update when the newest release is above it (with no version
/// requirement or limit).
pub proof fn law_newer_release_needs_update(p: RegistryPackageView, ip: Option<bool>)
    requires
        p.version matches Some(cv) && p.newest_version matches Some(n) && !n.is_prerelease() && cv.lt(n),
        p.max_version is None,
    ensures
        needs_update_spec(p, None, ip, false),
{
}

/// An installed package is never updated to a release that is not above it (without
/// downdating).
pub proof fn law_no_update_without_newer(p: RegistryPackageView, req: Option<Seq<char>>, ip: Option<bool>)
    requires
        p.version matches Some(cv) && match update_target(p.newest_version, p.max_version) {
            Some(u) => !cv.lt(u),
            None => true,
        },
    ensures
        !needs_update_spec(p, req, ip, false),
{
}

/// When downdating, an installed package needs an update whenever the release to install is
/// another version than the installed one (with no version requirement).
pub proof fn law_downdate_differs(p: RegistryPackageView, ip: Option<bool>)
    requires
        p.version matches Some(cv) && p.newest_version matches Some(n) && !n.is_prerelease() && !cv.same(n),
        p.max_version is None,
    ensures
        needs_update_spec(p, None, ip, true),
{
}

/// On the prerelease track: when the registry's last version is a prerelease of the same
/// `major.minor.patch` as an installed prerelease, it is the newest version, with no
/// alternative, whatever `install_prereleases` says.
pub proof fn law_prerelease_track_kept(cur: SemverView, vers: Seq<SemverView>, ip: Option<bool>)
    requires
        vers.len() > 0,
        cur.is_prerelease(),
        vers.last().is_prerelease(),
        cur.major == vers.last().major && cur.minor == vers.last().minor && cur.patch == vers.last().patch,
    ensures
        chosen_versions(Some(cur), vers, ip) == (Some(vers.last()), None::<SemverView>),
{
}

/// The registry's last version is passed over only when it is a prerelease that neither
/// `install_prereleases` allows nor the installed version (a prerelease of the same
/// `major.minor.patch`) asks for; it is then kept as the alternative, and the newest version is
/// an earlier release.
pub proof fn law_fallback_only_for_unwanted(cur: Option<SemverView>, vers: Seq<SemverView>, ip: Option<bool>)
    requires
        vers.len() > 0,
    ensures
        chosen_versions(cur, vers, ip).0 != Some(vers.last()) ==> {
            &&& vers.last().is_prerelease()
            &&& ip != Some(true)
            &&& !(cur matches Some(c) && c.is_prerelease() && c.major == vers.last().major
                && c.minor == vers.last().minor && c.patch == vers.last().patch)
            &&& chosen_versions(cur, vers, ip).1 == Some(vers.last())
            &&& chosen_versions(cur, vers, ip).0 matches Some(n) && !n.is_prerelease()
                && exists|i: int| 0 <= i < vers.len() - 1 && vers[i] == n
        },
        chosen_versions(cur, vers, ip).0 == Some(vers.last()) ==> chosen_versions(cur, vers, ip).1 is None,
{
    lemma_last_release_before(vers, vers.len() - 1);
}

/// On the prerelease track: an installed prerelease needs an update to a later prerelease of
/// the same `major.minor.patch` (with no requirement and no limit), whatever
/// `install_prereleases` says.
pub proof fn law_prerelease_track_updates(p: RegistryPackageView, ip: Option<bool>)
    requires
        p.version is Some,
        p.newest_version is Some,
        p.version->0.is_prerelease(),
        p.newest_version->0.is_prerelease(),
        p.version->0.major == p.newest_version->0.major,
        p.version->0.minor == p.newest_version->0.minor,
        p.version->0.patch == p.newest_version->0.patch,
        p.version->0.lt(p.newest_version->0),
        p.max_version is None,
    ensures
        needs_update_spec(p, None, ip, false),
{
}

/// Without downdating, with no requirement and no limit, an installed package needs an update
/// exactly when the newest version is above it and is a release, or a prerelease that
/// `install_prereleases` allows or that continues the installed prerelease's
/// `major.minor.patch`.
pub proof fn law_update_decision(p: RegistryPackageView, ip: Option<bool>)
    requires
        p.version is Some,
        p.newest_version is Some,
        p.max_version is None,
    ensures
        needs_update_spec(p, None, ip, false) == {
            let cv = p.version->0;
            let n = p.newest_version->0;
            cv.lt(n) && (!n.is_prerelease() || ip == Some(true) || (cv.is_prerelease() && cv.major == n.major
                && cv.minor == n.minor && cv.patch == n.patch))
        },
{
}

} // verus!
