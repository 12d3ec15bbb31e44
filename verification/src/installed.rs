//! The packages listed in `.crates.toml`, and the selection of those to update.

use vstd::prelude::*;
use crate::text::{strings_view, copy_str};
use crate::version::{Semver, SemverView, semver_parse};
use crate::ident::{registry_ident, git_ident};
use crate::toml_value::TomlValue;
use crate::packages::{
    RegistryPackage, RegistryPackageView, GitRepoPackage, GitRepoPackageView, parsed_registry_package,
    parsed_git_package, registry_descriptor_ok, git_descriptor_ok, opt_ver, git_oid_parse,
};

verus! {

pub open spec fn v1_key() -> Seq<char> {
    seq!['v', '1']
}

/// The strings of a TOML array (other items are skipped).
pub open spec fn array_strings(a: Seq<TomlValue>) -> Seq<Seq<char>>
    decreases a.len(),
{
    if a.len() == 0 {
        Seq::empty()
    } else {
        let rest = array_strings(a.drop_last());
        match a.last() {
            TomlValue::String(s) => rest.push(s@),
            _ => rest,
        }
    }
}

/// The index of the first package named `name`.
pub open spec fn first_registry_named(res: Seq<RegistryPackageView>, name: Seq<char>) -> Option<int>
    decreases res.len(),
{
    if res.len() == 0 {
        None
    } else if res[0].name == name {
        Some(0)
    } else {
        match first_registry_named(res.drop_first(), name) {
            Some(i) => Some(i + 1),
            None => None,
        }
    }
}

pub open spec fn first_git_named(res: Seq<GitRepoPackageView>, name: Seq<char>) -> Option<int>
    decreases res.len(),
{
    if res.len() == 0 {
        None
    } else if res[0].name == name {
        Some(0)
    } else {
        match first_git_named(res.drop_first(), name) {
            Some(i) => Some(i + 1),
            None => None,
        }
    }
}

/// Adds a parsed package: a package of a name already listed only raises that entry's version,
/// when it was lower; a new name is appended.
pub open spec fn merge_registry(res: Seq<RegistryPackageView>, pkg: RegistryPackageView) -> Seq<RegistryPackageView> {
    match first_registry_named(res, pkg.name) {
        Some(i) => if res[i].version is None || res[i].version->0.lt(pkg.version->0) {
            res.update(i, RegistryPackageView { version: pkg.version, ..res[i] })
        } else {
            res
        },
        None => res.push(pkg),
    }
}

/// Adds a parsed package: a package of a name already listed takes the later commit hash.
pub open spec fn merge_git(res: Seq<GitRepoPackageView>, pkg: GitRepoPackageView) -> Seq<GitRepoPackageView> {
    match first_git_named(res, pkg.name) {
        Some(i) => res.update(i, GitRepoPackageView { id: pkg.id, ..res[i] }),
        None => res.push(pkg),
    }
}

pub open spec fn registry_fold(entries: Seq<(String, TomlValue)>) -> Seq<RegistryPackageView>
    decreases entries.len(),
{
    if entries.len() == 0 {
        Seq::empty()
    } else {
        let res = registry_fold(entries.drop_last());
        let (key, val) = entries.last();
        match val {
            TomlValue::Array(a) => match registry_ident(key@) {
                Some((n, v, r)) => merge_registry(
                    res,
                    parsed_registry_package(n, semver_parse(v)->Ok_0, r, array_strings(a@)),
                ),
                None => res,
            },
            _ => res,
        }
    }
}

pub open spec fn git_fold(entries: Seq<(String, TomlValue)>) -> Seq<GitRepoPackageView>
    decreases entries.len(),
{
    if entries.len() == 0 {
        Seq::empty()
    } else {
        let res = git_fold(entries.drop_last());
        let (key, val) = entries.last();
        match val {
            TomlValue::Array(a) => match git_ident(key@) {
                Some((n, u, h)) => merge_git(res, parsed_git_package(n, u, h, array_strings(a@))),
                None => res,
            },
            _ => res,
        }
    }
}

/// The `v1` table of `.crates.toml` is a table whose package descriptors all parse.
pub open spec fn crates_doc_ok(doc: TomlValue, registry: bool) -> bool {
    doc.get_spec(v1_key()) matches Some(v1) ==> (v1 matches TomlValue::Table(t) && forall|i: int|
        0 <= i < t.len() ==> (#[trigger] t@[i]).1 is Array ==> if registry {
            registry_descriptor_ok(t@[i].0@)
        } else {
            git_descriptor_ok(t@[i].0@)
        })
}

/// See [`crates_doc_ok`]: whether the package lists can be read from a parsed `.crates.toml`.
pub fn crates_doc_valid(doc: &TomlValue, registry: bool) -> (r: bool)
    ensures
        r == crates_doc_ok(*doc, registry),
{
    proof {
        reveal_strlit("v1");
        assert("v1"@ =~= v1_key());
    }
    let v1 = match doc.get("v1") {
        Some(v) => v,
        None => {
            return true;
        },
    };
    let t = match v1 {
        TomlValue::Table(t) => t,
        _ => {
            return false;
        },
    };
    let ghost ok_all = crates_doc_ok(*doc, registry);
    assert(ok_all == forall|k: int| 0 <= k < t.len() ==> (#[trigger] t@[k]).1 is Array ==> if registry {
        crate::packages::registry_descriptor_ok(t@[k].0@)
    } else {
        crate::packages::git_descriptor_ok(t@[k].0@)
    });
    let mut i: usize = 0;
    while i < t.len()
        invariant
            i <= t.len(),
            ok_all == crates_doc_ok(*doc, registry),
            ok_all == forall|k: int| 0 <= k < t.len() ==> (#[trigger] t@[k]).1 is Array ==> if registry {
                crate::packages::registry_descriptor_ok(t@[k].0@)
            } else {
                crate::packages::git_descriptor_ok(t@[k].0@)
            },
            forall|k: int| 0 <= k < i ==> (#[trigger] t@[k]).1 is Array ==> if registry {
                crate::packages::registry_descriptor_ok(t@[k].0@)
            } else {
                crate::packages::git_descriptor_ok(t@[k].0@)
            },
        decreases t.len() - i,
    {
        if let TomlValue::Array(_) = &t[i].1 {
            let ok = if registry {
                crate::packages::registry_descriptor_valid(t[i].0.as_str())
            } else {
                crate::packages::git_descriptor_valid(t[i].0.as_str())
            };
            if !ok {
                assert(t@[i as int].1 is Array);
                return false;
            }
        }
        i = i + 1;
    }
    true
}

pub open spec fn registry_list(doc: TomlValue) -> Seq<RegistryPackageView> {
    match doc.get_spec(v1_key()) {
        Some(TomlValue::Table(t)) => registry_fold(t@),
        _ => Seq::empty(),
    }
}

pub open spec fn git_list(doc: TomlValue) -> Seq<GitRepoPackageView> {
    match doc.get_spec(v1_key()) {
        Some(TomlValue::Table(t)) => git_fold(t@),
        _ => Seq::empty(),
    }
}

pub open spec fn registry_views(v: Seq<RegistryPackage>) -> Seq<RegistryPackageView> {
    v.map_values(|p: RegistryPackage| p@)
}

pub open spec fn git_views(v: Seq<GitRepoPackage>) -> Seq<GitRepoPackageView> {
    v.map_values(|p: GitRepoPackage| p@)
}

fn strings_of_array(a: &Vec<TomlValue>) -> (r: Vec<String>)
    ensures
        strings_view(r@) == array_strings(a@),
{
    let mut r: Vec<String> = Vec::new();
    let mut i: usize = 0;
    while i < a.len()
        invariant
            i <= a.len(),
            strings_view(r@) == array_strings(a@.subrange(0, i as int)),
        decreases a.len() - i,
    {
        assert(a@.subrange(0, i + 1).drop_last() =~= a@.subrange(0, i as int));
        match &a[i] {
            TomlValue::String(s) => {
                r.push(s.clone());
                assert(strings_view(r@) =~= strings_view(r@.drop_last()).push(s@));
            },
            _ => {},
        }
        i = i + 1;
    }
    assert(a@.subrange(0, a.len() as int) =~= a@);
    r
}

fn find_registry_named(res: &Vec<RegistryPackage>, name: &String) -> (r: Option<usize>)
    ensures
        match r {
            Some(i) => first_registry_named(registry_views(res@), name@) == Some(i as int),
            None => first_registry_named(registry_views(res@), name@) is None,
        },
{
    let ghost rv = registry_views(res@);
    let mut i: usize = 0;
    while i < res.len()
        invariant
            i <= res.len(),
            rv == registry_views(res@),
            forall|j: int| 0 <= j < i ==> rv[j].name != name@,
        decreases res.len() - i,
    {
        if res[i].name == *name {
            proof {
                lemma_first_registry_named(rv, name@, i as int);
            }
            return Some(i);
        }
        i = i + 1;
    }
    proof {
        lemma_first_registry_named_none(rv, name@);
    }
    None
}

proof fn lemma_first_registry_named(rv: Seq<RegistryPackageView>, name: Seq<char>, i: int)
    requires
        0 <= i < rv.len(),
        rv[i].name == name,
        forall|j: int| 0 <= j < i ==> rv[j].name != name,
    ensures
        first_registry_named(rv, name) == Some(i),
    decreases i,
{
    if i > 0 {
        lemma_first_registry_named(rv.drop_first(), name, i - 1);
    }
}

proof fn lemma_first_registry_named_none(rv: Seq<RegistryPackageView>, name: Seq<char>)
    requires
        forall|j: int| 0 <= j < rv.len() ==> rv[j].name != name,
    ensures
        first_registry_named(rv, name) is None,
    decreases rv.len(),
{
    if rv.len() > 0 {
        lemma_first_registry_named_none(rv.drop_first(), name);
    }
}

proof fn lemma_first_registry_named_bounds(rv: Seq<RegistryPackageView>, name: Seq<char>)
    ensures
        first_registry_named(rv, name) matches Some(i) ==> 0 <= i < rv.len() && rv[i].name == name,
    decreases rv.len(),
{
    if rv.len() > 0 {
        lemma_first_registry_named_bounds(rv.drop_first(), name);
    }
}

proof fn lemma_first_git_named_bounds(rv: Seq<GitRepoPackageView>, name: Seq<char>)
    ensures
        first_git_named(rv, name) matches Some(i) ==> 0 <= i < rv.len() && rv[i].name == name,
    decreases rv.len(),
{
    if rv.len() > 0 {
        lemma_first_git_named_bounds(rv.drop_first(), name);
    }
}

fn find_git_named(res: &Vec<GitRepoPackage>, name: &String) -> (r: Option<usize>)
    ensures
        match r {
            Some(i) => first_git_named(git_views(res@), name@) == Some(i as int),
            None => first_git_named(git_views(res@), name@) is None,
        },
{
    let ghost rv = git_views(res@);
    let mut i: usize = 0;
    while i < res.len()
        invariant
            i <= res.len(),
            rv == git_views(res@),
            forall|j: int| 0 <= j < i ==> rv[j].name != name@,
        decreases res.len() - i,
    {
        if res[i].name == *name {
            proof {
                lemma_first_git_named(rv, name@, i as int);
            }
            return Some(i);
        }
        i = i + 1;
    }
    proof {
        lemma_first_git_named_none(rv, name@);
    }
    None
}

proof fn lemma_first_git_named(rv: Seq<GitRepoPackageView>, name: Seq<char>, i: int)
    requires
        0 <= i < rv.len(),
        rv[i].name == name,
        forall|j: int| 0 <= j < i ==> rv[j].name != name,
    ensures
        first_git_named(rv, name) == Some(i),
    decreases i,
{
    if i > 0 {
        lemma_first_git_named(rv.drop_first(), name, i - 1);
    }
}

proof fn lemma_first_git_named_none(rv: Seq<GitRepoPackageView>, name: Seq<char>)
    requires
        forall|j: int| 0 <= j < rv.len() ==> rv[j].name != name,
    ensures
        first_git_named(rv, name) is None,
    decreases rv.len(),
{
    if rv.len() > 0 {
        lemma_first_git_named_none(rv.drop_first(), name);
    }
}

/// Lists the packages of a parsed `.crates.toml` that come from a registry, in the order of its
/// `v1` table. A package listed more than once appears once, at its first place, with the highest
/// of its versions (cargo may leave stale entries behind).
pub fn installed_registry_packages(crates_toml: &TomlValue) -> (r: Vec<RegistryPackage>)
    requires
        crates_doc_ok(*crates_toml, true),
    ensures
        registry_views(r@) == registry_list(*crates_toml),
        forall|i: int| 0 <= i < r.len() ==> (#[trigger] r@[i])@.wf(),
{
    let mut res: Vec<RegistryPackage> = Vec::new();
    proof {
        reveal_strlit("v1");
        assert("v1"@ =~= v1_key());
    }
    let v1 = match crates_toml.get("v1") {
        Some(v) => v,
        None => {
            return res;
        },
    };
    let t = match v1 {
        TomlValue::Table(t) => t,
        _ => {
            return res;
        },
    };
    let mut i: usize = 0;
    while i < t.len()
        invariant
            i <= t.len(),
            forall|k: int|
                0 <= k < t.len() ==> (#[trigger] t@[k]).1 is Array ==> registry_descriptor_ok(t@[k].0@),
            registry_views(res@) == registry_fold(t@.subrange(0, i as int)),
            forall|k: int| 0 <= k < res.len() ==> (#[trigger] res@[k])@.wf() && res@[k]@.version is Some,
        decreases t.len() - i,
    {
        assert(t@.subrange(0, i + 1).drop_last() =~= t@.subrange(0, i as int));
        assert(t@.subrange(0, i + 1).last() == t@[i as int]);
        let ghost before = registry_views(res@);
        match &t[i].1 {
            TomlValue::Array(a) => {
                let exes = strings_of_array(a);
                match RegistryPackage::parse(t[i].0.as_str(), exes) {
                    None => {},
                    Some(pkg) => {
                        match find_registry_named(&res, &pkg.name) {
                            Some(j) => {
                                proof {
                                    lemma_first_registry_named_bounds(before, pkg@.name);
                                }
                                let saved = &res[j];
                                let raise = match (&saved.version, &pkg.version) {
                                    (None, _) => true,
                                    (Some(sv), Some(pv)) => sv.less_than(pv),
                                    (Some(_), None) => false,
                                };
                                if raise {
                                    let mut updated = saved.duplicate();
                                    updated.version = pkg.version;
                                    res.set(j, updated);
                                    assert(registry_views(res@) =~= before.update(
                                        j as int,
                                        RegistryPackageView { version: pkg@.version, ..before[j as int] },
                                    ));
                                }
                            },
                            None => {
                                res.push(pkg);
                                assert(registry_views(res@) =~= before.push(pkg@));
                            },
                        }
                    },
                }
            },
            _ => {},
        }
        i = i + 1;
    }
    assert(t@.subrange(0, t.len() as int) =~= t@);
    res
}

/// Lists the packages of a parsed `.crates.toml` that come from a git repository, in the order of
/// its `v1` table. A package listed more than once appears once, at its first place, with the
/// last-mentioned commit.
pub fn installed_git_repo_packages(crates_toml: &TomlValue) -> (r: Vec<GitRepoPackage>)
    requires
        crates_doc_ok(*crates_toml, false),
    ensures
        git_views(r@) == git_list(*crates_toml),
{
    let mut res: Vec<GitRepoPackage> = Vec::new();
    proof {
        reveal_strlit("v1");
        assert("v1"@ =~= v1_key());
    }
    let v1 = match crates_toml.get("v1") {
        Some(v) => v,
        None => {
            return res;
        },
    };
    let t = match v1 {
        TomlValue::Table(t) => t,
        _ => {
            return res;
        },
    };
    let mut i: usize = 0;
    while i < t.len()
        invariant
            i <= t.len(),
            forall|k: int|
                0 <= k < t.len() ==> (#[trigger] t@[k]).1 is Array ==> git_descriptor_ok(t@[k].0@),
            git_views(res@) == git_fold(t@.subrange(0, i as int)),
        decreases t.len() - i,
    {
        assert(t@.subrange(0, i + 1).drop_last() =~= t@.subrange(0, i as int));
        assert(t@.subrange(0, i + 1).last() == t@[i as int]);
        let ghost before = git_views(res@);
        match &t[i].1 {
            TomlValue::Array(a) => {
                let exes = strings_of_array(a);
                match GitRepoPackage::parse(t[i].0.as_str(), exes) {
                    None => {},
                    Some(pkg) => {
                        match find_git_named(&res, &pkg.name) {
                            Some(j) => {
                                proof {
                                    lemma_first_git_named_bounds(before, pkg@.name);
                                }
                                let saved = res.remove(j);
                                let updated = GitRepoPackage {
                                    name: saved.name,
                                    url: saved.url,
                                    branch: saved.branch,
                                    id: pkg.id,
                                    newest_id: saved.newest_id,
                                    executables: saved.executables,
                                };
                                res.insert(j, updated);
                                assert(git_views(res@) =~= before.update(
                                    j as int,
                                    GitRepoPackageView { id: pkg@.id, ..before[j as int] },
                                ));
                            },
                            None => {
                                res.push(pkg);
                                assert(git_views(res@) =~= before.push(pkg@));
                            },
                        }
                    },
                }
            },
            _ => {},
        }
        i = i + 1;
    }
    assert(t@.subrange(0, t.len() as int) =~= t@);
    res
}

pub open spec fn request_views(v: Seq<(String, Option<Semver>, String)>) -> Seq<(Seq<char>, Option<SemverView>, Seq<char>)> {
    v.map_values(|q: (String, Option<Semver>, String)| (q.0@, opt_ver(q.1), q.2@))
}

/// The index of the first request for the package `name`.
pub open spec fn first_request(upd: Seq<(Seq<char>, Option<SemverView>, Seq<char>)>, name: Seq<char>) -> Option<int>
    decreases upd.len(),
{
    if upd.len() == 0 {
        None
    } else if upd[0].0 == name {
        Some(0)
    } else {
        match first_request(upd.drop_first(), name) {
            Some(i) => Some(i + 1),
            None => None,
        }
    }
}

/// The installed packages that are requested, in installed order, bounded by the version of
/// their first request.
pub open spec fn kept_packages(
    inst: Seq<RegistryPackageView>,
    upd: Seq<(Seq<char>, Option<SemverView>, Seq<char>)>,
) -> Seq<RegistryPackageView>
    decreases inst.len(),
{
    if inst.len() == 0 {
        Seq::empty()
    } else {
        let rest = kept_packages(inst.drop_last(), upd);
        let p = inst.last();
        match first_request(upd, p.name) {
            Some(k) => rest.push(RegistryPackageView { max_version: upd[k].1, ..p }),
            None => rest,
        }
    }
}

/// The package to be freshly installed for a request.
pub open spec fn fresh_package(q: (Seq<char>, Option<SemverView>, Seq<char>)) -> RegistryPackageView {
    RegistryPackageView {
        name: q.0,
        registry: q.2,
        version: None,
        newest_version: None,
        alternative_version: None,
        max_version: q.1,
        executables: Seq::empty(),
    }
}

/// When installs are allowed, the requests (in order) for packages installed neither from a
/// registry nor from git.
pub open spec fn fresh_packages(
    upd: Seq<(Seq<char>, Option<SemverView>, Seq<char>)>,
    inst: Seq<RegistryPackageView>,
    git: Seq<GitRepoPackageView>,
    allow_installs: bool,
) -> Seq<RegistryPackageView>
    decreases upd.len(),
{
    if upd.len() == 0 {
        Seq::empty()
    } else {
        let rest = fresh_packages(upd.drop_last(), inst, git, allow_installs);
        let q = upd.last();
        if allow_installs && first_registry_named(inst, q.0) is None && first_git_named(git, q.0) is None {
            rest.push(fresh_package(q))
        } else {
            rest
        }
    }
}

fn find_request(upd: &[(String, Option<Semver>, String)], name: &String) -> (r: Option<usize>)
    ensures
        match r {
            Some(i) => first_request(request_views(upd@), name@) == Some(i as int) && i < upd.len(),
            None => first_request(request_views(upd@), name@) is None,
        },
{
    let ghost uv = request_views(upd@);
    let mut i: usize = 0;
    while i < upd.len()
        invariant
            i <= upd.len(),
            uv == request_views(upd@),
            forall|j: int| 0 <= j < i ==> uv[j].0 != name@,
        decreases upd.len() - i,
    {
        if upd[i].0 == *name {
            proof {
                lemma_first_request(uv, name@, i as int);
            }
            return Some(i);
        }
        i = i + 1;
    }
    proof {
        lemma_first_request_none(uv, name@);
    }
    None
}

proof fn lemma_first_request(uv: Seq<(Seq<char>, Option<SemverView>, Seq<char>)>, name: Seq<char>, i: int)
    requires
        0 <= i < uv.len(),
        uv[i].0 == name,
        forall|j: int| 0 <= j < i ==> uv[j].0 != name,
    ensures
        first_request(uv, name) == Some(i),
    decreases i,
{
    if i > 0 {
        lemma_first_request(uv.drop_first(), name, i - 1);
    }
}

proof fn lemma_first_request_none(uv: Seq<(Seq<char>, Option<SemverView>, Seq<char>)>, name: Seq<char>)
    requires
        forall|j: int| 0 <= j < uv.len() ==> uv[j].0 != name,
    ensures
        first_request(uv, name) is None,
    decreases uv.len(),
{
    if uv.len() > 0 {
        lemma_first_request_none(uv.drop_first(), name);
    }
}

fn copy_opt_version(o: &Option<Semver>) -> (r: Option<Semver>)
    ensures
        opt_ver(r) == opt_ver(*o),
{
    match o {
        Some(v) => Some(v.duplicate()),
        None => None,
    }
}

/// Keeps the installed packages that are to be updated, bounded by the requested version, and,
/// with `allow_installs`, adds the requested packages that are not installed, from a registry or
/// from git, for fresh installation.
pub fn intersect_packages(
    installed: &[RegistryPackage],
    to_update: &[(String, Option<Semver>, String)],
    allow_installs: bool,
    installed_git: &[GitRepoPackage],
) -> (r: Vec<RegistryPackage>)
    ensures
        registry_views(r@) == kept_packages(registry_views(installed@), request_views(to_update@))
            + fresh_packages(
            request_views(to_update@),
            registry_views(installed@),
            git_views(installed_git@),
            allow_installs,
        ),
{
    let ghost iv = registry_views(installed@);
    let ghost uv = request_views(to_update@);
    let ghost gv = git_views(installed_git@);
    let mut res: Vec<RegistryPackage> = Vec::new();
    let mut i: usize = 0;
    while i < installed.len()
        invariant
            i <= installed.len(),
            iv == registry_views(installed@),
            uv == request_views(to_update@),
            registry_views(res@) == kept_packages(iv.subrange(0, i as int), uv),
        decreases installed.len() - i,
    {
        assert(iv.subrange(0, i + 1).drop_last() =~= iv.subrange(0, i as int));
        let ghost before = registry_views(res@);
        match find_request(to_update, &installed[i].name) {
            Some(k) => {
                let mut p = installed[i].duplicate();
                p.max_version = copy_opt_version(&to_update[k].1);
                res.push(p);
                assert(registry_views(res@) =~= before.push(RegistryPackageView { max_version: uv[k as int].1, ..iv[i as int] }));
            },
            None => {},
        }
        i = i + 1;
    }
    assert(iv.subrange(0, installed.len() as int) =~= iv);
    let ghost kept = registry_views(res@);
    let mut j: usize = 0;
    while j < to_update.len()
        invariant
            j <= to_update.len(),
            iv == registry_views(installed@),
            uv == request_views(to_update@),
            gv == git_views(installed_git@),
            registry_views(res@) == kept + fresh_packages(uv.subrange(0, j as int), iv, gv, allow_installs),
        decreases to_update.len() - j,
    {
        assert(uv.subrange(0, j + 1).drop_last() =~= uv.subrange(0, j as int));
        let ghost before = registry_views(res@);
        if allow_installs {
            let name = &to_update[j].0;
            let in_reg = installed_has(installed, name);
            let in_git = git_has(installed_git, name);
            if !in_reg && !in_git {
                let p = RegistryPackage {
                    name: name.clone(),
                    registry: to_update[j].2.clone(),
                    version: None,
                    newest_version: None,
                    alternative_version: None,
                    max_version: copy_opt_version(&to_update[j].1),
                    executables: Vec::new(),
                };
                assert(strings_view(p.executables@) =~= Seq::<Seq<char>>::empty());
                assert(p@ == fresh_package(uv[j as int]));
                res.push(p);
                assert(registry_views(res@) =~= before.push(fresh_package(uv[j as int])));
            }
        }
        j = j + 1;
    }
    assert(uv.subrange(0, to_update.len() as int) =~= uv);
    res
}

fn installed_has(installed: &[RegistryPackage], name: &String) -> (r: bool)
    ensures
        r == (first_registry_named(registry_views(installed@), name@) is Some),
{
    let ghost rv = registry_views(installed@);
    let mut i: usize = 0;
    while i < installed.len()
        invariant
            i <= installed.len(),
            rv == registry_views(installed@),
            forall|j: int| 0 <= j < i ==> rv[j].name != name@,
        decreases installed.len() - i,
    {
        if installed[i].name == *name {
            proof {
                lemma_first_registry_named(rv, name@, i as int);
            }
            return true;
        }
        i = i + 1;
    }
    proof {
        lemma_first_registry_named_none(rv, name@);
    }
    false
}

fn git_has(installed: &[GitRepoPackage], name: &String) -> (r: bool)
    ensures
        r == (first_git_named(git_views(installed@), name@) is Some),
{
    let ghost rv = git_views(installed@);
    let mut i: usize = 0;
    while i < installed.len()
        invariant
            i <= installed.len(),
            rv == git_views(installed@),
            forall|j: int| 0 <= j < i ==> rv[j].name != name@,
        decreases installed.len() - i,
    {
        if installed[i].name == *name {
            proof {
                lemma_first_git_named(rv, name@, i as int);
            }
            return true;
        }
        i = i + 1;
    }
    proof {
        lemma_first_git_named_none(rv, name@);
    }
    false
}

/// Merging a package into a list of packages with distinct names keeps the names distinct.
proof fn lemma_merge_registry_distinct(res: Seq<RegistryPackageView>, pkg: RegistryPackageView)
    requires
        forall|i: int, j: int| 0 <= i < j < res.len() ==> res[i].name != res[j].name,
    ensures
        forall|i: int, j: int| 0 <= i < j < merge_registry(res, pkg).len() ==> merge_registry(res, pkg)[i].name != merge_registry(res, pkg)[j].name,
{
    lemma_first_registry_named_bounds(res, pkg.name);
    match first_registry_named(res, pkg.name) {
        Some(k) => {},
        None => {
            if exists|j: int| 0 <= j < res.len() && res[j].name == pkg.name {
                let j = choose|j: int| 0 <= j < res.len() && res[j].name == pkg.name;
                let f = choose|f: int| 0 <= f <= j && res[f].name == pkg.name && forall|g: int| 0 <= g < f ==> res[g].name != pkg.name;
                lemma_first_registry_named(res, pkg.name, f);
            }
        },
    }
}

proof fn lemma_registry_fold_distinct(entries: Seq<(String, TomlValue)>)
    ensures
        forall|i: int, j: int| 0 <= i < j < registry_fold(entries).len() ==> registry_fold(entries)[i].name != registry_fold(entries)[j].name,
    decreases entries.len(),
{
    if entries.len() > 0 {
        lemma_registry_fold_distinct(entries.drop_last());
        let res = registry_fold(entries.drop_last());
        let (key, val) = entries.last();
        match val {
            TomlValue::Array(a) => match registry_ident(key@) {
                Some((n, v, r)) => {
                    lemma_merge_registry_distinct(res, parsed_registry_package(n, semver_parse(v)->Ok_0, r, array_strings(a@)));
                },
                None => {},
            },
            _ => {},
        }
    }
}

/// The packages listed from `.crates.toml` have distinct names: several entries of one package
/// are merged into one.
pub proof fn law_installed_names_distinct(doc: TomlValue)
    ensures
        forall|i: int, j: int| 0 <= i < j < registry_list(doc).len() ==> registry_list(doc)[i].name != registry_list(doc)[j].name,
{
    match doc.get_spec(v1_key()) {
        Some(TomlValue::Table(t)) => lemma_registry_fold_distinct(t@),
        _ => {},
    }
}

proof fn lemma_first_request_bounds(upd: Seq<(Seq<char>, Option<SemverView>, Seq<char>)>, name: Seq<char>)
    ensures
        first_request(upd, name) matches Some(k) ==> 0 <= k < upd.len() && upd[k].0 == name,
    decreases upd.len(),
{
    if upd.len() > 0 {
        lemma_first_request_bounds(upd.drop_first(), name);
    }
}

/// Whether some request names `name`.
pub open spec fn requested(upd: Seq<(Seq<char>, Option<SemverView>, Seq<char>)>, name: Seq<char>) -> bool {
    exists|k: int| 0 <= k < upd.len() && upd[k].0 == name
}

proof fn lemma_kept_requested(inst: Seq<RegistryPackageView>, upd: Seq<(Seq<char>, Option<SemverView>, Seq<char>)>)
    ensures
        forall|i: int| 0 <= i < kept_packages(inst, upd).len() ==> requested(upd, #[trigger] kept_packages(inst, upd)[i].name),
    decreases inst.len(),
{
    if inst.len() > 0 {
        lemma_kept_requested(inst.drop_last(), upd);
        lemma_first_request_bounds(upd, inst.last().name);
        let rest = kept_packages(inst.drop_last(), upd);
        assert forall|i: int| 0 <= i < kept_packages(inst, upd).len() implies requested(upd, #[trigger] kept_packages(inst, upd)[i].name) by {
            if i < rest.len() {
                assert(kept_packages(inst, upd)[i] == rest[i]);
            } else {
                let k = first_request(upd, inst.last().name)->0;
                assert(upd[k].0 == kept_packages(inst, upd)[i].name);
            }
        }
    }
}

proof fn lemma_fresh_requested(upd: Seq<(Seq<char>, Option<SemverView>, Seq<char>)>, inst: Seq<RegistryPackageView>,
    git: Seq<GitRepoPackageView>, allow: bool)
    ensures
        forall|i: int| 0 <= i < fresh_packages(upd, inst, git, allow).len() ==> requested(upd, #[trigger] fresh_packages(upd, inst, git, allow)[i].name),
    decreases upd.len(),
{
    if upd.len() > 0 {
        lemma_fresh_requested(upd.drop_last(), inst, git, allow);
        let rest = fresh_packages(upd.drop_last(), inst, git, allow);
        assert forall|i: int| 0 <= i < fresh_packages(upd, inst, git, allow).len() implies requested(upd, #[trigger] fresh_packages(upd, inst, git, allow)[i].name) by {
            if i < rest.len() {
                assert(fresh_packages(upd, inst, git, allow)[i] == rest[i]);
                let k = choose|k: int| 0 <= k < upd.drop_last().len() && upd.drop_last()[k].0 == rest[i].name;
                assert(upd[k].0 == rest[i].name);
            } else {
                assert(upd[upd.len() - 1].0 == fresh_packages(upd, inst, git, allow)[i].name);
            }
        }
    }
}

/// Every package that is kept or added for updating was asked for.
pub proof fn law_intersection_requested(inst: Seq<RegistryPackageView>, upd: Seq<(Seq<char>, Option<SemverView>, Seq<char>)>,
    git: Seq<GitRepoPackageView>, allow_installs: bool)
    ensures
        forall|i: int| 0 <= i < (kept_packages(inst, upd) + fresh_packages(upd, inst, git, allow_installs)).len()
            ==> requested(upd, #[trigger] (kept_packages(inst, upd) + fresh_packages(upd, inst, git, allow_installs))[i].name),
{
    lemma_kept_requested(inst, upd);
    lemma_fresh_requested(upd, inst, git, allow_installs);
    let k = kept_packages(inst, upd);
    let f = fresh_packages(upd, inst, git, allow_installs);
    assert forall|i: int| 0 <= i < (k + f).len() implies requested(upd, #[trigger] (k + f)[i].name) by {
        if i < k.len() {
            assert((k + f)[i] == k[i]);
        } else {
            assert((k + f)[i] == f[i - k.len()]);
        }
    }
}

/// Without installs allowed, only installed packages are updated.
pub proof fn law_no_fresh_without_installs(upd: Seq<(Seq<char>, Option<SemverView>, Seq<char>)>, inst: Seq<RegistryPackageView>,
    git: Seq<GitRepoPackageView>)
    ensures
        fresh_packages(upd, inst, git, false) == Seq::<RegistryPackageView>::empty(),
    decreases upd.len(),
{
    if upd.len() > 0 {
        law_no_fresh_without_installs(upd.drop_last(), inst, git);
    }
}

/// No entry is named `name` when the search for it finds none.
proof fn lemma_first_registry_named_absent(rv: Seq<RegistryPackageView>, name: Seq<char>)
    requires
        first_registry_named(rv, name) is None,
    ensures
        forall|j: int| 0 <= j < rv.len() ==> rv[j].name != name,
    decreases rv.len(),
{
    if rv.len() > 0 {
        lemma_first_registry_named_absent(rv.drop_first(), name);
        assert forall|j: int| 0 <= j < rv.len() implies rv[j].name != name by {
            if j > 0 {
                assert(rv[j] == rv.drop_first()[j - 1]);
            }
        }
    }
}

proof fn lemma_first_git_named_absent(rv: Seq<GitRepoPackageView>, name: Seq<char>)
    requires
        first_git_named(rv, name) is None,
    ensures
        forall|j: int| 0 <= j < rv.len() ==> rv[j].name != name,
    decreases rv.len(),
{
    if rv.len() > 0 {
        lemma_first_git_named_absent(rv.drop_first(), name);
        assert forall|j: int| 0 <= j < rv.len() implies rv[j].name != name by {
            if j > 0 {
                assert(rv[j] == rv.drop_first()[j - 1]);
            }
        }
    }
}

/// The kept packages are installed ones.
proof fn lemma_kept_installed(inst: Seq<RegistryPackageView>, upd: Seq<(Seq<char>, Option<SemverView>, Seq<char>)>)
    ensures
        forall|i: int| 0 <= i < kept_packages(inst, upd).len() ==> exists|k: int| 0 <= k < inst.len()
            && inst[k].name == #[trigger] kept_packages(inst, upd)[i].name,
    decreases inst.len(),
{
    if inst.len() > 0 {
        lemma_kept_installed(inst.drop_last(), upd);
        let rest = kept_packages(inst.drop_last(), upd);
        assert forall|i: int| 0 <= i < kept_packages(inst, upd).len() implies exists|k: int| 0 <= k < inst.len()
            && inst[k].name == #[trigger] kept_packages(inst, upd)[i].name by {
            if i < rest.len() {
                assert(kept_packages(inst, upd)[i] == rest[i]);
                let k = choose|k: int| 0 <= k < inst.drop_last().len() && inst.drop_last()[k].name == rest[i].name;
                assert(inst[k].name == rest[i].name);
            } else {
                assert(inst[inst.len() - 1].name == kept_packages(inst, upd)[i].name);
            }
        }
    }
}

/// The packages added for fresh installation are installed neither from a registry nor from git.
proof fn lemma_fresh_not_installed(upd: Seq<(Seq<char>, Option<SemverView>, Seq<char>)>, inst: Seq<RegistryPackageView>,
    git: Seq<GitRepoPackageView>, allow: bool)
    ensures
        forall|i: int| 0 <= i < fresh_packages(upd, inst, git, allow).len() ==> {
            &&& forall|k: int| 0 <= k < inst.len() ==> inst[k].name != (#[trigger] fresh_packages(upd, inst, git, allow)[i]).name
            &&& forall|g: int| 0 <= g < git.len() ==> git[g].name != fresh_packages(upd, inst, git, allow)[i].name
        },
    decreases upd.len(),
{
    if upd.len() > 0 {
        lemma_fresh_not_installed(upd.drop_last(), inst, git, allow);
        let rest = fresh_packages(upd.drop_last(), inst, git, allow);
        let q = upd.last();
        if allow && first_registry_named(inst, q.0) is None && first_git_named(git, q.0) is None {
            lemma_first_registry_named_absent(inst, q.0);
            lemma_first_git_named_absent(git, q.0);
        }
        assert forall|i: int| 0 <= i < fresh_packages(upd, inst, git, allow).len() implies {
            &&& forall|k: int| 0 <= k < inst.len() ==> inst[k].name != (#[trigger] fresh_packages(upd, inst, git, allow)[i]).name
            &&& forall|g: int| 0 <= g < git.len() ==> git[g].name != fresh_packages(upd, inst, git, allow)[i].name
        } by {
            if i < rest.len() {
                assert(fresh_packages(upd, inst, git, allow)[i] == rest[i]);
            }
        }
    }
}

/// A package installed from git is never added as a fresh install from a registry: every
/// package to update that shares a name with a git package is one installed from a registry.
pub proof fn law_git_installed_not_fresh(inst: Seq<RegistryPackageView>, upd: Seq<(Seq<char>, Option<SemverView>, Seq<char>)>,
    git: Seq<GitRepoPackageView>, allow_installs: bool)
    ensures
        forall|i: int, g: int| 0 <= i < (kept_packages(inst, upd) + fresh_packages(upd, inst, git, allow_installs)).len()
            && 0 <= g < git.len()
            && #[trigger] git[g].name == (#[trigger] (kept_packages(inst, upd) + fresh_packages(upd, inst, git, allow_installs))[i]).name
            ==> exists|k: int| 0 <= k < inst.len() && inst[k].name == git[g].name,
{
    lemma_kept_installed(inst, upd);
    lemma_fresh_not_installed(upd, inst, git, allow_installs);
    let k = kept_packages(inst, upd);
    let f = fresh_packages(upd, inst, git, allow_installs);
    assert forall|i: int, g: int| 0 <= i < (k + f).len() && 0 <= g < git.len() && #[trigger] git[g].name == (#[trigger] (k + f)[i]).name
        implies exists|j: int| 0 <= j < inst.len() && inst[j].name == git[g].name by {
        if i < k.len() {
            assert((k + f)[i] == k[i]);
        } else {
            assert((k + f)[i] == f[i - k.len()]);
        }
    }
}

proof fn lemma_merge_git_distinct(res: Seq<GitRepoPackageView>, pkg: GitRepoPackageView)
    requires
        forall|i: int, j: int| 0 <= i < j < res.len() ==> res[i].name != res[j].name,
    ensures
        forall|i: int, j: int| 0 <= i < j < merge_git(res, pkg).len() ==> merge_git(res, pkg)[i].name != merge_git(res, pkg)[j].name,
{
    lemma_first_git_named_bounds(res, pkg.name);
    if first_git_named(res, pkg.name) is None {
        lemma_first_git_named_absent(res, pkg.name);
    }
}

proof fn lemma_git_fold_distinct(entries: Seq<(String, TomlValue)>)
    ensures
        forall|i: int, j: int| 0 <= i < j < git_fold(entries).len() ==> git_fold(entries)[i].name != git_fold(entries)[j].name,
    decreases entries.len(),
{
    if entries.len() > 0 {
        lemma_git_fold_distinct(entries.drop_last());
        let res = git_fold(entries.drop_last());
        let (key, val) = entries.last();
        match val {
            TomlValue::Array(a) => match git_ident(key@) {
                Some((n, u, h)) => {
                    lemma_merge_git_distinct(res, parsed_git_package(n, u, h, array_strings(a@)));
                },
                None => {},
            },
            _ => {},
        }
    }
}

/// Of several entries of one git package, the one listed last gives the commit: after an entry
/// for the package `n` at the hash `h`, the package `n` is listed with the id of `h`.
pub proof fn law_git_last_commit_wins(entries: Seq<(String, TomlValue)>, key: String, a: Vec<TomlValue>)
    requires
        git_ident(key@) is Some,
    ensures
        ({
            let (n, _u, h) = git_ident(key@)->0;
            let res = git_fold(entries.push((key, TomlValue::Array(a))));
            &&& exists|i: int| 0 <= i < res.len() && res[i].name == n
            &&& forall|i: int| 0 <= i < res.len() && res[i].name == n ==> res[i].id == git_oid_parse(h)->0
        }),
{
    let e = entries.push((key, TomlValue::Array(a)));
    assert(e.drop_last() =~= entries);
    lemma_git_fold_distinct(e);
    let (n, u, h) = git_ident(key@)->0;
    let res = git_fold(entries);
    let pkg = parsed_git_package(n, u, h, array_strings(a@));
    lemma_first_git_named_bounds(res, n);
    match first_git_named(res, n) {
        Some(i) => {
            assert(git_fold(e)[i].name == n);
        },
        None => {
            lemma_first_git_named_absent(res, n);
            assert(git_fold(e)[res.len() as int] == pkg);
        },
    }
}

} // verus!
