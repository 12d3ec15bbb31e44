//! What the command lines of `cargo install-update` and `cargo install-update-config` mean,
//! once parsed into plain values.

use vstd::prelude::*;
use crate::version::{Semver, SemverView, VersionReq, semver_parse, result_view};
use crate::packages::opt_ver;
use crate::config::{ConfigOperation, ConfigOperationView, ops_view};
use crate::filter::PackageFilterElement;
use crate::sorted::{sorted, keys_of, map_of, map_insert, map_get, lemma_sorted_lookup, lookup};
use crate::text::{find, is_prefix, copy_str, append_str, chars_of, string_of, str_eq, matches_at, strings_view, lemma_find_from};

verus! {

/// All that `cargo install-update` is asked to do.
#[derive(Debug)]
pub struct Options {
    /// (Additional) packages to update: name, version, registry.
    pub to_update: Vec<(String, Option<Semver>, String)>,
    /// Packages to exclude.
    pub to_exclude: Vec<String>,
    /// Whether to update all packages.
    pub all: bool,
    /// Whether to update packages or just list them.
    pub update: bool,
    /// Whether to allow for just installing packages.
    pub install: bool,
    /// Update all packages.
    pub force: bool,
    /// Downdate packages to match the newest unyanked registry version.
    pub downdate: bool,
    /// Update git packages too.
    pub update_git: bool,
    /// Don't output messages and pass `--quiet` to `cargo`.
    pub quiet: bool,
    /// Enforce packages' embedded `Cargo.lock`.
    pub locked: bool,
    /// Only install versions released after this time, in seconds since the epoch.
    pub released_after: Option<i64>,
    /// Filters a package must match.
    pub filter: Vec<PackageFilterElement>,
    /// The `cargo` home directory: as given, canonicalised.
    pub cargo_dir: (String, String),
    /// The temporary directory to clone git repositories to.
    pub temp_dir: String,
    /// Arguments to forward to `cargo install`.
    pub cargo_install_args: Vec<String>,
    /// The cargo to run for installations (`cargo` when `None`).
    pub install_cargo: Option<String>,
    /// `cargo install -j` argument.
    pub jobs: Option<usize>,
    /// Build this many crates at once on this many CPUs.
    pub recursive_jobs: Option<usize>,
    /// Limit of concurrent `cargo install`s.
    pub concurrent_cargos: Option<usize>,
}

/// All that `cargo install-update-config` is asked to do.
#[derive(Debug)]
pub struct ConfigOptions {
    /// The `cargo` home directory.
    pub cargo_dir: String,
    /// The package to configure.
    pub package: String,
    /// What to do to its configuration (display it when empty).
    pub ops: Vec<ConfigOperation>,
}

/// The first index at or after `from` where `p` occurs in `s`.
pub open spec fn find_sub_from(s: Seq<char>, p: Seq<char>, from: int) -> Option<int>
    decreases s.len() + 1 - from,
{
    if from < 0 || from > s.len() || from + p.len() > s.len() {
        None
    } else if is_prefix(p, s.subrange(from, s.len() as int)) {
        Some(from)
    } else {
        find_sub_from(s, p, from + 1)
    }
}

proof fn lemma_find_sub_from(s: Seq<char>, p: Seq<char>, from: int)
    requires
        0 <= from,
    ensures
        find_sub_from(s, p, from) matches Some(i) ==> from <= i && i + p.len() <= s.len()
            && s.subrange(i, i + p.len()) == p,
    decreases s.len() + 1 - from,
{
    if from <= s.len() && from + p.len() <= s.len() && !is_prefix(p, s.subrange(from, s.len() as int)) {
        lemma_find_sub_from(s, p, from + 1);
    }
    if from + p.len() <= s.len() && is_prefix(p, s.subrange(from, s.len() as int)) {
        assert(s.subrange(from, s.len() as int).subrange(0, p.len() as int) =~= s.subrange(from, from + p.len()));
    }
}

fn find_sub(v: &Vec<char>, p: &Vec<char>) -> (r: Option<usize>)
    ensures
        match r {
            Some(i) => find_sub_from(v@, p@, 0) == Some(i as int),
            None => find_sub_from(v@, p@, 0) is None,
        },
{
    let mut i: usize = 0;
    loop
        invariant
            i <= v.len(),
            find_sub_from(v@, p@, 0) == find_sub_from(v@, p@, i as int),
        decreases v.len() - i,
    {
        if p.len() > v.len() - i {
            return None;
        }
        if matches_at(v, i, p) {
            return Some(i);
        }
        if i == v.len() {
            assert(p.len() == 0);
            assert(v@.subrange(i as int, v.len() as int).subrange(0, 0) =~= p@);
            assert(false);
        }
        i = i + 1;
    }
}

/// A `[(registry):]name[:version]` package argument: name, version (when given) and registry
/// (when given); or the message about a version that does not parse.
pub open spec fn package_parse_spec(s: Seq<char>) -> Result<(Seq<char>, Option<SemverView>, Option<Seq<char>>), Seq<char>> {
    let (reg, rest) = if s.len() > 0 && s[0] == '(' {
        match find_sub_from(s, "):"@, 0) {
            Some(i) => (Some(s.subrange(1, i)), s.subrange(i + 2, s.len() as int)),
            None => (None, s),
        }
    } else {
        (None, s)
    };
    match find(rest, ':') {
        Some(i) => {
            let name = rest.subrange(0, i);
            let ver = rest.subrange(i + 1, rest.len() as int);
            match semver_parse(ver) {
                Ok(v) => Ok((name, Some(v), reg)),
                Err(e) => Err("Version "@ + ver + " provided for package "@ + name + " invalid: "@ + e),
            }
        },
        None => Ok((rest, None, reg)),
    }
}

pub open spec fn package_view(r: Result<(String, Option<Semver>, Option<String>), String>) -> Result<(Seq<char>, Option<SemverView>, Option<Seq<char>>), Seq<char>> {
    match r {
        Ok((n, v, g)) => Ok((n@, opt_ver(v), crate::text::opt_str_view(g))),
        Err(e) => Err(e@),
    }
}

/// Parses a `[(registry):]package[:version]` argument.
pub fn package_parse(s: &str) -> (r: Result<(String, Option<Semver>, Option<String>), String>)
    ensures
        package_view(r) == package_parse_spec(s@),
        r matches Ok((_, Some(v), _)) ==> v@.wf(),
{
    let v = chars_of(s);
    let mut registry: Option<String> = None;
    let mut lo: usize = 0;
    if v.len() > 0 && v[0] == '(' {
        let pat = chars_of("):");
        proof {
            reveal_strlit("):");
        }
        match find_sub(&v, &pat) {
            Some(i) => {
                proof {
                    lemma_find_sub_from(v@, pat@, 0);
                    assert(v@.subrange(i as int, i + 2)[0] == v@[i as int]);
                    assert(pat@[0] == ')');
                }
                registry = Some(string_of(&v, 1, i));
                lo = i + 2;
            },
            None => {},
        }
    }
    let rest = sub_vec(&v, lo);
    assert(rest@ == (if s@.len() > 0 && s@[0] == '(' {
        match find_sub_from(s@, "):"@, 0) {
            Some(i) => s@.subrange(i + 2, s@.len() as int),
            None => s@,
        }
    } else {
        s@
    }));
    proof {
        lemma_find_from(rest@, ':', 0);
    }
    match crate::text::find_char_from(&rest, ':', 0) {
        Some(i) => {
            let name = string_of(&rest, 0, i);
            let ver = string_of(&rest, i + 1, rest.len());
            match Semver::parse(ver.as_str()) {
                Ok(sv) => Ok((name, Some(sv), registry)),
                Err(e) => {
                    let mut m = copy_str("Version ");
                    append_str(&mut m, ver.as_str());
                    append_str(&mut m, " provided for package ");
                    append_str(&mut m, name.as_str());
                    append_str(&mut m, " invalid: ");
                    append_str(&mut m, e.as_str());
                    Err(m)
                },
            }
        },
        None => {
            assert(rest@.subrange(0, rest.len() as int) =~= rest@);
            Ok((string_of(&rest, 0, rest.len()), None, registry))
        },
    }
}

fn sub_vec(v: &Vec<char>, lo: usize) -> (r: Vec<char>)
    requires
        lo <= v.len(),
    ensures
        r@ == v@.subrange(lo as int, v.len() as int),
{
    let mut r: Vec<char> = Vec::new();
    let mut i = lo;
    while i < v.len()
        invariant
            lo <= i <= v.len(),
            r@ == v@.subrange(lo as int, i as int),
        decreases v.len() - i,
    {
        r.push(v[i]);
        i = i + 1;
    }
    r
}

/// crates.io's index, the registry of a package argument that names none.
pub open spec fn default_registry() -> Seq<char> {
    "https://github.com/rust-lang/crates.io-index"@
}

pub open spec fn requested_view(e: (String, Option<Semver>, Option<String>)) -> (Option<SemverView>, Seq<char>) {
    (opt_ver(e.1), match e.2 {
        Some(r) => r@,
        None => default_registry(),
    })
}

/// For each package named, its first argument (with the registry defaulted).
pub open spec fn first_requests(inp: Seq<(String, Option<Semver>, Option<String>)>) -> Map<Seq<char>, (Option<SemverView>, Seq<char>)>
    decreases inp.len(),
{
    if inp.len() == 0 {
        Map::empty()
    } else {
        let m = first_requests(inp.drop_last());
        if m.contains_key(inp.last().0@) {
            m
        } else {
            m.insert(inp.last().0@, requested_view(inp.last()))
        }
    }
}

pub open spec fn request_names(r: Seq<(String, Option<Semver>, String)>) -> Seq<Seq<char>> {
    r.map_values(|e: (String, Option<Semver>, String)| e.0@)
}

/// `r` lists, sorted by name, each package of `inp` once, with its first argument.
pub open spec fn normalised_requests(inp: Seq<(String, Option<Semver>, Option<String>)>, r: Seq<(String, Option<Semver>, String)>) -> bool {
    &&& sorted(request_names(r))
    &&& forall|k: Seq<char>| first_requests(inp).contains_key(k) <==> request_names(r).contains(k)
    &&& forall|i: int| 0 <= i < r.len() ==> first_requests(inp)[#[trigger] r[i].0@] == (opt_ver(r[i].1), r[i].2@)
}

spec fn pair_views(m: Seq<(String, (Option<Semver>, String))>) -> Map<Seq<char>, (Option<SemverView>, Seq<char>)> {
    map_of(m).map_values(|v: (Option<Semver>, String)| (opt_ver(v.0), v.1@))
}

fn copy_opt_semver(o: &Option<Semver>) -> (r: Option<Semver>)
    ensures
        opt_ver(r) == opt_ver(*o),
        r matches Some(x) ==> o.unwrap()@ == x@,
{
    match o {
        Some(v) => Some(v.duplicate()),
        None => None,
    }
}

/// The package arguments sorted by name, each package once with its first argument, and
/// crates.io's index where no registry is named.
pub fn normalise_requests(pkgs: &Vec<(String, Option<Semver>, Option<String>)>) -> (r: Vec<(String, Option<Semver>, String)>)
    ensures
        normalised_requests(pkgs@, r@),
{
    let mut m: Vec<(String, (Option<Semver>, String))> = Vec::new();
    let mut i: usize = 0;
    proof {
        assert(keys_of(m@) =~= Seq::<Seq<char>>::empty());
        assert(pair_views(m@) =~= Map::empty());
        assert(pkgs@.subrange(0, 0) =~= Seq::<(String, Option<Semver>, Option<String>)>::empty());
    }
    while i < pkgs.len()
        invariant
            i <= pkgs.len(),
            sorted(keys_of(m@)),
            pair_views(m@) == first_requests(pkgs@.subrange(0, i as int)),
        decreases pkgs.len() - i,
    {
        let ghost before = pkgs@.subrange(0, i as int);
        assert(pkgs@.subrange(0, i + 1).drop_last() =~= before);
        assert(pkgs@.subrange(0, i + 1).last() == pkgs@[i as int]);
        let e = &pkgs[i];
        let present = map_get(&m, e.0.as_str()).is_some();
        if !present {
            let reg = match &e.2 {
                Some(g) => copy_str(g.as_str()),
                None => copy_str("https://github.com/rust-lang/crates.io-index"),
            };
            let val = (copy_opt_semver(&e.1), reg);
            let ghost vv = val;
            let ghost mb = m@;
            map_insert(&mut m, copy_str(e.0.as_str()), val);
            proof {
                assert(pair_views(m@) =~= pair_views(mb).insert(e.0@, (opt_ver(vv.0), vv.1@)));
            }
        }
        i = i + 1;
    }
    assert(pkgs@.subrange(0, pkgs.len() as int) =~= pkgs@);
    let mut r: Vec<(String, Option<Semver>, String)> = Vec::new();
    let mut j: usize = 0;
    while j < m.len()
        invariant
            j <= m.len(),
            sorted(keys_of(m@)),
            r@.len() == j,
            forall|k: int| 0 <= k < j ==> r@[k].0@ == m@[k].0@ && opt_ver(r@[k].1) == opt_ver(m@[k].1.0) && r@[k].2@ == m@[k].1.1@,
        decreases m.len() - j,
    {
        let e = &m[j];
        r.push((copy_str(e.0.as_str()), copy_opt_semver(&e.1.0), copy_str(e.1.1.as_str())));
        j = j + 1;
    }
    proof {
        assert(request_names(r@) =~= keys_of(m@)) by {
            assert forall|k: int| 0 <= k < r@.len() implies request_names(r@)[k] == keys_of(m@)[k] by {
                assert(keys_of(m@)[k] == m@[k].0@);
            }
        }
        lemma_keys_dom(m@);
        assert forall|k: Seq<char>| first_requests(pkgs@).contains_key(k) <==> request_names(r@).contains(k) by {
            lemma_sorted_lookup(m@, k);
        }
        assert forall|i: int| 0 <= i < r@.len() implies first_requests(pkgs@)[#[trigger] r@[i].0@] == (opt_ver(r@[i].1), r@[i].2@) by {
            lemma_sorted_lookup(m@, r@[i].0@);
        }
    }
    r
}

/// A key has a value in the map of some entries exactly when an entry holds it.
proof fn lemma_keys_dom<V>(m: Seq<(String, V)>)
    requires
        sorted(keys_of(m)),
    ensures
        forall|k: Seq<char>| map_of(m).contains_key(k) <==> keys_of(m).contains(k),
{
    assert forall|k: Seq<char>| map_of(m).contains_key(k) <==> keys_of(m).contains(k) by {
        lemma_sorted_lookup(m, k);
        if keys_of(m).contains(k) {
            let i = choose|i: int| 0 <= i < keys_of(m).len() && keys_of(m)[i] == k;
            assert(m[i].0@ == k);
        }
        if lookup(m, k) is Some && !keys_of(m).contains(k) {
            assert forall|i: int| 0 <= i < m.len() implies m[i].0@ != k by {
                assert(keys_of(m)[i] == m[i].0@);
            }
        }
    }
}

/// The packages to update: none needed with `--all` or `--list`, else at least one.
pub fn packages_to_update(all: bool, update: bool, pkgs: Option<&Vec<(String, Option<Semver>, Option<String>)>>)
    -> (r: Result<Vec<(String, Option<Semver>, String)>, String>)
    ensures
        match pkgs {
            Some(p) => r matches Ok(v) && normalised_requests(p@, v@),
            None => if all || !update {
                r matches Ok(v) && v@.len() == 0
            } else {
                r matches Err(e) && e@ == "Need at least one PACKAGE without --all"@
            },
        },
{
    match pkgs {
        Some(p) => Ok(normalise_requests(p)),
        None => if all || !update {
            Ok(Vec::new())
        } else {
            Err(copy_str("Need at least one PACKAGE without --all"))
        },
    }
}

/// The number that decimal digits write.
pub open spec fn digits_value(s: Seq<char>) -> int
    decreases s.len(),
{
    if s.len() == 0 {
        0
    } else {
        digits_value(s.drop_last()) * 10 + (s.last() as int - 48)
    }
}

/// The number a text writes as `usize`'s parser reads it: an optional `+`, then one or more
/// decimal digits; `None` when it is not so written, is zero, or does not fit in a `usize`.
pub open spec fn nonzero_value(text: Seq<char>) -> Option<int> {
    let d = if text.len() > 0 && text[0] == '+' { text.subrange(1, text.len() as int) } else { text };
    if d.len() > 0 && (forall|i: int| 0 <= i < d.len() ==> '0' <= #[trigger] d[i] && d[i] <= '9')
        && 0 < digits_value(d) <= usize::MAX {
        Some(digits_value(d))
    } else {
        None
    }
}

/// The message of the `ParseIntError` that `NonZero::<usize>::from_str` gives for a text.
pub uninterp spec fn nonzero_parse_error(text: Seq<char>) -> Seq<char>;

/// What `NonZero::<usize>::from_str` gives for a text: the number, or the error's message.
pub open spec fn nonzero_parse(text: Seq<char>) -> Result<usize, Seq<char>> {
    match nonzero_value(text) {
        Some(n) => Ok(n as usize),
        None => Err(nonzero_parse_error(text)),
    }
}

/// Calls `<NonZero<usize> as FromStr>::from_str`.
///
/// Claims what its documentation states: the text is an optional `+` and decimal digits only,
/// for a number that is not zero and fits; the error's message is named, not stated.
#[verifier::external_body]
fn nonzero_from_str(text: &str) -> (r: Result<usize, String>)
    ensures
        match r {
            Ok(n) => nonzero_value(text@) == Some(n as int),
            Err(e) => nonzero_value(text@) is None && e@ == nonzero_parse_error(text@),
        },
{
    <std::num::NonZero<usize> as std::str::FromStr>::from_str(text).map(|n| n.get()).map_err(|e| e.to_string())
}

/// A job count: `special` for `default`, `-N` for `default - N` (at least 1), or a positive
/// number.
pub open spec fn jobs_spec(value: Seq<char>, special: Seq<char>, default: usize) -> Result<usize, Seq<char>> {
    if value == special {
        Ok(default)
    } else if value.len() > 0 && value[0] == '-' {
        match nonzero_parse(value.subrange(1, value.len() as int)) {
            Ok(sub) => Ok(if sub >= default { 1 } else { (default - sub) as usize }),
            Err(e) => Err(e),
        }
    } else {
        nonzero_parse(value)
    }
}

/// Parses a `--jobs` value; the error is the number parser's message.
pub fn parse_jobs(value: &str, special: &str, default: usize) -> (r: Result<usize, String>)
    requires
        default > 0,
    ensures
        match r {
            Ok(n) => jobs_spec(value@, special@, default) == Ok::<usize, Seq<char>>(n) && n > 0,
            Err(e) => jobs_spec(value@, special@, default) == Err::<usize, Seq<char>>(e@),
        },
{
    if str_eq(value, special) {
        return Ok(default);
    }
    let v = chars_of(value);
    if v.len() > 0 && v[0] == '-' {
        let rest = string_of(&v, 1, v.len());
        match nonzero_from_str(rest.as_str()) {
            Ok(sub) => Ok(if sub >= default { 1 } else { default - sub }),
            Err(e) => Err(e),
        }
    } else {
        nonzero_from_str(value)
    }
}

/// Parses a `--default-features` value: `1`, `yes` or `true`; `0`, `no` or `false`.
pub fn parse_default_features(value: &str) -> (r: Result<bool, String>)
    ensures
        match r {
            Ok(b) => if b {
                value@ == "1"@ || value@ == "yes"@ || value@ == "true"@
            } else {
                value@ == "0"@ || value@ == "no"@ || value@ == "false"@
            },
            Err(e) => e@ == value@ + " not 1|yes|true or 0|no|false"@,
        },
        (value@ == "1"@ || value@ == "yes"@ || value@ == "true"@) ==> r == Ok::<bool, String>(true),
        (value@ == "0"@ || value@ == "no"@ || value@ == "false"@) ==> r == Ok::<bool, String>(false),
        !(value@ == "1"@ || value@ == "yes"@ || value@ == "true"@ || value@ == "0"@ || value@ == "no"@
            || value@ == "false"@) ==> r is Err,
{
    proof {
        reveal_strlit("1");
        reveal_strlit("yes");
        reveal_strlit("true");
        reveal_strlit("0");
        reveal_strlit("no");
        reveal_strlit("false");
        assert("0"@[0] != "1"@[0]);
        assert("1"@.len() == 1 && "0"@.len() == 1 && "yes"@.len() == 3 && "no"@.len() == 2);
        assert("true"@.len() == 4 && "false"@.len() == 5);
        assert("0"@ != "1"@ && "0"@ != "yes"@ && "0"@ != "true"@);
        assert("no"@ != "1"@ && "no"@ != "yes"@ && "no"@ != "true"@);
        assert("false"@ != "1"@ && "false"@ != "yes"@ && "false"@ != "true"@);
    }
    if str_eq(value, "1") || str_eq(value, "yes") || str_eq(value, "true") {
        Ok(true)
    } else if str_eq(value, "0") || str_eq(value, "no") || str_eq(value, "false") {
        Ok(false)
    } else {
        let mut e = copy_str(value);
        append_str(&mut e, " not 1|yes|true or 0|no|false");
        Err(e)
    }
}

/// The job limits: `--jobs` only without `--recursive-jobs`, and, with both, as many
/// concurrent `cargo install`s as fill the recursive jobs with the jobs each (at least one).
pub fn job_limits(jobs: Option<usize>, recursive_jobs: Option<usize>) -> (r: (Option<usize>, Option<usize>, Option<usize>))
    requires
        jobs matches Some(j) ==> j > 0,
        recursive_jobs matches Some(rj) ==> rj > 0,
        jobs matches Some(j) && recursive_jobs matches Some(rj) ==> rj + j - 1 <= usize::MAX,
    ensures
        r.0 == (if recursive_jobs is Some { None } else { jobs }),
        r.1 == recursive_jobs,
        r.2 == match (jobs, recursive_jobs) {
            (Some(j), Some(rj)) => Some(if (rj + j - 1) / (j as int) == 0 { 1 } else { ((rj + j - 1) / (j as int)) as usize }),
            _ => None,
        },
{
    let concurrent = match (jobs, recursive_jobs) {
        (Some(j), Some(rj)) => {
            let c = (rj + (j - 1)) / j;
            Some(if c == 0 { 1 } else { c })
        },
        _ => None,
    };
    (if recursive_jobs.is_some() { None } else { jobs }, recursive_jobs, concurrent)
}

/// What `cargo install-update-config` was given, as parsed values.
#[derive(Debug)]
pub struct ConfigFlags {
    pub toolchain: Option<String>,
    pub features: Vec<String>,
    pub no_features: Vec<String>,
    pub default_features: Option<bool>,
    pub debug: bool,
    pub release: bool,
    pub install_prereleases: bool,
    pub no_install_prereleases: bool,
    pub enforce_lock: bool,
    pub no_enforce_lock: bool,
    pub respect_binaries: bool,
    pub no_respect_binaries: bool,
    pub version: Option<VersionReq>,
    pub any_version: bool,
    pub environment: Vec<(String, String)>,
    pub clear_environment: Vec<String>,
    pub inherit_environment: Vec<String>,
    pub reset: bool,
}

pub open spec fn opt_op(b: bool, op: ConfigOperationView) -> Seq<ConfigOperationView> {
    if b { seq![op] } else { seq![] }
}

pub open spec fn choice_op(yes: bool, no: bool, f: spec_fn(bool) -> ConfigOperationView) -> Seq<ConfigOperationView> {
    if yes { seq![f(true)] } else if no { seq![f(false)] } else { seq![] }
}

/// The operation of kind `kind` on a name: add or remove a feature, clear or inherit a
/// variable.
pub open spec fn named_op(kind: u8, s: Seq<char>) -> ConfigOperationView {
    if kind == 0 {
        ConfigOperationView::AddFeature(s)
    } else if kind == 1 {
        ConfigOperationView::RemoveFeature(s)
    } else if kind == 2 {
        ConfigOperationView::ClearEnvironment(s)
    } else {
        ConfigOperationView::InheritEnvironment(s)
    }
}

pub open spec fn named_ops(items: Seq<String>, kind: u8) -> Seq<ConfigOperationView> {
    strings_view(items).map_values(|s: Seq<char>| named_op(kind, s))
}

pub open spec fn toolchain_ops(f: ConfigFlags) -> Seq<ConfigOperationView> {
    match f.toolchain {
        Some(t) => seq![if t@.len() == 0 { ConfigOperationView::RemoveToolchain } else { ConfigOperationView::SetToolchain(t@) }],
        None => seq![],
    }
}

/// The switch of kind `kind`: debug mode, prereleases, `Cargo.lock`, binaries.
pub open spec fn switch_op(kind: u8, b: bool) -> ConfigOperationView {
    if kind == 0 {
        ConfigOperationView::SetDebugMode(b)
    } else if kind == 1 {
        ConfigOperationView::SetInstallPrereleases(b)
    } else if kind == 2 {
        ConfigOperationView::SetEnforceLock(b)
    } else {
        ConfigOperationView::SetRespectBinaries(b)
    }
}

/// A switch turned on by `yes`, else off by `no`.
pub open spec fn switch_ops(yes: bool, no: bool, kind: u8) -> Seq<ConfigOperationView> {
    if yes { seq![switch_op(kind, true)] } else if no { seq![switch_op(kind, false)] } else { seq![] }
}

pub open spec fn version_ops(f: ConfigFlags) -> Seq<ConfigOperationView> {
    if f.any_version {
        seq![ConfigOperationView::RemoveTargetVersion]
    } else {
        match f.version {
            Some(v) => seq![ConfigOperationView::SetTargetVersion(v.text@)],
            None => seq![],
        }
    }
}

pub open spec fn setting_ops(f: ConfigFlags) -> Seq<ConfigOperationView> {
    (match f.default_features {
        Some(d) => seq![ConfigOperationView::DefaultFeatures(d)],
        None => seq![],
    })
    + switch_ops(f.debug, f.release, 0)
    + switch_ops(f.install_prereleases, f.no_install_prereleases, 1)
    + switch_ops(f.enforce_lock, f.no_enforce_lock, 2)
    + switch_ops(f.respect_binaries, f.no_respect_binaries, 3)
    + version_ops(f)
}

pub open spec fn environment_ops(env: Seq<(String, String)>) -> Seq<ConfigOperationView> {
    env.map_values(|e: (String, String)| ConfigOperationView::SetEnvironment(e.0@, e.1@))
}

/// The operations the flags ask for, in this order: toolchain (removed when empty), features
/// added, features removed, default features, debug mode, prereleases, `Cargo.lock`,
/// binaries, version, environment set, cleared, inherited, and the reset.
pub open spec fn config_operations_spec(f: ConfigFlags) -> Seq<ConfigOperationView> {
    toolchain_ops(f) + named_ops(f.features@, 0) + named_ops(f.no_features@, 1) + setting_ops(f)
        + environment_ops(f.environment@) + named_ops(f.clear_environment@, 2) + named_ops(f.inherit_environment@, 3)
        + opt_op(f.reset, ConfigOperationView::ResetConfig)
}

fn push_op(ops: &mut Vec<ConfigOperation>, op: ConfigOperation)
    ensures
        ops_view(final(ops)@) == ops_view(old(ops)@).push(op@),
{
    ops.push(op);
    assert(ops_view(ops@) =~= ops_view(old(ops)@).push(op@));
}

fn push_named(ops: &mut Vec<ConfigOperation>, items: &Vec<String>, kind: u8)
    ensures
        ops_view(final(ops)@) == ops_view(old(ops)@) + named_ops(items@, kind),
{
    let ghost s0 = ops_view(ops@);
    let mut i: usize = 0;
    while i < items.len()
        invariant
            i <= items.len(),
            ops_view(ops@) == s0 + named_ops(items@.subrange(0, i as int), kind),
        decreases items.len() - i,
    {
        let n = copy_str(items[i].as_str());
        let op = if kind == 0 {
            ConfigOperation::AddFeature(n)
        } else if kind == 1 {
            ConfigOperation::RemoveFeature(n)
        } else if kind == 2 {
            ConfigOperation::ClearEnvironment(n)
        } else {
            ConfigOperation::InheritEnvironment(n)
        };
        push_op(ops, op);
        i = i + 1;
        assert(ops_view(ops@) =~= s0 + named_ops(items@.subrange(0, i as int), kind));
    }
    assert(items@.subrange(0, items.len() as int) =~= items@);
}

fn push_switch(ops: &mut Vec<ConfigOperation>, yes: bool, no: bool, kind: u8)
    ensures
        ops_view(final(ops)@) == ops_view(old(ops)@) + switch_ops(yes, no, kind),
{
    let ghost s0 = ops_view(ops@);
    if yes || no {
        let b = yes;
        let op = if kind == 0 {
            ConfigOperation::SetDebugMode(b)
        } else if kind == 1 {
            ConfigOperation::SetInstallPrereleases(b)
        } else if kind == 2 {
            ConfigOperation::SetEnforceLock(b)
        } else {
            ConfigOperation::SetRespectBinaries(b)
        };
        push_op(ops, op);
    }
    assert(ops_view(ops@) =~= s0 + switch_ops(yes, no, kind));
}

fn push_settings(ops: &mut Vec<ConfigOperation>, f: &ConfigFlags)
    ensures
        ops_view(final(ops)@) == ops_view(old(ops)@) + setting_ops(*f),
{
    let ghost s0 = ops_view(ops@);
    let ghost dflt = match f.default_features {
        Some(d) => seq![ConfigOperationView::DefaultFeatures(d)],
        None => seq![],
    };
    push_default_features(ops, f.default_features);
    let ghost a = switch_ops(f.debug, f.release, 0);
    let ghost b = switch_ops(f.install_prereleases, f.no_install_prereleases, 1);
    let ghost c = switch_ops(f.enforce_lock, f.no_enforce_lock, 2);
    let ghost d = switch_ops(f.respect_binaries, f.no_respect_binaries, 3);
    let ghost e = version_ops(*f);
    push_switch(ops, f.debug, f.release, 0);
    push_switch(ops, f.install_prereleases, f.no_install_prereleases, 1);
    push_switch(ops, f.enforce_lock, f.no_enforce_lock, 2);
    push_switch(ops, f.respect_binaries, f.no_respect_binaries, 3);
    push_version(ops, f);
    proof {
        vstd::seq_lib::lemma_concat_associative(s0, dflt, a);
        vstd::seq_lib::lemma_concat_associative(s0, dflt + a, b);
        vstd::seq_lib::lemma_concat_associative(s0, dflt + a + b, c);
        vstd::seq_lib::lemma_concat_associative(s0, dflt + a + b + c, d);
        vstd::seq_lib::lemma_concat_associative(s0, dflt + a + b + c + d, e);
    }
}

fn push_default_features(ops: &mut Vec<ConfigOperation>, d: Option<bool>)
    ensures
        ops_view(final(ops)@) == ops_view(old(ops)@) + match d {
            Some(x) => seq![ConfigOperationView::DefaultFeatures(x)],
            None => seq![],
        },
{
    let ghost s0 = ops_view(ops@);
    if let Some(x) = d {
        push_op(ops, ConfigOperation::DefaultFeatures(x));
    }
    assert(ops_view(ops@) =~= s0 + match d {
        Some(x) => seq![ConfigOperationView::DefaultFeatures(x)],
        None => seq![],
    });
}

fn push_version(ops: &mut Vec<ConfigOperation>, f: &ConfigFlags)
    ensures
        ops_view(final(ops)@) == ops_view(old(ops)@) + version_ops(*f),
{
    let ghost s0 = ops_view(ops@);
    if f.any_version {
        push_op(ops, ConfigOperation::RemoveTargetVersion);
    } else if let Some(v) = &f.version {
        push_op(ops, ConfigOperation::SetTargetVersion(v.duplicate()));
    }
    assert(ops_view(ops@) =~= s0 + version_ops(*f));
}

fn push_environment(ops: &mut Vec<ConfigOperation>, env: &Vec<(String, String)>)
    ensures
        ops_view(final(ops)@) == ops_view(old(ops)@) + environment_ops(env@),
{
    let ghost s0 = ops_view(ops@);
    let mut i: usize = 0;
    while i < env.len()
        invariant
            i <= env.len(),
            ops_view(ops@) == s0 + environment_ops(env@.subrange(0, i as int)),
        decreases env.len() - i,
    {
        push_op(ops, ConfigOperation::SetEnvironment(copy_str(env[i].0.as_str()), copy_str(env[i].1.as_str())));
        i = i + 1;
        assert(ops_view(ops@) =~= s0 + environment_ops(env@.subrange(0, i as int)));
    }
    assert(env@.subrange(0, env.len() as int) =~= env@);
}

/// The configuration operations that `cargo install-update-config`'s flags ask for.
pub fn config_operations(f: &ConfigFlags) -> (r: Vec<ConfigOperation>)
    ensures
        ops_view(r@) == config_operations_spec(*f),
{
    let mut ops: Vec<ConfigOperation> = Vec::new();
    if let Some(t) = &f.toolchain {
        if t.as_str().is_empty() {
            push_op(&mut ops, ConfigOperation::RemoveToolchain);
        } else {
            push_op(&mut ops, ConfigOperation::SetToolchain(copy_str(t.as_str())));
        }
    }
    assert(ops_view(ops@) =~= toolchain_ops(*f));
    push_named(&mut ops, &f.features, 0);
    push_named(&mut ops, &f.no_features, 1);
    push_settings(&mut ops, f);
    push_environment(&mut ops, &f.environment);
    push_named(&mut ops, &f.clear_environment, 2);
    push_named(&mut ops, &f.inherit_environment, 3);
    let ghost before = ops_view(ops@);
    if f.reset {
        push_op(&mut ops, ConfigOperation::ResetConfig);
    }
    assert(ops_view(ops@) =~= before + opt_op(f.reset, ConfigOperationView::ResetConfig));
    ops
}

/// A `--environment` value `VARIABLE=VALUE`, split at the first `=`.
pub fn parse_environment_assignment(s: &str) -> (r: Result<(String, String), String>)
    ensures
        match find(s@, '=') {
            Some(i) => r matches Ok((k, v)) && k@ == s@.subrange(0, i) && v@ == s@.subrange(i + 1, s@.len() as int),
            None => r matches Err(e) && e@ == "Missing VALUE"@,
        },
{
    let v = chars_of(s);
    proof {
        lemma_find_from(v@, '=', 0);
    }
    match crate::text::find_char_from(&v, '=', 0) {
        Some(i) => Ok((string_of(&v, 0, i), string_of(&v, i + 1, v.len()))),
        None => Err(copy_str("Missing VALUE")),
    }
}

/// A `--clear-environment` or `--inherit-environment` value: a variable name without `=`.
pub fn parse_environment_name(s: &str) -> (r: Result<String, String>)
    ensures
        match find(s@, '=') {
            Some(_) => r matches Err(e) && e@ == "VARIABLE can't contain a ="@,
            None => r matches Ok(n) && n@ == s@,
        },
{
    let v = chars_of(s);
    match crate::text::find_char_from(&v, '=', 0) {
        Some(_) => Err(copy_str("VARIABLE can't contain a =")),
        None => Ok(copy_str(s)),
    }
}

} // verus!
