//! Where cargo keeps what this crate reads: the directory of `.crates.toml` and the proxy to
//! reach registries through.

use vstd::prelude::*;
use crate::toml_value::TomlValue;
use crate::text::{copy_str, str_eq, strings_view, chars_of, matches_at};
use crate::env::{env_text, env_var};

verus! {

/// The `install.root` of a cargo configuration document, when it is a string.
pub open spec fn install_root_spec(config: Option<TomlValue>) -> Option<Seq<char>> {
    match config {
        Some(d) => match d.get_spec("install"@) {
            Some(t) => match t.get_spec("root"@) {
                Some(r) => r.str_spec(),
                None => None,
            },
            None => None,
        },
        None => None,
    }
}

/// Where to look for `.crates.toml` instead of the cargo directory whose configuration is
/// given (`install.root`); `None` when it is in that directory.
pub fn crates_file_in(config: Option<&TomlValue>) -> (r: Option<String>)
    ensures
        crate::text::opt_str_view(r) == install_root_spec(crate::toml_value::opt_deref(config)),
{
    match config {
        Some(d) => match d.get("install") {
            Some(t) => match t.get("root") {
                Some(r) => match r.as_str() {
                    Some(s) => Some(copy_str(s)),
                    None => None,
                },
                None => None,
            },
            None => None,
        },
        None => None,
    }
}

/// A chain of directories that follows `install.root`: each directory's configuration (as
/// `configs` gives it) names the next one.
pub open spec fn follows_roots(configs: spec_fn(Seq<char>) -> Option<TomlValue>, path: Seq<Seq<char>>) -> bool {
    &&& path.len() >= 1
    &&& path.no_duplicates()
    &&& forall|i: int| 0 <= i < path.len() - 1 ==> install_root_spec(configs(#[trigger] path[i])) == Some(path[i + 1])
}

/// Following `install.root` from `dir` ends at `end`, whose configuration names no root: that
/// directory holds `.crates.toml`.
pub open spec fn resolves_to(configs: spec_fn(Seq<char>) -> Option<TomlValue>, dir: Seq<char>, end: Seq<char>) -> bool {
    exists|path: Seq<Seq<char>>| #[trigger] follows_roots(configs, path) && path[0] == dir && path.last() == end
        && install_root_spec(configs(end)) is None
}

/// Following `install.root` from `dir` comes back to a directory already visited.
pub open spec fn loops_from(configs: spec_fn(Seq<char>) -> Option<TomlValue>, dir: Seq<char>) -> bool {
    exists|path: Seq<Seq<char>>| #[trigger] follows_roots(configs, path) && path[0] == dir
        && (install_root_spec(configs(path.last())) matches Some(r) && path.contains(r))
}

/// The directories visited while following `install.root`, the last being the one whose
/// configuration is read next.
#[derive(Debug)]
pub struct RootChase {
    pub path: Vec<String>,
}

/// What the configuration of the current directory leads to.
#[derive(Debug)]
pub enum ChaseStep {
    /// Go on to the directory it names.
    Next(RootChase),
    /// It names a directory already visited: the chain loops.
    Loop(String),
    /// It names none: `.crates.toml` is in the current directory.
    Done(String),
}

impl RootChase {
    /// The chase starts at the cargo directory.
    pub fn start(dir: &str) -> (r: RootChase)
        ensures
            strings_view(r.path@) == seq![dir@],
    {
        let r = RootChase { path: vec![copy_str(dir)] };
        assert(strings_view(r.path@) =~= seq![dir@]);
        r
    }

    /// The directory whose configuration is read next.
    pub fn current(&self) -> (r: &str)
        requires
            self.path.len() > 0,
        ensures
            r@ == strings_view(self.path@).last(),
    {
        self.path[self.path.len() - 1].as_str()
    }

    /// Takes the configuration of the current directory (`None` when it has none or it is not
    /// TOML) and follows its `install.root`.
    pub fn step(self, config: Option<&TomlValue>) -> (r: ChaseStep)
        requires
            self.path.len() > 0,
        ensures
            match install_root_spec(crate::toml_value::opt_deref(config)) {
                None => r matches ChaseStep::Done(d) && d@ == strings_view(self.path@).last(),
                Some(root) => if strings_view(self.path@).contains(root) {
                    r matches ChaseStep::Loop(d) && d@ == root
                } else {
                    r matches ChaseStep::Next(c) && strings_view(c.path@) == strings_view(self.path@).push(root)
                },
            },
    {
        let ghost pv = strings_view(self.path@);
        let n = self.path.len();
        match crates_file_in(config) {
            None => ChaseStep::Done(copy_str(self.path[n - 1].as_str())),
            Some(root) => {
                let mut i: usize = 0;
                while i < n
                    invariant
                        n == self.path.len(),
                        pv == strings_view(self.path@),
                        i <= n,
                        install_root_spec(crate::toml_value::opt_deref(config)) == Some(root@),
                        forall|k: int| 0 <= k < i ==> pv[k] != root@,
                    decreases n - i,
                {
                    if str_eq(self.path[i].as_str(), root.as_str()) {
                        assert(pv[i as int] == root@);
                        assert(pv.contains(root@));
                        return ChaseStep::Loop(root);
                    }
                    i = i + 1;
                }
                let mut path = self.path;
                path.push(root);
                assert(strings_view(path@) =~= pv.push(root@));
                ChaseStep::Next(RootChase { path })
            },
        }
    }
}

/// The chain from a directory whose configuration names `install.root` `r` never comes back
/// to that directory when it ends.
proof fn lemma_end_avoids(configs: spec_fn(Seq<char>) -> Option<TomlValue>, d: Seq<char>, p: Seq<Seq<char>>)
    requires
        follows_roots(configs, p),
        install_root_spec(configs(d)) == Some(p[0]),
        install_root_spec(configs(p.last())) is None,
    ensures
        !p.contains(d),
{
    if p.contains(d) {
        let j = choose|j: int| 0 <= j < p.len() && p[j] == d;
        if j == p.len() - 1 {
        } else {
            assert(install_root_spec(configs(p[j])) == Some(p[j + 1]));
            assert(p[j + 1] == p[0]);
        }
    }
}

/// One step of the chain: `d` ends where `r` ends, and loops when `r` loops.
proof fn lemma_followed(configs: spec_fn(Seq<char>) -> Option<TomlValue>, d: Seq<char>, r: Seq<char>, end: Seq<char>)
    requires
        install_root_spec(configs(d)) == Some(r),
    ensures
        resolves_to(configs, d, end) == resolves_to(configs, r, end),
        loops_from(configs, d) == loops_from(configs, r),
{
    // From `d` to the end: the chain goes through `r`, and its tail is a chain from `r`.
    if resolves_to(configs, d, end) {
        let p = choose|p: Seq<Seq<char>>| #[trigger] follows_roots(configs, p) && p[0] == d && p.last() == end
            && install_root_spec(configs(end)) is None;
        assert(p.len() >= 2);
        assert(install_root_spec(configs(p[0])) == Some(p[1]));
        let t = p.drop_first();
        assert forall|i: int| 0 <= i < t.len() - 1 implies install_root_spec(configs(#[trigger] t[i])) == Some(t[i + 1]) by {
            assert(install_root_spec(configs(p[i + 1])) == Some(p[i + 2]));
        }
        assert(t.no_duplicates());
        assert(follows_roots(configs, t));
        assert(resolves_to(configs, r, end));
    }
    // From `r` to the end: the chain cannot pass through `d`, so `d` can go in front.
    if resolves_to(configs, r, end) {
        let p = choose|p: Seq<Seq<char>>| #[trigger] follows_roots(configs, p) && p[0] == r && p.last() == end
            && install_root_spec(configs(end)) is None;
        lemma_end_avoids(configs, d, p);
        let q = seq![d] + p;
        assert forall|i: int| 0 <= i < q.len() - 1 implies install_root_spec(configs(#[trigger] q[i])) == Some(q[i + 1]) by {
            if i > 0 {
                assert(install_root_spec(configs(p[i - 1])) == Some(p[i]));
            }
        }
        assert(q.no_duplicates()) by {
            assert forall|a: int, b: int| 0 <= a < b < q.len() implies q[a] != q[b] by {
                if a == 0 {
                    assert(p.contains(q[b]));
                }
            }
        }
        assert(follows_roots(configs, q));
        assert(q.last() == end);
        assert(resolves_to(configs, d, end));
    }
    // A loop from `d`: either `d` names itself, or the tail from `r`, followed by `d`, loops.
    if loops_from(configs, d) {
        let p = choose|p: Seq<Seq<char>>| #[trigger] follows_roots(configs, p) && p[0] == d
            && (install_root_spec(configs(p.last())) matches Some(x) && p.contains(x));
        if p.len() == 1 {
            assert(r == d);
            assert(loops_from(configs, r));
        } else {
            assert(install_root_spec(configs(p[0])) == Some(p[1]));
            let t = p.drop_first();
            assert forall|i: int| 0 <= i < t.len() - 1 implies install_root_spec(configs(#[trigger] t[i])) == Some(t[i + 1]) by {
                assert(install_root_spec(configs(p[i + 1])) == Some(p[i + 2]));
            }
            let x = install_root_spec(configs(p.last()))->0;
            if x == d {
                let u = t.push(d);
                assert forall|i: int| 0 <= i < u.len() - 1 implies install_root_spec(configs(#[trigger] u[i])) == Some(u[i + 1]) by {
                    if i < t.len() - 1 {
                        assert(install_root_spec(configs(t[i])) == Some(t[i + 1]));
                    }
                }
                assert(u.no_duplicates()) by {
                    assert forall|a: int, b: int| 0 <= a < b < u.len() implies u[a] != u[b] by {
                        if b == u.len() - 1 {
                            assert(p[a + 1] != p[0]);
                        } else {
                            assert(p[a + 1] != p[b + 1]);
                        }
                    }
                }
                assert(follows_roots(configs, u));
                assert(u.last() == d);
                assert(u.contains(r)) by {
                    assert(u[0] == r);
                }
                assert(loops_from(configs, r));
            } else {
                let j = choose|j: int| 0 <= j < p.len() && p[j] == x;
                assert(j != 0);
                assert(t[j - 1] == x);
                assert(t.no_duplicates());
                assert(follows_roots(configs, t));
                assert(t.last() == p.last());
                assert(loops_from(configs, r));
            }
        }
    }
    // A loop from `r`: put `d` in front, or cut the chain where it reaches `d`.
    if loops_from(configs, r) {
        let p = choose|p: Seq<Seq<char>>| #[trigger] follows_roots(configs, p) && p[0] == r
            && (install_root_spec(configs(p.last())) matches Some(x) && p.contains(x));
        if p.contains(d) {
            let j = choose|j: int| 0 <= j < p.len() && p[j] == d;
            let q = seq![d] + p.subrange(0, j);
            assert forall|i: int| 0 <= i < q.len() - 1 implies install_root_spec(configs(#[trigger] q[i])) == Some(q[i + 1]) by {
                if i > 0 {
                    assert(install_root_spec(configs(p[i - 1])) == Some(p[i]));
                }
            }
            assert(q.no_duplicates()) by {
                assert forall|a: int, b: int| 0 <= a < b < q.len() implies q[a] != q[b] by {
                    if a == 0 {
                        assert(p[b - 1] != p[j]);
                    } else {
                        assert(p[a - 1] != p[b - 1]);
                    }
                }
            }
            assert(follows_roots(configs, q));
            if j == 0 {
                assert(q =~= seq![d]);
                assert(p[0] == d && q[0] == r);
                assert(q.contains(r));
            } else {
                assert(q.last() == p[j - 1]);
                assert(install_root_spec(configs(p[j - 1])) == Some(p[j]));
                assert(q[0] == d);
            }
            assert(loops_from(configs, d));
        } else {
            let q = seq![d] + p;
            let x = install_root_spec(configs(p.last()))->0;
            assert forall|i: int| 0 <= i < q.len() - 1 implies install_root_spec(configs(#[trigger] q[i])) == Some(q[i + 1]) by {
                if i > 0 {
                    assert(install_root_spec(configs(p[i - 1])) == Some(p[i]));
                }
            }
            assert(q.no_duplicates()) by {
                assert forall|a: int, b: int| 0 <= a < b < q.len() implies q[a] != q[b] by {
                    if a == 0 {
                        assert(p.contains(q[b]));
                    }
                }
            }
            assert(follows_roots(configs, q));
            assert(q.last() == p.last());
            let j = choose|j: int| 0 <= j < p.len() && p[j] == x;
            assert(q[j + 1] == x);
            assert(loops_from(configs, d));
        }
    }
}

/// Where following `install.root` from `dir` finds `.crates.toml`; `None` when it does not end
/// (it comes back to a directory already visited).
pub open spec fn crates_dir_of(configs: spec_fn(Seq<char>) -> Option<TomlValue>, dir: Seq<char>) -> Option<Seq<char>> {
    if exists|e: Seq<char>| resolves_to(configs, dir, e) {
        Some(choose|e: Seq<char>| resolves_to(configs, dir, e))
    } else {
        None
    }
}

/// Two chains from the same directory agree as far as both go.
proof fn lemma_paths_agree(configs: spec_fn(Seq<char>) -> Option<TomlValue>, p: Seq<Seq<char>>, q: Seq<Seq<char>>, i: int)
    requires
        follows_roots(configs, p),
        follows_roots(configs, q),
        p[0] == q[0],
        0 <= i < p.len(),
        i < q.len(),
    ensures
        p[i] == q[i],
    decreases i,
{
    if i > 0 {
        lemma_paths_agree(configs, p, q, i - 1);
        assert(install_root_spec(configs(p[i - 1])) == Some(p[i]));
        assert(install_root_spec(configs(q[i - 1])) == Some(q[i]));
    }
}

/// A chain that ends fixes where it ends.
proof fn lemma_end_unique(configs: spec_fn(Seq<char>) -> Option<TomlValue>, p: Seq<Seq<char>>, q: Seq<Seq<char>>)
    requires
        follows_roots(configs, p),
        follows_roots(configs, q),
        p[0] == q[0],
        install_root_spec(configs(p.last())) is None,
        install_root_spec(configs(q.last())) is None,
    ensures
        p.last() == q.last(),
{
    if p.len() < q.len() {
        lemma_paths_agree(configs, p, q, p.len() - 1);
        assert(install_root_spec(configs(q[p.len() - 1])) == Some(q[p.len() as int]));
    } else if q.len() < p.len() {
        lemma_paths_agree(configs, p, q, q.len() - 1);
        assert(install_root_spec(configs(p[q.len() - 1])) == Some(p[q.len() as int]));
    } else {
        lemma_paths_agree(configs, p, q, p.len() - 1);
    }
}

/// A chain that loops and a chain that ends cannot start at the same directory.
proof fn lemma_loop_or_end(configs: spec_fn(Seq<char>) -> Option<TomlValue>, p: Seq<Seq<char>>, q: Seq<Seq<char>>)
    requires
        follows_roots(configs, p),
        follows_roots(configs, q),
        p[0] == q[0],
        install_root_spec(configs(p.last())) matches Some(x) && p.contains(x),
    ensures
        install_root_spec(configs(q.last())) is Some,
{
    let x = install_root_spec(configs(p.last()))->0;
    if install_root_spec(configs(q.last())) is None {
        if p.len() <= q.len() {
            lemma_paths_agree(configs, p, q, p.len() - 1);
            assert(p.len() < q.len());
            assert(install_root_spec(configs(q[p.len() - 1])) == Some(q[p.len() as int]));
            let j = choose|j: int| 0 <= j < p.len() && p[j] == x;
            lemma_paths_agree(configs, p, q, j);
            assert(q[j] == q[p.len() as int]);
        } else {
            lemma_paths_agree(configs, p, q, q.len() - 1);
            assert(install_root_spec(configs(p[q.len() - 1])) == Some(p[q.len() as int]));
        }
    }
}

/// A chase that followed `install.root` from a directory to one that names none has found
/// where `.crates.toml` is; one that came back to a directory finds none.
pub proof fn law_chase_finds_crates_dir(configs: spec_fn(Seq<char>) -> Option<TomlValue>, path: Seq<Seq<char>>)
    requires
        follows_roots(configs, path),
    ensures
        install_root_spec(configs(path.last())) is None ==> crates_dir_of(configs, path[0]) == Some(path.last()),
        (install_root_spec(configs(path.last())) matches Some(x) && path.contains(x)) ==> crates_dir_of(configs, path[0]) is None
            && loops_from(configs, path[0]),
{
    if install_root_spec(configs(path.last())) is None {
        assert(resolves_to(configs, path[0], path.last()));
        let e = choose|e: Seq<char>| resolves_to(configs, path[0], e);
        let q = choose|q: Seq<Seq<char>>| #[trigger] follows_roots(configs, q) && q[0] == path[0] && q.last() == e
            && install_root_spec(configs(e)) is None;
        lemma_end_unique(configs, path, q);
    }
    if install_root_spec(configs(path.last())) matches Some(x) && path.contains(x) {
        assert(loops_from(configs, path[0]));
        if exists|e: Seq<char>| resolves_to(configs, path[0], e) {
            let e = choose|e: Seq<char>| resolves_to(configs, path[0], e);
            let q = choose|q: Seq<Seq<char>>| #[trigger] follows_roots(configs, q) && q[0] == path[0] && q.last() == e
                && install_root_spec(configs(e)) is None;
            lemma_loop_or_end(configs, path, q);
        }
    }
}

/// A cargo directory whose configuration names `install.root` `r` has its `.crates.toml`
/// where `r` has it, and its chain of `install.root`s loops exactly when that of `r` does.
pub proof fn law_install_root_followed(configs: spec_fn(Seq<char>) -> Option<TomlValue>, d: Seq<char>, r: Seq<char>)
    requires
        install_root_spec(configs(d)) == Some(r),
    ensures
        crates_dir_of(configs, d) == crates_dir_of(configs, r),
        loops_from(configs, d) == loops_from(configs, r),
{
    assert forall|e: Seq<char>| resolves_to(configs, d, e) == resolves_to(configs, r, e) by {
        lemma_followed(configs, d, r, e);
    }
    lemma_followed(configs, d, r, d);
    if exists|e: Seq<char>| resolves_to(configs, d, e) {
        let e1 = choose|e: Seq<char>| resolves_to(configs, d, e);
        let e2 = choose|e: Seq<char>| resolves_to(configs, r, e);
        assert(resolves_to(configs, r, e1));
        let p = choose|p: Seq<Seq<char>>| #[trigger] follows_roots(configs, p) && p[0] == r && p.last() == e1
            && install_root_spec(configs(e1)) is None;
        let q = choose|q: Seq<Seq<char>>| #[trigger] follows_roots(configs, q) && q[0] == r && q.last() == e2
            && install_root_spec(configs(e2)) is None;
        lemma_end_unique(configs, p, q);
    } else {
        assert(!exists|e: Seq<char>| resolves_to(configs, r, e));
    }
}

/// What names of replaced executables of this program start with.
pub open spec fn old_exec_marker() -> Seq<char> {
    "cargo-install-update.exe-v"@
}

/// The marker occurs in `name` at `i`, followed by a character other than a line break.
pub open spec fn marked_at(name: Seq<char>, i: int) -> bool {
    let m = old_exec_marker();
    0 <= i && i + m.len() < name.len() && name.subrange(i, i + m.len()) == m && name[i + m.len()] != '\n'
}

/// The name of a replaced executable of this program that is left behind on Windows:
/// `cargo-install-update.exe-v` followed by at least one character other than a line break,
/// anywhere in the name.
pub open spec fn old_update_exec_spec(name: Seq<char>) -> bool {
    exists|i: int| #[trigger] marked_at(name, i)
}

/// Whether a file name is that of a replaced executable of this program.
pub fn is_old_update_exec(name: &str) -> (r: bool)
    ensures
        r == old_update_exec_spec(name@),
{
    let v = chars_of(name);
    let p = chars_of("cargo-install-update.exe-v");
    let mut i: usize = 0;
    while p.len() < v.len() - i
        invariant
            i <= v.len(),
            v@ == name@,
            p@ == old_exec_marker(),
            forall|k: int| 0 <= k < i ==> !#[trigger] marked_at(name@, k),
        decreases v.len() - i,
    {
        let m = matches_at(&v, i, &p);
        assert(v@.subrange(i as int, v.len() as int).subrange(0, p.len() as int) =~= v@.subrange(i as int, i + p.len()));
        if m && v[i + p.len()] != '\n' {
            assert(marked_at(name@, i as int));
            return true;
        }
        i = i + 1;
    }
    proof {
        assert forall|k: int| !#[trigger] marked_at(name@, k) by {
            if 0 <= k && k >= i {
                assert(k + old_exec_marker().len() >= name@.len());
            }
        }
    }
    false
}

/// A proxy setting, when it is not empty.
pub open spec fn nonempty(o: Option<Seq<char>>) -> Option<Seq<char>> {
    match o {
        Some(s) => if s.len() > 0 { Some(s) } else { None },
        None => None,
    }
}

/// The proxy to use: `http.proxy` of the document, else git's `http.proxy`, else the first of
/// `$http_proxy`, `$HTTP_PROXY`, `$https_proxy` and `$HTTPS_PROXY`; empty settings count as
/// none.
pub open spec fn proxy_spec(doc: Option<TomlValue>, git_proxy: Option<Seq<char>>, vars: Seq<(Vec<u8>, Vec<u8>)>) -> Option<Seq<char>> {
    let from_doc = match doc {
        Some(d) => match d.get_spec("http"@) {
            Some(t) => match t.get_spec("proxy"@) {
                Some(p) => p.str_spec(),
                None => None,
            },
            None => None,
        },
        None => None,
    };
    if nonempty(from_doc) is Some {
        from_doc
    } else if nonempty(git_proxy) is Some {
        git_proxy
    } else if nonempty(env_text(vars, "http_proxy"@)) is Some {
        env_text(vars, "http_proxy"@)
    } else if nonempty(env_text(vars, "HTTP_PROXY"@)) is Some {
        env_text(vars, "HTTP_PROXY"@)
    } else if nonempty(env_text(vars, "https_proxy"@)) is Some {
        env_text(vars, "https_proxy"@)
    } else {
        nonempty(env_text(vars, "HTTPS_PROXY"@))
    }
}

fn nonempty_exec(o: Option<String>) -> (r: Option<String>)
    ensures
        crate::text::opt_str_view(r) == nonempty(crate::text::opt_str_view(o)),
{
    match o {
        Some(s) => if s.as_str().is_empty() { None } else { Some(s) },
        None => None,
    }
}

/// Checks whether a proxy is to be used, given the parsed document read for it (`None` when
/// missing), git's `http.proxy` and the environment.
pub fn find_proxy(doc: Option<&TomlValue>, git_proxy: Option<&str>, vars: &Vec<(Vec<u8>, Vec<u8>)>) -> (r: Option<String>)
    ensures
        crate::text::opt_str_view(r) == proxy_spec(crate::toml_value::opt_deref(doc), crate::sources::opt_text(git_proxy), vars@),
{
    let from_doc = match doc {
        Some(d) => match d.get("http") {
            Some(t) => match t.get("proxy") {
                Some(p) => match p.as_str() {
                    Some(s) => Some(copy_str(s)),
                    None => None,
                },
                None => None,
            },
            None => None,
        },
        None => None,
    };
    if let Some(p) = nonempty_exec(from_doc) {
        return Some(p);
    }
    if let Some(g) = git_proxy {
        if !g.is_empty() {
            return Some(copy_str(g));
        }
    }
    if let Some(p) = nonempty_exec(env_var(vars, "http_proxy")) {
        return Some(p);
    }
    if let Some(p) = nonempty_exec(env_var(vars, "HTTP_PROXY")) {
        return Some(p);
    }
    if let Some(p) = nonempty_exec(env_var(vars, "https_proxy")) {
        return Some(p);
    }
    nonempty_exec(env_var(vars, "HTTPS_PROXY"))
}

} // verus!
