//! What is shown and run when packages are updated: the text of versions, the order of the
//! table of packages, the `cargo install` command of a package, and the closing summary.

use vstd::prelude::*;
use crate::version::Semver;
use crate::sparse::{decimal, decimal_text};
use crate::text::{copy_str, append_str, strings_view};
use crate::sorted::{seq_lt, str_order, lemma_seq_lt_total, lemma_seq_lt_irreflexive};
use crate::config::{PackageConfig, cargo_args_spec};

verus! {

/// `major.minor.patch`, then `-pre` and `+build` when they are not empty.
pub open spec fn semver_text_spec(v: crate::version::SemverView) -> Seq<char> {
    decimal(v.major as nat) + "."@ + decimal(v.minor as nat) + "."@ + decimal(v.patch as nat)
        + (if v.pre.len() > 0 { "-"@ + v.pre } else { seq![] })
        + (if v.build.len() > 0 { "+"@ + v.build } else { seq![] })
}

impl Semver {
    /// The version as `semver` writes it.
    pub fn to_text(&self) -> (r: String)
        ensures
            r@ == semver_text_spec(self@),
    {
        let mut r = decimal_text(self.major);
        append_str(&mut r, ".");
        let t = decimal_text(self.minor);
        append_str(&mut r, t.as_str());
        append_str(&mut r, ".");
        let t = decimal_text(self.patch);
        append_str(&mut r, t.as_str());
        let ghost base = r@;
        if !self.pre.as_str().is_empty() {
            append_str(&mut r, "-");
            append_str(&mut r, self.pre.as_str());
        }
        assert(r@ =~= base + (if self@.pre.len() > 0 { "-"@ + self@.pre } else { seq![] }));
        let ghost mid = r@;
        if !self.build.as_str().is_empty() {
            append_str(&mut r, "+");
            append_str(&mut r, self.build.as_str());
        }
        assert(r@ =~= mid + (if self@.build.len() > 0 { "+"@ + self@.build } else { seq![] }));
        r
    }
}

/// A row of the table of packages: whether it needs an update, then its name.
pub open spec fn row_before(a: (bool, Seq<char>), b: (bool, Seq<char>)) -> bool {
    (a.0 && !b.0) || (a.0 == b.0 && seq_lt(a.1, b.1))
}

pub open spec fn row_of(rows: Seq<(bool, String)>, i: usize) -> (bool, Seq<char>) {
    (rows[i as int].0, rows[i as int].1@)
}

/// The order in which the table lists the packages: those that need an update first, each
/// group by name.
pub open spec fn table_ordered(rows: Seq<(bool, String)>, order: Seq<usize>) -> bool {
    &&& order.to_multiset() == Seq::new(rows.len(), |i: int| i as usize).to_multiset()
    &&& forall|i: int| 0 <= i < order.len() ==> (#[trigger] order[i]) < rows.len()
    &&& forall|i: int| 0 <= i && i + 1 < order.len() ==> !row_before(row_of(rows, order[i + 1]), row_of(rows, #[trigger] order[i]))
}

proof fn lemma_row_before_asym(a: (bool, Seq<char>), b: (bool, Seq<char>))
    ensures
        row_before(a, b) ==> !row_before(b, a),
{
    lemma_seq_lt_total(a.1, b.1);
}

/// Orders the rows of the table of packages (needing an update first, then by name).
pub fn table_order(rows: &Vec<(bool, String)>) -> (r: Vec<usize>)
    ensures
        table_ordered(rows@, r@),
{
    broadcast use vstd::seq_lib::group_to_multiset_ensures;
    let n = rows.len();
    let mut r: Vec<usize> = Vec::new();
    let mut k: usize = n;
    let ghost all = Seq::new(n as nat, |i: int| i as usize);
    assert(all.subrange(0, n as int) =~= all);
    assert(r@.to_multiset() =~= vstd::multiset::Multiset::empty());
    while k > 0
        invariant
            k <= n,
            n == rows.len(),
            all == Seq::new(n as nat, |i: int| i as usize),
            r@.to_multiset().add(all.subrange(0, k as int).to_multiset()) == all.to_multiset(),
            forall|i: int| 0 <= i < r@.len() ==> (#[trigger] r@[i]) < n,
            forall|i: int| 0 <= i && i + 1 < r@.len() ==> !row_before(row_of(rows@, r@[i + 1]), row_of(rows@, #[trigger] r@[i])),
        decreases k,
    {
        k = k - 1;
        let x = k;
        proof {
            assert(all.subrange(0, k + 1) =~= all.subrange(0, k as int).push(x));
            vstd::seq_lib::to_multiset_build(all.subrange(0, k as int), x);
        }
        let mut p: usize = 0;
        let mut found = false;
        while p < r.len()
            invariant
                p <= r.len(),
                n == rows.len(),
                x < n,
                forall|i: int| 0 <= i < r@.len() ==> (#[trigger] r@[i]) < n,
                forall|j: int| 0 <= j < p ==> !row_before(row_of(rows@, x), row_of(rows@, #[trigger] r@[j])),
                found ==> p < r.len() && row_before(row_of(rows@, x), row_of(rows@, r@[p as int])),
            ensures
                forall|j: int| 0 <= j < p ==> !row_before(row_of(rows@, x), row_of(rows@, #[trigger] r@[j])),
                found ==> p < r.len() && row_before(row_of(rows@, x), row_of(rows@, r@[p as int])),
                !found ==> p == r.len(),
            decreases r.len() - p,
        {
            let y = r[p];
            let before = if rows[x].0 != rows[y].0 {
                rows[x].0
            } else {
                str_order(rows[x].1.as_str(), rows[y].1.as_str()) < 0
            };
            if before {
                found = true;
                break;
            }
            p = p + 1;
        }
        let ghost rb = r@;
        r.insert(p, x);
        proof {
            lemma_multiset_insert_idx(rb, p as int, x);
            assert forall|i: int| 0 <= i && i + 1 < r@.len() implies !row_before(row_of(rows@, r@[i + 1]), row_of(rows@, #[trigger] r@[i])) by {
                if i + 1 < p {
                    assert(r@[i] == rb[i] && r@[i + 1] == rb[i + 1]);
                } else if i + 1 == p {
                    assert(r@[i] == rb[i] && r@[i + 1] == x);
                } else if i == p {
                    assert(r@[i] == x && r@[i + 1] == rb[i]);
                    lemma_row_before_asym(row_of(rows@, x), row_of(rows@, rb[i]));
                } else {
                    assert(r@[i] == rb[i - 1] && r@[i + 1] == rb[i]);
                }
            }
            assert forall|i: int| 0 <= i < r@.len() implies (#[trigger] r@[i]) < n by {
                if i < p {
                    assert(r@[i] == rb[i]);
                } else if i > p {
                    assert(r@[i] == rb[i - 1]);
                }
            }
            assert(r@.to_multiset().add(all.subrange(0, k as int).to_multiset())
                =~= rb.to_multiset().add(all.subrange(0, k + 1).to_multiset()));
        }
    }
    assert(all.subrange(0, 0).to_multiset() =~= vstd::multiset::Multiset::empty());
    assert(r@.to_multiset() =~= all.to_multiset());
    r
}

proof fn lemma_multiset_insert_idx(s: Seq<usize>, p: int, x: usize)
    requires
        0 <= p <= s.len(),
    ensures
        s.insert(p, x).to_multiset() == s.to_multiset().insert(x),
{
    broadcast use vstd::seq_lib::group_to_multiset_ensures;
    let t = s.insert(p, x);
    assert(t.remove(p) =~= s);
    assert(t[p] == x);
    assert(t.to_multiset().count(x) > 0);
    assert(t.to_multiset() =~= s.to_multiset().insert(x));
}

/// The outcome of the installations so far.
#[derive(Debug)]
pub struct UpdateTally {
    /// How many succeeded.
    pub updated: u64,
    /// The packages that failed, in order.
    pub failed: Vec<String>,
    /// The exit code of the first failure.
    pub first_error: Option<i32>,
}

/// `a, b, c`.
pub open spec fn comma_list(names: Seq<Seq<char>>) -> Seq<char>
    decreases names.len(),
{
    if names.len() == 0 {
        seq![]
    } else if names.len() == 1 {
        names[0]
    } else {
        comma_list(names.drop_last()) + ", "@ + names.last()
    }
}

impl UpdateTally {
    pub fn new() -> (r: UpdateTally)
        ensures
            r.updated == 0,
            r.failed@.len() == 0,
            r.first_error is None,
    {
        UpdateTally { updated: 0, failed: Vec::new(), first_error: None }
    }

    /// Counts a success, or records a failure with its exit code and package.
    pub fn record(&mut self, outcome: Result<(), (i32, String)>)
        requires
            old(self).updated < u64::MAX,
        ensures
            match outcome {
                Ok(()) => final(self).updated == old(self).updated + 1
                    && strings_view(final(self).failed@) == strings_view(old(self).failed@)
                    && final(self).first_error == old(self).first_error,
                Err((code, name)) => final(self).updated == old(self).updated
                    && strings_view(final(self).failed@) == strings_view(old(self).failed@).push(name@)
                    && final(self).first_error == match old(self).first_error {
                        Some(c) => Some(c),
                        None => Some(code),
                    },
            },
    {
        match outcome {
            Ok(()) => {
                self.updated = self.updated + 1;
            },
            Err((code, name)) => {
                let ghost before = self.failed@;
                let ghost nv = name@;
                self.failed.push(name);
                assert(strings_view(self.failed@) =~= strings_view(before).push(nv));
                if self.first_error.is_none() {
                    self.first_error = Some(code);
                }
            },
        }
    }

    /// `Updated N package(s).`, with `git ` before `package` for git packages.
    pub fn summary(&self, git: bool) -> (r: String)
        ensures
            r@ == "Updated "@ + decimal(self.updated as nat) + " "@ + (if git { "git "@ } else { ""@ }) + "package"@
                + (if self.updated == 1 { ""@ } else { "s"@ }) + "."@,
    {
        let mut r = copy_str("Updated ");
        let d = decimal_text(self.updated);
        append_str(&mut r, d.as_str());
        append_str(&mut r, " ");
        append_str(&mut r, if git { "git " } else { "" });
        append_str(&mut r, "package");
        append_str(&mut r, if self.updated == 1 { "" } else { "s" });
        append_str(&mut r, ".");
        r
    }

    /// `Failed to update a, b.` when some installation failed with an exit code.
    pub fn failure(&self) -> (r: Option<String>)
        ensures
            r is Some == (self.failed@.len() > 0 && self.first_error is Some),
            r matches Some(m) ==> m@ == "Failed to update "@ + comma_list(strings_view(self.failed@)) + "."@,
    {
        if self.failed.len() == 0 || self.first_error.is_none() {
            return None;
        }
        let ghost names = strings_view(self.failed@);
        let mut list = String::new();
        let mut i: usize = 0;
        while i < self.failed.len()
            invariant
                i <= self.failed.len(),
                names == strings_view(self.failed@),
                list@ == comma_list(names.subrange(0, i as int)),
            decreases self.failed.len() - i,
        {
            assert(names.subrange(0, i + 1).drop_last() =~= names.subrange(0, i as int));
            if i != 0 {
                append_str(&mut list, ", ");
            }
            append_str(&mut list, self.failed[i].as_str());
            proof {
                if i == 0 {
                    assert(comma_list(names.subrange(0, 0)) =~= seq![]);
                    assert(names.subrange(0, 1)[0] == names[0]);
                }
            }
            i = i + 1;
            assert(list@ =~= comma_list(names.subrange(0, i as int)));
        }
        assert(names.subrange(0, names.len() as int) =~= names);
        let mut m = copy_str("Failed to update ");
        append_str(&mut m, list.as_str());
        append_str(&mut m, ".");
        Some(m)
    }
}

/// The start of a `cargo install` command line: the package's configured arguments, or a
/// forced plain `install`.
pub open spec fn install_base(config: Option<&PackageConfig>, executables: Seq<Seq<char>>) -> Seq<Seq<char>> {
    match config {
        Some(c) => cargo_args_spec(c@, strings_view(c.features@), executables),
        None => seq!["install"@, "-f"@],
    }
}

fn base_args(config: Option<&PackageConfig>, executables: &[String]) -> (r: Vec<String>)
    ensures
        strings_view(r@) == install_base(config, strings_view(executables@)),
{
    match config {
        Some(c) => c.cargo_args(executables),
        None => {
            let r = vec![copy_str("install"), copy_str("-f")];
            assert(strings_view(r@) =~= seq!["install"@, "-f"@]);
            r
        },
    }
}

fn push_text(v: &mut Vec<String>, s: &str)
    ensures
        strings_view(final(v)@) == strings_view(old(v)@).push(s@),
{
    v.push(copy_str(s));
    assert(strings_view(v@) =~= strings_view(old(v)@).push(s@));
}

/// `--registry NAME` for a package whose registry resolved to a source other than crates.io.
pub open spec fn registry_part(registry: Seq<char>) -> Seq<Seq<char>> {
    if registry == "crates-io"@ {
        seq![]
    } else {
        seq!["--registry"@, registry]
    }
}

/// The arguments of `cargo` that install a registry package at a version, from the registry
/// source its registry resolved to (named `registry`).
pub fn install_args(config: Option<&PackageConfig>, executables: &[String], name: &str, version: &str, registry: &str) -> (r: Vec<String>)
    ensures
        strings_view(r@) == install_base(config, strings_view(executables@)) + seq![name@, "--vers"@, version@]
            + registry_part(registry@),
{
    let mut r = base_args(config, executables);
    let ghost b = strings_view(r@);
    push_text(&mut r, name);
    push_text(&mut r, "--vers");
    push_text(&mut r, version);
    let ghost mid = strings_view(r@);
    assert(mid =~= b + seq![name@, "--vers"@, version@]);
    if !crate::text::str_eq(registry, "crates-io") {
        push_text(&mut r, "--registry");
        push_text(&mut r, registry);
    }
    assert(strings_view(r@) =~= mid + registry_part(registry@));
    r
}

/// The arguments of `cargo` that install a package from its git repository.
pub fn git_install_args(config: Option<&PackageConfig>, executables: &[String], url: &str, name: &str, branch: Option<&str>)
    -> (r: Vec<String>)
    ensures
        strings_view(r@) == install_base(config, strings_view(executables@)) + seq!["--git"@, url@, name@]
            + match branch {
                Some(b) => seq!["--branch"@, b@],
                None => seq![],
            },
{
    let mut r = base_args(config, executables);
    let ghost b0 = strings_view(r@);
    push_text(&mut r, "--git");
    push_text(&mut r, url);
    push_text(&mut r, name);
    if let Some(b) = branch {
        push_text(&mut r, "--branch");
        push_text(&mut r, b);
    }
    assert(strings_view(r@) =~= b0 + seq!["--git"@, url@, name@] + match branch {
        Some(b) => seq!["--branch"@, b@],
        None => seq![],
    });
    r
}

/// The version text handed to `cargo install --vers`: the configured target requirement as
/// `semver` writes it (its own text if it does not parse), else the version to update to.
pub open spec fn install_version_spec(config: Option<&PackageConfig>, update_to: crate::version::SemverView) -> Seq<char> {
    match config {
        Some(c) => match c.target_version {
            Some(tv) => if crate::version::semver_req_parse(tv.text@) is Ok {
                crate::version::semver_req_display(tv.text@)
            } else {
                tv.text@
            },
            None => semver_text_spec(update_to),
        },
        None => semver_text_spec(update_to),
    }
}

/// See [`install_version_spec`].
pub fn install_version(config: Option<&PackageConfig>, update_to: &Semver) -> (r: String)
    ensures
        r@ == install_version_spec(config, update_to@),
{
    match config {
        Some(c) => match &c.target_version {
            Some(tv) => match crate::version::VersionReq::parse(tv.text.as_str()) {
                Ok(q) => q.to_text(),
                Err(_) => copy_str(tv.text.as_str()),
            },
            None => update_to.to_text(),
        },
        None => update_to.to_text(),
    }
}

/// The packages to install, by index, in order: those that need an update (all of them when
/// forced) and have a version to update to.
pub open spec fn install_candidates_spec(force: bool, needs: Seq<bool>, has_update: Seq<bool>, r: Seq<usize>) -> bool {
    &&& forall|a: int, b: int| 0 <= a < b < r.len() ==> r[a] < r[b]
    &&& forall|k: int| 0 <= k < r.len() ==> r[k] < needs.len() && (force || needs[r[k] as int]) && has_update[r[k] as int]
    &&& forall|i: int| 0 <= i < needs.len() && (force || needs[i]) && has_update[i] ==> r.contains(i as usize)
}

/// See [`install_candidates_spec`].
pub fn install_candidates(force: bool, needs: &Vec<bool>, has_update: &Vec<bool>) -> (r: Vec<usize>)
    requires
        needs.len() == has_update.len(),
    ensures
        install_candidates_spec(force, needs@, has_update@, r@),
{
    let mut r: Vec<usize> = Vec::new();
    let mut i: usize = 0;
    while i < needs.len()
        invariant
            i <= needs.len(),
            needs.len() == has_update.len(),
            forall|a: int, b: int| 0 <= a < b < r.len() ==> r[a] < r[b],
            forall|k: int| 0 <= k < r.len() ==> r[k] < i && (force || needs@[r[k] as int]) && has_update@[r[k] as int],
            forall|j: int| 0 <= j < i && (force || needs@[j]) && has_update@[j] ==> r@.contains(j as usize),
        decreases needs.len() - i,
    {
        if (force || needs[i]) && has_update[i] {
            let ghost before = r@;
            r.push(i);
            assert forall|j: int| 0 <= j < i + 1 && (force || needs@[j]) && has_update@[j] implies r@.contains(j as usize) by {
                if j < i {
                    let k = choose|k: int| 0 <= k < before.len() && before[k] == j as usize;
                    assert(r@[k] == j as usize);
                } else {
                    assert(r@[r.len() - 1] == j as usize);
                }
            }
        }
        i = i + 1;
    }
    r
}

} // verus!
