//! Which index a registry's packages are fetched from: cargo's `[source]` replacement and
//! `[registries]` tables, read from the cargo configuration file.

use vstd::prelude::*;
use crate::toml_value::{TomlValue, toml_document, parse_toml};
use crate::sorted::{sorted, keys_of, map_of, map_get};
use crate::cargo_config::{str_map_view, insert_str};
use crate::text::{is_prefix, copy_str, append_str, str_eq, strip_prefix_of};
use crate::urls::{url_parses, parses_as_url};
use vstd::set_lib::{set_int_range, lemma_int_range, lemma_map_size, lemma_len_subset};
use vstd::relations::injective_on;

verus! {

/// The git index of crates.io.
pub open spec fn crates_io_index() -> Seq<char> {
    "https://github.com/rust-lang/crates.io-index"@
}

/// The sparse index of crates.io, as cargo's configuration names it.
pub open spec fn crates_io_sparse() -> Seq<char> {
    "sparse+https://index.crates.io/"@
}

/// A URL without its `sparse+` prefix.
pub open spec fn strip_sparse(u: Seq<char>) -> Seq<char> {
    if is_prefix("sparse+"@, u) {
        u.subrange("sparse+"@.len() as int, u.len() as int)
    } else {
        u
    }
}

/// What the scan of the configuration has found so far: the source the registry is known
/// as, the `replace-with` of each source, and the index URL of each source and registry.
pub ghost struct SourceScan {
    pub cur: Seq<char>,
    pub replacements: Map<Seq<char>, Seq<char>>,
    pub registries: Map<Seq<char>, Seq<char>>,
}

/// Before the configuration is read: crates.io is always known (by its git or its sparse
/// index), and a registry given by one of crates.io's URLs is the source `crates-io`.
pub open spec fn scan_start(registry: Seq<char>, sparse: bool) -> SourceScan {
    SourceScan {
        cur: if registry == crates_io_index() || registry == crates_io_sparse() { "crates-io"@ } else { registry },
        replacements: Map::empty(),
        registries: Map::empty().insert("crates-io"@, if sparse { crates_io_sparse() } else { crates_io_index() }),
    }
}

/// One `[source.NAME]` table: its `replace-with` and its `registry` (which, when it is the
/// registry being looked for, names that registry `NAME`).
pub open spec fn source_step(st: SourceScan, name: Seq<char>, v: TomlValue) -> Result<SourceScan, Seq<char>> {
    let st1 = match v.get_spec("replace-with"@) {
        None => Ok(st),
        Some(r) => match r.str_spec() {
            Some(rs) => Ok(SourceScan { cur: st.cur, replacements: st.replacements.insert(name, rs), registries: st.registries }),
            None => Err("source."@ + name + ".replacement not string"@),
        },
    };
    match st1 {
        Err(e) => Err(e),
        Ok(s1) => match v.get_spec("registry"@) {
            None => Ok(s1),
            Some(u) => match u.str_spec() {
                Some(us) => Ok(SourceScan {
                    cur: if s1.cur == us { name } else { s1.cur },
                    replacements: s1.replacements,
                    registries: s1.registries.insert(name, us),
                }),
                None => Err("source."@ + name + ".registry not string"@),
            },
        },
    }
}

/// The `[source]` tables, in order; the first error stops the scan.
pub open spec fn scan_sources(st: SourceScan, entries: Seq<(String, TomlValue)>) -> Result<SourceScan, Seq<char>>
    decreases entries.len(),
{
    if entries.len() == 0 {
        Ok(st)
    } else {
        match scan_sources(st, entries.drop_last()) {
            Err(e) => Err(e),
            Ok(s) => source_step(s, entries.last().0@, entries.last().1),
        }
    }
}

/// One `[registries.NAME]` table: its `index`, when it is a string (others are passed over).
pub open spec fn registry_step(st: SourceScan, name: Seq<char>, v: TomlValue) -> SourceScan {
    match v.get_spec("index"@) {
        Some(u) => match u.str_spec() {
            Some(us) => SourceScan {
                cur: if st.cur == strip_sparse(us) { name } else { st.cur },
                replacements: st.replacements,
                registries: st.registries.insert(name, us),
            },
            None => st,
        },
        None => st,
    }
}

pub open spec fn scan_registries(st: SourceScan, entries: Seq<(String, TomlValue)>) -> SourceScan
    decreases entries.len(),
{
    if entries.len() == 0 {
        st
    } else {
        registry_step(scan_registries(st, entries.drop_last()), entries.last().0@, entries.last().1)
    }
}

/// The scan of a configuration document: `[source]`, then `[registries]`.
pub open spec fn scan_config(doc: TomlValue, registry: Seq<char>, sparse: bool) -> Result<SourceScan, Seq<char>> {
    let st1 = match doc.get_spec("source"@) {
        None => Ok(scan_start(registry, sparse)),
        Some(TomlValue::Table(e)) => scan_sources(scan_start(registry, sparse), e@),
        Some(_) => Err("source not table"@),
    };
    match st1 {
        Err(e) => Err(e),
        Ok(s1) => match doc.get_spec("registries"@) {
            None => Ok(s1),
            Some(TomlValue::Table(e)) => Ok(scan_registries(s1, e@)),
            Some(_) => Err("registries is not a table"@),
        },
    }
}

/// One step along `replace-with`: a source that is replaced becomes its replacement, any
/// other stays.
pub open spec fn replace_step(repl: Map<Seq<char>, Seq<char>>, s: Seq<char>) -> Seq<char> {
    if repl.contains_key(s) {
        repl[s]
    } else {
        s
    }
}

/// `n` steps along `replace-with` from `s`.
pub open spec fn chase(repl: Map<Seq<char>, Seq<char>>, s: Seq<char>, n: nat) -> Seq<char>
    decreases n,
{
    if n == 0 {
        s
    } else {
        replace_step(repl, chase(repl, s, (n - 1) as nat))
    }
}

/// The `replace-with` chain from `s` reaches a source that is not replaced.
pub open spec fn chain_ends(repl: Map<Seq<char>, Seq<char>>, s: Seq<char>) -> bool {
    exists|n: nat| !repl.contains_key(#[trigger] chase(repl, s, n))
}

/// The source at the end of the `replace-with` chain from `s`.
pub open spec fn resolved(repl: Map<Seq<char>, Seq<char>>, s: Seq<char>) -> Seq<char> {
    chase(repl, s, choose|n: nat| !repl.contains_key(#[trigger] chase(repl, s, n)))
}

/// Once the chain reaches a source that is not replaced, it stays there.
proof fn lemma_chase_stays(repl: Map<Seq<char>, Seq<char>>, s: Seq<char>, a: nat, b: nat)
    requires
        !repl.contains_key(chase(repl, s, a)),
        a <= b,
    ensures
        chase(repl, s, b) == chase(repl, s, a),
    decreases b - a,
{
    if a < b {
        lemma_chase_stays(repl, s, a, (b - 1) as nat);
    }
}

/// Any end of the chain is the resolved source.
proof fn lemma_resolved(repl: Map<Seq<char>, Seq<char>>, s: Seq<char>, a: nat)
    requires
        !repl.contains_key(chase(repl, s, a)),
    ensures
        chain_ends(repl, s),
        resolved(repl, s) == chase(repl, s, a),
{
    let w = choose|n: nat| !repl.contains_key(#[trigger] chase(repl, s, n));
    if a <= w {
        lemma_chase_stays(repl, s, a, w);
    } else {
        lemma_chase_stays(repl, s, w, a);
    }
}

/// The tail shared by the messages about registries cargo cannot install from.
pub open spec fn limitation_note() -> Seq<char> {
    ". Due to a Cargo limitation we will not be able to install from there until it's given a [source.NAME] in that file!"@
}

/// What `{:?}` makes of a string: the text in double quotes, with `char::escape_debug`.
pub uninterp spec fn str_debug(s: Seq<char>) -> Seq<char>;

/// Calls `format!("{:?}", s)` (`Debug` for `str`).
///
/// Claims the result is the named `str_debug` of the text.
#[verifier::external_body]
fn debug_text(s: &str) -> (r: String)
    ensures
        r@ == str_debug(s@),
{
    format!("{:?}", s)
}

/// What [`get_index_url`] gives: the index URL (without `sparse+`), whether the index is
/// sparse, and the name of the source it belongs to; or the error's message.
pub open spec fn index_url_spec(config_file: Seq<char>, searched_config: Seq<char>, config: Option<Seq<char>>,
    registry: Seq<char>, sparse: bool) -> Result<(Seq<char>, bool, Seq<char>), Seq<char>> {
    match config {
        None => if registry == crates_io_index() {
            if sparse {
                Ok(("https://index.crates.io/"@, true, "crates-io"@))
            } else {
                Ok((registry, false, "crates-io"@))
            }
        } else {
            Err("Non-crates.io registry specified and no config file found at "@ + searched_config + " or "@ + config_file
                + limitation_note())
        },
        Some(t) => match toml_document(t) {
            Err(e) => Err(config_file + " not TOML: "@ + e),
            Ok(doc) => match scan_config(doc, registry, sparse) {
                Err(e) => Err(e),
                Ok(st) => if url_parses(st.cur) {
                    Err("Non-crates.io registry specified and "@ + st.cur + " couldn't be found in the config file at "@
                        + config_file + limitation_note())
                } else {
                    let fin = resolved(st.replacements, st.cur);
                    if st.registries.contains_key(fin) {
                        let reg = st.registries[fin];
                        Ok((strip_sparse(reg), is_prefix("sparse+"@, reg), fin))
                    } else {
                        Err("Couldn't find appropriate source URL for "@ + registry + " in "@ + config_file + " (resolved to "@
                            + str_debug(fin) + ")"@)
                    }
                },
            },
        },
    }
}

/// The inputs on which [`get_index_url`] returns: the `replace-with` chain it follows ends.
pub open spec fn index_url_returns(config: Option<Seq<char>>, registry: Seq<char>, sparse: bool) -> bool {
    match config {
        Some(t) => match toml_document(t) {
            Ok(doc) => match scan_config(doc, registry, sparse) {
                Ok(st) => !url_parses(st.cur) ==> chain_ends(st.replacements, st.cur),
                Err(_) => true,
            },
            Err(_) => true,
        },
        None => true,
    }
}

pub open spec fn triple_view(r: Result<(String, bool, String), String>) -> Result<(Seq<char>, bool, Seq<char>), Seq<char>> {
    match r {
        Ok((a, b, c)) => Ok((a@, b, c@)),
        Err(e) => Err(e@),
    }
}

/// The executable state of the scan.
struct ScanState {
    cur: String,
    replacements: Vec<(String, String)>,
    registries: Vec<(String, String)>,
}

impl ScanState {
    spec fn wf(self) -> bool {
        sorted(keys_of(self.replacements@)) && sorted(keys_of(self.registries@))
    }

    spec fn view(self) -> SourceScan {
        SourceScan { cur: self.cur@, replacements: str_map_view(self.replacements@), registries: str_map_view(self.registries@) }
    }
}

fn scan_start_exec(registry: &str, sparse: bool) -> (r: ScanState)
    ensures
        r.wf(),
        r.view() == scan_start(registry@, sparse),
{
    let cur = if str_eq(registry, "https://github.com/rust-lang/crates.io-index") || str_eq(registry, "sparse+https://index.crates.io/") {
        copy_str("crates-io")
    } else {
        copy_str(registry)
    };
    let mut registries: Vec<(String, String)> = Vec::new();
    let url = if sparse { copy_str("sparse+https://index.crates.io/") } else { copy_str("https://github.com/rust-lang/crates.io-index") };
    proof {
        assert(sorted(keys_of(registries@))) by {
            assert(keys_of(registries@) =~= Seq::<Seq<char>>::empty());
        }
        assert(str_map_view(registries@) =~= Map::empty());
    }
    insert_str(&mut registries, copy_str("crates-io"), url);
    let r = ScanState { cur, replacements: Vec::new(), registries };
    proof {
        assert(sorted(keys_of(r.replacements@))) by {
            assert(keys_of(r.replacements@) =~= Seq::<Seq<char>>::empty());
        }
        assert(str_map_view(r.replacements@) =~= Map::empty());
        assert(r.view() =~= scan_start(registry@, sparse));
    }
    r
}

fn source_step_exec(st: ScanState, name: &str, v: &TomlValue) -> (r: Result<ScanState, String>)
    requires
        st.wf(),
    ensures
        match r {
            Ok(s) => s.wf() && source_step(st.view(), name@, *v) == Ok::<SourceScan, Seq<char>>(s.view()),
            Err(e) => source_step(st.view(), name@, *v) == Err::<SourceScan, Seq<char>>(e@),
        },
{
    let ghost s0 = st.view();
    let mut st = st;
    match v.get("replace-with") {
        None => {},
        Some(r) => match r.as_str() {
            Some(rs) => {
                insert_str(&mut st.replacements, copy_str(name), copy_str(rs));
            },
            None => {
                let mut e = copy_str("source.");
                append_str(&mut e, name);
                append_str(&mut e, ".replacement not string");
                return Err(e);
            },
        },
    }
    let ghost s1 = st.view();
    match v.get("registry") {
        None => {},
        Some(u) => match u.as_str() {
            Some(us) => {
                if str_eq(st.cur.as_str(), us) {
                    st.cur = copy_str(name);
                }
                insert_str(&mut st.registries, copy_str(name), copy_str(us));
            },
            None => {
                let mut e = copy_str("source.");
                append_str(&mut e, name);
                append_str(&mut e, ".registry not string");
                return Err(e);
            },
        },
    }
    let ghost expected = source_step(s0, name@, *v);
    assert(expected is Ok);
    assert(st.view().replacements =~= expected->Ok_0.replacements);
    assert(st.view().registries =~= expected->Ok_0.registries);
    assert(st.view() =~= expected->Ok_0);
    Ok(st)
}

fn registry_step_exec(st: ScanState, name: &str, v: &TomlValue) -> (r: ScanState)
    requires
        st.wf(),
    ensures
        r.wf(),
        r.view() == registry_step(st.view(), name@, *v),
{
    let ghost s0 = st.view();
    let mut st = st;
    match v.get("index") {
        Some(u) => match u.as_str() {
            Some(us) => {
                let stripped = match strip_prefix_of(us, "sparse+") {
                    Some(t) => t,
                    None => copy_str(us),
                };
                if str_eq(st.cur.as_str(), stripped.as_str()) {
                    st.cur = copy_str(name);
                }
                insert_str(&mut st.registries, copy_str(name), copy_str(us));
            },
            None => {},
        },
        None => {},
    }
    proof {
        reveal_strlit("sparse+");
    }
    assert(st.view() =~= registry_step(s0, name@, *v));
    st
}

fn scan_config_exec(doc: &TomlValue, registry: &str, sparse: bool) -> (r: Result<ScanState, String>)
    ensures
        match r {
            Ok(s) => s.wf() && scan_config(*doc, registry@, sparse) == Ok::<SourceScan, Seq<char>>(s.view()),
            Err(e) => scan_config(*doc, registry@, sparse) == Err::<SourceScan, Seq<char>>(e@),
        },
{
    let mut st = scan_start_exec(registry, sparse);
    let ghost start = st.view();
    match doc.get("source") {
        None => {},
        Some(TomlValue::Table(e)) => {
            let mut i: usize = 0;
            while i < e.len()
                invariant
                    i <= e.len(),
                    st.wf(),
                    scan_sources(start, e@.subrange(0, i as int)) == Ok::<SourceScan, Seq<char>>(st.view()),
                    doc.get_spec("source"@) == Some(TomlValue::Table(*e)),
                    start == scan_start(registry@, sparse),
                decreases e.len() - i,
            {
                assert(e@.subrange(0, i + 1).drop_last() =~= e@.subrange(0, i as int));
                let ghost before = st.view();
                match source_step_exec(st, e[i].0.as_str(), &e[i].1) {
                    Ok(next) => {
                        st = next;
                    },
                    Err(m) => {
                        proof {
                            assert(e@.subrange(0, i + 1).last() == e@[i as int]);
                            assert(scan_sources(start, e@.subrange(0, i + 1)) == Err::<SourceScan, Seq<char>>(m@));
                            assert(e@.subrange(0, e.len() as int) =~= e@);
                            lemma_scan_sources_err(start, e@, (i + 1) as nat);
                            assert(scan_sources(start, e@) == Err::<SourceScan, Seq<char>>(m@));
                            assert(doc.get_spec("source"@) == Some(TomlValue::Table(*e)));
                            assert(scan_config(*doc, registry@, sparse) == Err::<SourceScan, Seq<char>>(m@));
                        }
                        return Err(m);
                    },
                }
                i = i + 1;
            }
            assert(e@.subrange(0, e.len() as int) =~= e@);
        },
        Some(_) => {
            return Err(copy_str("source not table"));
        },
    }
    let ghost s1 = st.view();
    match doc.get("registries") {
        None => {},
        Some(TomlValue::Table(e)) => {
            let mut i: usize = 0;
            while i < e.len()
                invariant
                    i <= e.len(),
                    st.wf(),
                    scan_registries(s1, e@.subrange(0, i as int)) == st.view(),
                decreases e.len() - i,
            {
                assert(e@.subrange(0, i + 1).drop_last() =~= e@.subrange(0, i as int));
                st = registry_step_exec(st, e[i].0.as_str(), &e[i].1);
                i = i + 1;
            }
            assert(e@.subrange(0, e.len() as int) =~= e@);
        },
        Some(_) => {
            return Err(copy_str("registries is not a table"));
        },
    }
    Ok(st)
}

/// An error part-way through the `[source]` tables is the error of all of them.
proof fn lemma_scan_sources_err(st: SourceScan, entries: Seq<(String, TomlValue)>, k: nat)
    requires
        k <= entries.len(),
        scan_sources(st, entries.subrange(0, k as int)) is Err,
    ensures
        scan_sources(st, entries) == scan_sources(st, entries.subrange(0, k as int)),
    decreases entries.len() - k,
{
    if k < entries.len() {
        assert(entries.subrange(0, k as int + 1).drop_last() =~= entries.subrange(0, k as int));
        lemma_scan_sources_err(st, entries, k + 1);
    } else {
        assert(entries.subrange(0, k as int) =~= entries);
    }
}

pub open spec fn opt_text(o: Option<&str>) -> Option<Seq<char>> {
    match o {
        Some(t) => Some(t@),
        None => None,
    }
}

/// Gets the URL to update a registry's index from, whether that index is sparse, and cargo's
/// name for it, from the text of the cargo configuration file beside `.crates.toml` (`None`
/// when there is none).
///
/// Finds the source the registry is known as, by URL or by name, chases the
/// `source.NAME.replace-with` chain, and takes the URL of the final source from
/// `source.NAME.registry` or `registries.NAME.index`. `source.crates-io` is always known, with
/// the sparse index `https://index.crates.io/` when `registries_crates_io_protocol_sparse`.
///
/// `config_file` is the path of the configuration file shown in messages (the one that was read,
/// or `config.toml` when neither was), `searched_config` the path of `config` shown when there
/// was no file.
pub fn get_index_url(config_file: &str, searched_config: &str, config: Option<&str>, registry: &str,
    registries_crates_io_protocol_sparse: bool) -> (r: Result<(String, bool, String), String>)
    requires
        index_url_returns(opt_text(config), registry@, registries_crates_io_protocol_sparse),
    ensures
        triple_view(r) == index_url_spec(config_file@, searched_config@, opt_text(config), registry@,
            registries_crates_io_protocol_sparse),
{
    let sparse = registries_crates_io_protocol_sparse;
    let text = match config {
        None => {
            if str_eq(registry, "https://github.com/rust-lang/crates.io-index") {
                if sparse {
                    return Ok((copy_str("https://index.crates.io/"), true, copy_str("crates-io")));
                } else {
                    return Ok((copy_str(registry), false, copy_str("crates-io")));
                }
            } else {
                let mut e = copy_str("Non-crates.io registry specified and no config file found at ");
                append_str(&mut e, searched_config);
                append_str(&mut e, " or ");
                append_str(&mut e, config_file);
                append_str(&mut e, ". Due to a Cargo limitation we will not be able to install from there until it's given a [source.NAME] in that file!");
                return Err(e);
            }
        },
        Some(t) => t,
    };
    let doc = match parse_toml(text) {
        Ok(d) => d,
        Err(pe) => {
            let mut e = copy_str(config_file);
            append_str(&mut e, " not TOML: ");
            append_str(&mut e, pe.as_str());
            return Err(e);
        },
    };
    let st = match scan_config_exec(&doc, registry, sparse) {
        Ok(s) => s,
        Err(e) => {
            return Err(e);
        },
    };
    if parses_as_url(st.cur.as_str()) {
        let mut e = copy_str("Non-crates.io registry specified and ");
        append_str(&mut e, st.cur.as_str());
        append_str(&mut e, " couldn't be found in the config file at ");
        append_str(&mut e, config_file);
        append_str(&mut e, ". Due to a Cargo limitation we will not be able to install from there until it's given a [source.NAME] in that file!");
        return Err(e);
    }
    let ghost repl = str_map_view(st.replacements@);
    let ghost start = st.cur@;
    let ghost n0 = choose|n: nat| !repl.contains_key(#[trigger] chase(repl, start, n));
    let mut cur = copy_str(st.cur.as_str());
    let ghost mut i: nat = 0;
    loop
        invariant
            st.wf(),
            repl == str_map_view(st.replacements@),
            !repl.contains_key(chase(repl, start, n0)),
            cur@ == chase(repl, start, i),
            i <= n0,
        ensures
            cur@ == chase(repl, start, i),
            !repl.contains_key(cur@),
        decreases n0 - i,
    {
        match map_get(&st.replacements, cur.as_str()) {
            Some(next) => {
                assert(i != n0);
                cur = copy_str(next.as_str());
                proof {
                    i = i + 1;
                }
            },
            None => {
                assert(!repl.contains_key(cur@));
                break;
            },
        }
    }
    proof {
        lemma_resolved(repl, start, i);
    }
    match map_get(&st.registries, cur.as_str()) {
        Some(reg) => {
            let url = match strip_prefix_of(reg.as_str(), "sparse+") {
                Some(t) => t,
                None => copy_str(reg.as_str()),
            };
            let is_sparse = strip_prefix_of(reg.as_str(), "sparse+").is_some();
            proof {
                reveal_strlit("sparse+");
            }
            Ok((url, is_sparse, cur))
        },
        None => {
            let mut e = copy_str("Couldn't find appropriate source URL for ");
            append_str(&mut e, registry);
            append_str(&mut e, " in ");
            append_str(&mut e, config_file);
            append_str(&mut e, " (resolved to ");
            let d = debug_text(cur.as_str());
            append_str(&mut e, d.as_str());
            append_str(&mut e, ")");
            Err(e)
        },
    }
}

/// A key has an entry exactly when some entry holds it.
proof fn lemma_lookup_some<V>(s: Seq<(String, V)>, k: Seq<char>)
    ensures
        (lookup_is_some(s, k)) <==> keys_of(s).contains(k),
    decreases s.len(),
{
    if s.len() > 0 {
        lemma_lookup_some(s.drop_first(), k);
        assert(keys_of(s.drop_first()) =~= keys_of(s).drop_first());
        assert(keys_of(s)[0] == s[0].0@);
        if keys_of(s).contains(k) && s[0].0@ != k {
            let i = choose|i: int| 0 <= i < keys_of(s).len() && keys_of(s)[i] == k;
            assert(keys_of(s).drop_first()[i - 1] == k);
        }
    }
}

spec fn lookup_is_some<V>(s: Seq<(String, V)>, k: Seq<char>) -> bool {
    crate::sorted::lookup(s, k) is Some
}

/// The keys of the map that entries stand for are the entries' keys: finitely many, no more
/// than the entries.
proof fn lemma_map_of_dom<V>(s: Seq<(String, V)>)
    ensures
        map_of(s).dom().finite(),
        map_of(s).dom().len() <= s.len(),
{
    assert forall|k: Seq<char>| map_of(s).dom().contains(k) <==> keys_of(s).to_set().contains(k) by {
        lemma_lookup_some(s, k);
    }
    assert(map_of(s).dom() =~= keys_of(s).to_set());
    keys_of(s).lemma_cardinality_of_set();
}

/// Equal points of the chain stay equal along it.
proof fn lemma_chase_shift(repl: Map<Seq<char>, Seq<char>>, s: Seq<char>, i: nat, j: nat, t: nat)
    requires
        chase(repl, s, i) == chase(repl, s, j),
    ensures
        chase(repl, s, i + t) == chase(repl, s, j + t),
    decreases t,
{
    if t > 0 {
        lemma_chase_shift(repl, s, i, j, (t - 1) as nat);
        assert(chase(repl, s, i + t) == replace_step(repl, chase(repl, s, (i + t - 1) as nat)));
        assert(chase(repl, s, j + t) == replace_step(repl, chase(repl, s, (j + t - 1) as nat)));
    }
}

/// A chain that comes back to where it was, having only met replaced sources, never ends.
proof fn lemma_cycle_never_ends(repl: Map<Seq<char>, Seq<char>>, s: Seq<char>, i: nat, j: nat, n: nat)
    requires
        i < j,
        chase(repl, s, i) == chase(repl, s, j),
        forall|m: nat| m <= j ==> repl.contains_key(#[trigger] chase(repl, s, m)),
    ensures
        repl.contains_key(chase(repl, s, n)),
    decreases n,
{
    if n > j {
        let t = (n - j) as nat;
        lemma_chase_shift(repl, s, i, j, t);
        lemma_cycle_never_ends(repl, s, i, j, i + t);
    }
}

/// Among `k + 1` points of the chain, all replaced, with at most `k` replaced sources, two are
/// the same.
proof fn lemma_chase_repeats(repl: Map<Seq<char>, Seq<char>>, s: Seq<char>, k: nat)
    requires
        repl.dom().finite(),
        repl.dom().len() <= k,
        forall|m: nat| m <= k ==> repl.contains_key(#[trigger] chase(repl, s, m)),
    ensures
        exists|i: nat, j: nat| i < j <= k && chase(repl, s, i) == chase(repl, s, j),
{
    let range = set_int_range(0, k as int + 1);
    let f = |x: int| chase(repl, s, x as nat);
    lemma_int_range(0, k as int + 1);
    let img = range.map(f);
    assert forall|y: Seq<char>| img.contains(y) implies repl.dom().contains(y) by {
        let x = choose|x: int| range.contains(x) && f(x) == y;
        assert(repl.contains_key(chase(repl, s, x as nat)));
    }
    lemma_len_subset(img, repl.dom());
    if injective_on(f, range) {
        lemma_map_size(range, img, f);
        assert(false);
    }
    let (x1, x2) = choose|x1: int, x2: int| range.contains(x1) && range.contains(x2) && #[trigger] f(x1) == #[trigger] f(x2) && x1 != x2;
    if x1 < x2 {
        assert(chase(repl, s, x1 as nat) == chase(repl, s, x2 as nat));
    } else {
        assert(chase(repl, s, x2 as nat) == chase(repl, s, x1 as nat));
    }
}

/// A chain whose first `k + 1` points are all replaced, with at most `k` replaced sources,
/// never ends.
proof fn lemma_ends_within(repl: Map<Seq<char>, Seq<char>>, s: Seq<char>, k: nat)
    requires
        repl.dom().finite(),
        repl.dom().len() <= k,
        forall|m: nat| m <= k ==> repl.contains_key(#[trigger] chase(repl, s, m)),
    ensures
        !chain_ends(repl, s),
{
    lemma_chase_repeats(repl, s, k);
    let (i, j) = choose|i: nat, j: nat| i < j <= k && chase(repl, s, i) == chase(repl, s, j);
    assert forall|n: nat| repl.contains_key(#[trigger] chase(repl, s, n)) by {
        lemma_cycle_never_ends(repl, s, i, j, n);
    }
}

/// Whether the `replace-with` chain of `repl` from `start` ends.
fn chain_ends_exec(repl: &Vec<(String, String)>, start: &str) -> (r: bool)
    requires
        sorted(keys_of(repl@)),
    ensures
        r == chain_ends(str_map_view(repl@), start@),
{
    let ghost m = str_map_view(repl@);
    proof {
        lemma_map_of_dom(repl@);
        assert(m.dom() =~= map_of(repl@).dom());
    }
    let n = repl.len();
    let mut cur = copy_str(start);
    let mut i: usize = 0;
    loop
        invariant
            sorted(keys_of(repl@)),
            m == str_map_view(repl@),
            m.dom().finite(),
            m.dom().len() <= n,
            n == repl.len(),
            i <= n,
            cur@ == chase(m, start@, i as nat),
            forall|j: nat| j < i ==> m.contains_key(#[trigger] chase(m, start@, j)),
        decreases n - i,
    {
        match map_get(repl, cur.as_str()) {
            None => {
                proof {
                    lemma_resolved(m, start@, i as nat);
                }
                return true;
            },
            Some(next) => {
                if i == n {
                    proof {
                        assert forall|j: nat| j <= n implies m.contains_key(#[trigger] chase(m, start@, j)) by {
                            if j == n {
                                assert(m.contains_key(cur@));
                            }
                        }
                        lemma_ends_within(m, start@, n as nat);
                    }
                    return false;
                }
                cur = copy_str(next.as_str());
                i = i + 1;
            },
        }
    }
}

/// [`get_index_url`] where it returns; `None` where it would follow a `replace-with` chain
/// that runs in a circle for ever.
pub fn index_url(config_file: &str, searched_config: &str, config: Option<&str>, registry: &str,
    registries_crates_io_protocol_sparse: bool) -> (r: Option<Result<(String, bool, String), String>>)
    ensures
        r is None <==> !index_url_returns(opt_text(config), registry@, registries_crates_io_protocol_sparse),
        r matches Some(x) ==> triple_view(x) == index_url_spec(config_file@, searched_config@, opt_text(config),
            registry@, registries_crates_io_protocol_sparse),
{
    if let Some(t) = config {
        if let Ok(doc) = parse_toml(t) {
            if let Ok(st) = scan_config_exec(&doc, registry, registries_crates_io_protocol_sparse) {
                if !parses_as_url(st.cur.as_str()) && !chain_ends_exec(&st.replacements, st.cur.as_str()) {
                    return None;
                }
            }
        }
    }
    Some(get_index_url(config_file, searched_config, config, registry, registries_crates_io_protocol_sparse))
}

/// Without a configuration file, crates.io resolves to itself: its git index, or its sparse
/// index when the sparse protocol is asked for; any other registry is an error.
pub proof fn law_crates_io_without_config(config_file: Seq<char>, searched: Seq<char>, registry: Seq<char>, sparse: bool)
    ensures
        registry == crates_io_index() ==> index_url_spec(config_file, searched, None, registry, sparse) == if sparse {
            Ok::<(Seq<char>, bool, Seq<char>), Seq<char>>(("https://index.crates.io/"@, true, "crates-io"@))
        } else {
            Ok::<(Seq<char>, bool, Seq<char>), Seq<char>>((crates_io_index(), false, "crates-io"@))
        },
        registry != crates_io_index() ==> index_url_spec(config_file, searched, None, registry, sparse) is Err,
{
}

/// The source a registry resolves to is not replaced by another one.
pub proof fn law_resolved_not_replaced(doc: TomlValue, registry: Seq<char>, sparse: bool)
    requires
        scan_config(doc, registry, sparse) matches Ok(st) && chain_ends(st.replacements, st.cur),
    ensures
        !scan_config(doc, registry, sparse)->Ok_0.replacements.contains_key(
            resolved(scan_config(doc, registry, sparse)->Ok_0.replacements, scan_config(doc, registry, sparse)->Ok_0.cur)),
{
}

/// The crates.io index is always known, by its git index or its sparse one.
pub proof fn law_crates_io_always_known(registry: Seq<char>, sparse: bool)
    ensures
        scan_start(registry, sparse).registries.contains_key("crates-io"@),
{
}

/// A `[registries.NAME]` table whose `index` is the registry's URL, either as it is (when it
/// does not itself start with `sparse+`) or behind `sparse+`, names that registry `NAME` and
/// records the index.
pub proof fn law_registry_index_names_source(st: SourceScan, name: Seq<char>, v: TomlValue)
    requires
        v.get_spec("index"@) matches Some(u) && u.str_spec() matches Some(us)
            && (us == "sparse+"@ + st.cur || (us == st.cur && !is_prefix("sparse+"@, us))),
    ensures
        registry_step(st, name, v).cur == name,
        registry_step(st, name, v).registries == st.registries.insert(name, v.get_spec("index"@)->0.str_spec()->0),
{
    let us = v.get_spec("index"@)->0.str_spec()->0;
    reveal_strlit("sparse+");
    if us == "sparse+"@ + st.cur {
        assert(us.subrange(0, 7) =~= "sparse+"@);
        assert(us.subrange(7, us.len() as int) =~= st.cur);
    }
}

/// A configuration with no `[source]` tables and one `[registries.NAME]` table whose index is
/// the registry's URL behind `sparse+` resolves that registry to the sparse index at that URL,
/// of the source `NAME` (a name that is not itself a URL).
pub proof fn law_sparse_registry_resolves(config_file: Seq<char>, searched: Seq<char>, text: Seq<char>, doc: TomlValue,
    registry: Seq<char>, sparse: bool, name: String, entry: TomlValue, idx: String)
    requires
        toml_document(text) == Ok::<TomlValue, Seq<char>>(doc),
        doc.get_spec("source"@) is None,
        doc.get_spec("registries"@) matches Some(TomlValue::Table(e)) && e@ == seq![(name, entry)],
        entry.get_spec("index"@) == Some(TomlValue::String(idx)),
        idx@ == "sparse+"@ + registry,
        registry != crates_io_index(),
        registry != crates_io_sparse(),
        !url_parses(name@),
    ensures
        index_url_spec(config_file, searched, Some(text), registry, sparse) == Ok::<(Seq<char>, bool, Seq<char>), Seq<char>>(
            (registry, true, name@)),
{
    let st0 = scan_start(registry, sparse);
    assert(st0.cur == registry);
    let e = match doc.get_spec("registries"@) {
        Some(TomlValue::Table(e)) => e,
        _ => arbitrary(),
    };
    assert(e@.drop_last() =~= Seq::<(String, TomlValue)>::empty());
    law_registry_index_names_source(st0, name@, entry);
    let st = scan_registries(st0, e@);
    assert(scan_registries(st0, e@.drop_last()) == st0);
    assert(e@.last() == (name, entry));
    assert(st == registry_step(st0, name@, entry));
    assert(st.cur == name@);
    assert(!st.replacements.contains_key(chase(st.replacements, st.cur, 0)));
    lemma_resolved(st.replacements, st.cur, 0);
    reveal_strlit("sparse+");
    assert(idx@.subrange(0, 7) =~= "sparse+"@);
    assert(idx@.subrange(7, idx@.len() as int) =~= registry);
}

} // verus!
