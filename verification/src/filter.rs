//! Filters that packages must match to be considered for updating.

use vstd::prelude::*;
use crate::text::{chars_of, string_of, find, is_prefix, is_suffix, lemma_find_from, find_char_from, copy_str, append_str,
    matches_at, chars_eq, strings_view};
use crate::cargo_config::{split_on, split_chars};
use crate::config::{PackageConfig, PackageConfigView};

verus! {

/// What a filter element looks at.
#[derive(Debug, Clone, PartialEq, Eq, Hash, PartialOrd, Ord)]
pub enum PackageFilterElementValue {
    /// Requires the configured toolchain to be this one.
    ///
    /// Parsed name: `"toolchain"`.
    Toolchain(String),
    /// Requires the package name to match a pattern in which `*` stands for any text; held as
    /// the pieces between the `*`s.
    ///
    /// Parsed name: `"name"`.
    Name(Vec<String>),
}

/// One of elements with which to filter required packages: whether it is negated (written
/// with a leading `!`), and what it looks at.
#[derive(Debug, Clone, PartialEq, Eq, Hash, PartialOrd, Ord)]
pub struct PackageFilterElement(pub bool, pub PackageFilterElementValue);

pub ghost enum FilterValueView {
    Toolchain(Seq<char>),
    Name(Seq<Seq<char>>),
}

pub ghost struct PackageFilterElementView {
    pub negated: bool,
    pub value: FilterValueView,
}

impl View for PackageFilterElementValue {
    type V = FilterValueView;

    open spec fn view(&self) -> FilterValueView {
        match self {
            PackageFilterElementValue::Toolchain(t) => FilterValueView::Toolchain(t@),
            PackageFilterElementValue::Name(p) => FilterValueView::Name(strings_view(p@)),
        }
    }
}

impl View for PackageFilterElement {
    type V = PackageFilterElementView;

    open spec fn view(&self) -> PackageFilterElementView {
        PackageFilterElementView { negated: self.0, value: self.1@ }
    }
}

/// What `PackageFilterElement::parse` gives for a `[!]key=value` text.
pub open spec fn parse_filter_spec(from: Seq<char>) -> Result<PackageFilterElementView, Seq<char>> {
    let negated = from.len() > 0 && from[0] == '!';
    let body = if negated { from.subrange(1, from.len() as int) } else { from };
    match find(body, '=') {
        None => Err("Filter string \""@ + from + "\" does not contain the key/value separator \"=\""@),
        Some(i) => {
            let key = body.subrange(0, i);
            let value = body.subrange(i + 1, body.len() as int);
            if key == "toolchain"@ {
                Ok(PackageFilterElementView { negated, value: FilterValueView::Toolchain(value) })
            } else if key == "name"@ {
                Ok(PackageFilterElementView { negated, value: FilterValueView::Name(split_on(value, '*')) })
            } else {
                Err("Unrecognised filter key \""@ + key + "\""@)
            }
        },
    }
}

/// `p` occurs in `s` at `i`.
pub open spec fn occurs_at(s: Seq<char>, p: Seq<char>, i: int) -> bool {
    0 <= i && i + p.len() <= s.len() && s.subrange(i, i + p.len()) == p
}

/// `s` matches `*p1*p2*...*pn`: the pieces occur in order without overlapping, the last one
/// at the end.
pub open spec fn star_match(s: Seq<char>, parts: Seq<Seq<char>>) -> bool
    decreases parts.len(),
{
    if parts.len() == 0 {
        true
    } else if parts.len() == 1 {
        is_suffix(parts[0], s)
    } else {
        exists|i: int| #[trigger] occurs_at(s, parts[0], i)
            && star_match(s.subrange(i + parts[0].len(), s.len() as int), parts.drop_first())
    }
}

/// A name matches the pattern `p0*p1*...*pn` (held as its pieces): `p0` exactly when there is
/// no `*`; otherwise it starts with `p0` and the rest matches `*p1*...*pn`.
pub open spec fn glob_match(name: Seq<char>, parts: Seq<Seq<char>>) -> bool {
    if parts.len() == 0 {
        false
    } else if parts.len() == 1 {
        name == parts[0]
    } else {
        is_prefix(parts[0], name) && star_match(name.subrange(parts[0].len() as int, name.len() as int), parts.drop_first())
    }
}

/// Whether what a filter looks at holds of a package: its name, and its configuration if any.
pub open spec fn value_matches(v: FilterValueView, name: Seq<char>, cfg: Option<PackageConfigView>) -> bool {
    match v {
        FilterValueView::Toolchain(chain) => match cfg {
            Some(c) => c.toolchain == Some(chain),
            None => false,
        },
        FilterValueView::Name(parts) => glob_match(name, parts),
    }
}

/// Whether a package passes a filter element: the element's test, or its opposite when negated.
pub open spec fn element_matches(e: PackageFilterElementView, name: Seq<char>, cfg: Option<PackageConfigView>) -> bool {
    value_matches(e.value, name, cfg) != e.negated
}

pub open spec fn opt_cfg_view(cfg: Option<&PackageConfig>) -> Option<PackageConfigView> {
    match cfg {
        Some(c) => Some(c@),
        None => None,
    }
}

/// Occurrences in `s[pos..]` are those in `s` shifted by `pos`.
proof fn lemma_occurs_shift(s: Seq<char>, p: Seq<char>, pos: int, k: int)
    requires
        0 <= pos <= s.len(),
        0 <= k,
    ensures
        occurs_at(s.subrange(pos, s.len() as int), p, k) == occurs_at(s, p, pos + k),
{
    let t = s.subrange(pos, s.len() as int);
    if k + p.len() <= t.len() {
        assert(t.subrange(k, k + p.len()) =~= s.subrange(pos + k, pos + k + p.len()));
    }
}

/// Matching `*p1*...*pn` survives putting more text in front.
proof fn lemma_star_mono(s: Seq<char>, parts: Seq<Seq<char>>, a: int, b: int)
    requires
        0 <= b <= a <= s.len(),
        star_match(s.subrange(a, s.len() as int), parts),
    ensures
        star_match(s.subrange(b, s.len() as int), parts),
{
    let ta = s.subrange(a, s.len() as int);
    let tb = s.subrange(b, s.len() as int);
    if parts.len() == 1 {
        let p = parts[0];
        assert(tb.subrange(tb.len() - p.len(), tb.len() as int) =~= ta.subrange(ta.len() - p.len(), ta.len() as int));
    } else if parts.len() >= 2 {
        let p = parts[0];
        let i = choose|i: int| #[trigger] occurs_at(ta, p, i)
            && star_match(ta.subrange(i + p.len(), ta.len() as int), parts.drop_first());
        let j = i + (a - b);
        assert(tb.subrange(j, j + p.len()) =~= ta.subrange(i, i + p.len()));
        assert(tb.subrange(j + p.len(), tb.len() as int) =~= ta.subrange(i + p.len(), ta.len() as int));
        assert(occurs_at(tb, p, j));
    }
}

/// With two pieces or more, the first piece may be taken at its leftmost occurrence.
proof fn lemma_star_leftmost(t: Seq<char>, parts: Seq<Seq<char>>, j: int)
    requires
        parts.len() >= 2,
        occurs_at(t, parts[0], j),
        forall|k: int| 0 <= k < j ==> !occurs_at(t, parts[0], k),
    ensures
        star_match(t, parts) == star_match(t.subrange(j + parts[0].len(), t.len() as int), parts.drop_first()),
{
    let p = parts[0];
    if star_match(t, parts) {
        let i = choose|i: int| #[trigger] occurs_at(t, p, i)
            && star_match(t.subrange(i + p.len(), t.len() as int), parts.drop_first());
        assert(i >= j);
        lemma_star_mono(t, parts.drop_first(), i + p.len(), j + p.len());
    }
    if star_match(t.subrange(j + p.len(), t.len() as int), parts.drop_first()) {
        assert(occurs_at(t, p, j));
    }
}

/// The leftmost occurrence of `p` in `v` at or after `from`.
fn find_occurrence(v: &Vec<char>, p: &Vec<char>, from: usize) -> (r: Option<usize>)
    requires
        from <= v.len(),
    ensures
        match r {
            Some(i) => from <= i && occurs_at(v@, p@, i as int)
                && forall|k: int| from <= k < i ==> !occurs_at(v@, p@, k),
            None => forall|k: int| from <= k ==> !occurs_at(v@, p@, k),
        },
{
    let mut i = from;
    while p.len() <= v.len() - i
        invariant
            from <= i <= v.len(),
            forall|k: int| from <= k < i ==> !occurs_at(v@, p@, k),
        decreases v.len() - i,
    {
        let m = matches_at(v, i, p);
        assert(v@.subrange(i as int, v.len() as int).subrange(0, p.len() as int) =~= v@.subrange(i as int, i + p.len()));
        if m {
            return Some(i);
        }
        if p.len() == 0 {
            assert(v@.subrange(i as int, i as int) =~= p@);
            assert(false);
        }
        i = i + 1;
    }
    None
}

/// Whether a name matches a pattern held as its pieces between `*`s.
pub fn name_matches(name: &str, parts: &Vec<String>) -> (r: bool)
    ensures
        r == glob_match(name@, strings_view(parts@)),
{
    let ghost sv = strings_view(parts@);
    let n = parts.len();
    if n == 0 {
        return false;
    }
    let v = chars_of(name);
    let p0 = chars_of(parts[0].as_str());
    assert(p0@ == sv[0]);
    if n == 1 {
        return chars_eq(&v, &p0);
    }
    assert(v@.subrange(0, v.len() as int) =~= v@);
    if !matches_at(&v, 0, &p0) {
        return false;
    }
    let ghost goal = star_match(v@.subrange(p0.len() as int, v.len() as int), sv.drop_first());
    assert(goal == glob_match(name@, sv));
    let mut k: usize = 1;
    let mut pos: usize = p0.len();
    assert(sv.subrange(1, n as int) =~= sv.drop_first());
    while k + 1 < n
        invariant
            n == parts.len(),
            n >= 2,
            1 <= k <= n - 1,
            pos <= v.len(),
            sv == strings_view(parts@),
            v@ == name@,
            goal == glob_match(name@, sv),
            goal == star_match(v@.subrange(pos as int, v.len() as int), sv.subrange(k as int, n as int)),
        decreases n - k,
    {
        let p = chars_of(parts[k].as_str());
        let ghost t = v@.subrange(pos as int, v.len() as int);
        let ghost ps = sv.subrange(k as int, n as int);
        assert(ps[0] == p@);
        assert(ps.drop_first() =~= sv.subrange(k + 1, n as int));
        match find_occurrence(&v, &p, pos) {
            None => {
                proof {
                    assert(ps.len() >= 2);
                    if star_match(t, ps) {
                        let i = choose|i: int| #[trigger] occurs_at(t, ps[0], i)
                            && star_match(t.subrange(i + ps[0].len(), t.len() as int), ps.drop_first());
                        assert(occurs_at(t, p@, i));
                        lemma_occurs_shift(v@, p@, pos as int, i);
                        assert(occurs_at(v@, p@, pos + i));
                        assert(false);
                    }
                    assert(!goal);
                }
                return false;
            },
            Some(i) => {
                proof {
                    let j = i - pos;
                    lemma_occurs_shift(v@, p@, pos as int, j);
                    assert forall|kk: int| 0 <= kk < j implies !occurs_at(t, ps[0], kk) by {
                        lemma_occurs_shift(v@, p@, pos as int, kk);
                    }
                    lemma_star_leftmost(t, ps, j);
                    assert(t.subrange(j + p@.len(), t.len() as int) =~= v@.subrange(i + p@.len(), v.len() as int));
                }
                pos = i + p.len();
                k = k + 1;
            },
        }
    }
    let last = chars_of(parts[k].as_str());
    let ghost t = v@.subrange(pos as int, v.len() as int);
    assert(sv.subrange(k as int, n as int) =~= seq![last@]);
    if last.len() > v.len() - pos {
        return false;
    }
    let at = v.len() - last.len();
    let r = matches_at(&v, at, &last);
    assert(v@.subrange(at as int, v.len() as int).subrange(0, last.len() as int) =~= v@.subrange(at as int, v.len() as int));
    assert(t.subrange(t.len() - last@.len(), t.len() as int) =~= v@.subrange(at as int, v.len() as int));
    r
}

impl PackageFilterElement {
    /// Parses one filter specifier, `key=value` or `!key=value`, into a package filter.
    pub fn parse(from: &str) -> (r: Result<PackageFilterElement, String>)
        ensures
            match r {
                Ok(e) => parse_filter_spec(from@) == Ok::<PackageFilterElementView, Seq<char>>(e@),
                Err(m) => parse_filter_spec(from@) == Err::<PackageFilterElementView, Seq<char>>(m@),
            },
    {
        let all = chars_of(from);
        let negated = all.len() > 0 && all[0] == '!';
        let body = if negated { string_of(&all, 1, all.len()) } else { string_of(&all, 0, all.len()) };
        assert(all@.subrange(0, all.len() as int) =~= all@);
        let v = chars_of(body.as_str());
        proof {
            lemma_find_from(v@, '=', 0);
        }
        match find_char_from(&v, '=', 0) {
            None => {
                let mut m = copy_str("Filter string \"");
                append_str(&mut m, from);
                append_str(&mut m, "\" does not contain the key/value separator \"=\"");
                Err(m)
            },
            Some(i) => {
                let key = string_of(&v, 0, i);
                if crate::text::str_eq(key.as_str(), "toolchain") {
                    let value = string_of(&v, i + 1, v.len());
                    Ok(PackageFilterElement(negated, PackageFilterElementValue::Toolchain(value)))
                } else if crate::text::str_eq(key.as_str(), "name") {
                    let pieces = split_chars(&v, i + 1, '*');
                    Ok(PackageFilterElement(negated, PackageFilterElementValue::Name(pieces)))
                } else {
                    let mut m = copy_str("Unrecognised filter key \"");
                    append_str(&mut m, key.as_str());
                    append_str(&mut m, "\"");
                    Err(m)
                }
            },
        }
    }

    /// Whether a package, by its name and configuration (if it has one), passes this filter.
    pub fn matches(&self, name: &str, cfg: Option<&PackageConfig>) -> (r: bool)
        ensures
            r == element_matches(self@, name@, opt_cfg_view(cfg)),
    {
        let m = match &self.1 {
            PackageFilterElementValue::Toolchain(chain) => match cfg {
                Some(c) => match &c.toolchain {
                    Some(t) => crate::text::str_eq(chain.as_str(), t.as_str()),
                    None => false,
                },
                None => false,
            },
            PackageFilterElementValue::Name(parts) => name_matches(name, parts),
        };
        m != self.0
    }
}

/// The first occurrence of `c` is at `i` when `s[i] == c` and no earlier character is `c`.
proof fn lemma_find_first(s: Seq<char>, c: char, i: int)
    requires
        0 <= i < s.len(),
        s[i] == c,
        forall|k: int| 0 <= k < i ==> s[k] != c,
    ensures
        find(s, c) == Some(i),
{
    lemma_find_first_from(s, c, 0, i);
}

proof fn lemma_find_first_from(s: Seq<char>, c: char, from: int, i: int)
    requires
        0 <= from <= i < s.len(),
        s[i] == c,
        forall|k: int| from <= k < i ==> s[k] != c,
    ensures
        crate::text::find_from(s, c, from) == Some(i),
    decreases i - from,
{
    if from < i {
        lemma_find_first_from(s, c, from + 1, i);
    }
}

/// A `toolchain=NAME` filter is the toolchain filter for `NAME`, which a package passes
/// exactly when its configuration names that toolchain.
pub proof fn law_toolchain_filter(name: Seq<char>, pkg: Seq<char>, cfg: Option<PackageConfigView>)
    ensures
        parse_filter_spec("toolchain="@ + name) == Ok::<PackageFilterElementView, Seq<char>>(
            PackageFilterElementView { negated: false, value: FilterValueView::Toolchain(name) }),
        element_matches(PackageFilterElementView { negated: false, value: FilterValueView::Toolchain(name) }, pkg, cfg)
            == (cfg matches Some(c) && c.toolchain == Some(name)),
{
    let s = "toolchain="@ + name;
    reveal_strlit("toolchain=");
    reveal_strlit("toolchain");
    assert(s[9] == '=');
    assert forall|k: int| 0 <= k < 9 implies s[k] != '=' by {}
    lemma_find_first(s, '=', 9);
    assert(s.subrange(0, 9) =~= "toolchain"@);
    assert(s.subrange(10, s.len() as int) =~= name);
}

/// A leading `!` gives the same filter, negated: a package passes it exactly when it does
/// not pass the filter without the `!`; a text that is no filter stays none with the `!`.
pub proof fn law_negation(s: Seq<char>, pkg: Seq<char>, cfg: Option<PackageConfigView>)
    requires
        !(s.len() > 0 && s[0] == '!'),
    ensures
        match (parse_filter_spec(seq!['!'] + s), parse_filter_spec(s)) {
            (Ok(n), Ok(e)) => n.negated && !e.negated && n.value == e.value
                && element_matches(n, pkg, cfg) == !element_matches(e, pkg, cfg),
            (Err(_), Err(_)) => true,
            _ => false,
        },
{
    let t = seq!['!'] + s;
    assert(t.subrange(1, t.len() as int) =~= s);
}

/// A `name=PATTERN` filter without `*` is passed by exactly the package of that name.
pub proof fn law_name_without_star(pattern: Seq<char>, pkg: Seq<char>, cfg: Option<PackageConfigView>)
    requires
        !pattern.contains('*'),
    ensures
        parse_filter_spec("name="@ + pattern) == Ok::<PackageFilterElementView, Seq<char>>(
            PackageFilterElementView { negated: false, value: FilterValueView::Name(seq![pattern]) }),
        element_matches(PackageFilterElementView { negated: false, value: FilterValueView::Name(seq![pattern]) }, pkg, cfg)
            == (pkg == pattern),
{
    let s = "name="@ + pattern;
    reveal_strlit("name=");
    reveal_strlit("name");
    reveal_strlit("toolchain");
    assert(s[4] == '=');
    assert forall|k: int| 0 <= k < 4 implies s[k] != '=' by {}
    lemma_find_first(s, '=', 4);
    assert(s.subrange(0, 4) =~= "name"@);
    assert(s.subrange(5, s.len() as int) =~= pattern);
    lemma_find_from(pattern, '*', 0);
    if find(pattern, '*') is Some {
        let i = find(pattern, '*')->0;
        assert(pattern.contains('*'));
    }
    assert(s.subrange(0, 4) != "toolchain"@) by {
        assert(s.subrange(0, 4).len() != "toolchain"@.len());
    }
}

/// A package is considered when it is not excluded and passes every filter.
pub open spec fn selected_spec(name: Seq<char>, config: Option<PackageConfigView>, filters: Seq<PackageFilterElementView>,
    to_exclude: Seq<Seq<char>>) -> bool {
    !to_exclude.contains(name)
        && forall|i: int| 0 <= i < filters.len() ==> element_matches(#[trigger] filters[i], name, config)
}

pub open spec fn filters_view(f: Seq<PackageFilterElement>) -> Seq<PackageFilterElementView> {
    f.map_values(|e: PackageFilterElement| e@)
}

pub fn package_selected(name: &str, config: Option<&PackageConfig>, filters: &Vec<PackageFilterElement>, to_exclude: &Vec<String>) -> (r: bool)
    ensures
        r == selected_spec(name@, opt_cfg_view(config), filters_view(filters@), strings_view(to_exclude@)),
{
    let ghost ex = strings_view(to_exclude@);
    let mut i: usize = 0;
    while i < to_exclude.len()
        invariant
            i <= to_exclude.len(),
            ex == strings_view(to_exclude@),
            forall|k: int| 0 <= k < i ==> ex[k] != name@,
        decreases to_exclude.len() - i,
    {
        if crate::text::str_eq(to_exclude[i].as_str(), name) {
            assert(ex[i as int] == name@);
            return false;
        }
        i = i + 1;
    }
    let ghost fv = filters_view(filters@);
    let mut j: usize = 0;
    while j < filters.len()
        invariant
            j <= filters.len(),
            fv == filters_view(filters@),
            forall|k: int| 0 <= k < j ==> element_matches(#[trigger] fv[k], name@, opt_cfg_view(config)),
        decreases filters.len() - j,
    {
        if !filters[j].matches(name, config) {
            assert(fv[j as int] == filters@[j as int]@);
            return false;
        }
        j = j + 1;
    }
    true
}

} // verus!
