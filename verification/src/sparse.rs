//! The version lists of a registry index: the JSON lines of an index entry, their order, and
//! what is fetched from a sparse index.

use vstd::prelude::*;
use crate::sorted::lookup;
use crate::version::{Semver, SemverView, semver_parse, result_view};
use crate::env::sub_bytes;
use crate::text::{copy_str, append_str, push_char};

verus! {

/// A JSON value, as plain values. Numbers keep the bytes of their two parts.
#[derive(Debug)]
pub enum JsonValue {
    Null,
    String(String),
    Float(Vec<u8>, Vec<u8>),
    Integer(Vec<u8>, Vec<u8>),
    Bool(bool),
    Object(Vec<(String, JsonValue)>),
    Array(Vec<JsonValue>),
}

/// `json_deserializer::Value`, carried only through the conversion below.
#[verifier::external_type_specification]
#[verifier::external_body]
pub struct ExJsonValue<'a>(json_deserializer::Value<'a>);

/// What `json_deserializer::parse` makes of some bytes: the value, or the error's message.
pub uninterp spec fn json_value(bytes: Seq<u8>) -> Result<JsonValue, Seq<char>>;

/// Copies a `json_deserializer::Value` into a [`JsonValue`], entry for entry, in the order the
/// object yields its entries. Nothing is stated of it: it only changes the representation.
#[verifier::external_body]
fn json_value_of(v: &json_deserializer::Value) -> JsonValue {
    match v {
        json_deserializer::Value::Null => JsonValue::Null,
        json_deserializer::Value::String(s) => JsonValue::String(s.to_string()),
        json_deserializer::Value::Number(json_deserializer::Number::Float(a, b)) => JsonValue::Float(a.to_vec(), b.to_vec()),
        json_deserializer::Value::Number(json_deserializer::Number::Integer(a, b)) => JsonValue::Integer(a.to_vec(), b.to_vec()),
        json_deserializer::Value::Bool(b) => JsonValue::Bool(*b),
        json_deserializer::Value::Object(o) => JsonValue::Object(o.iter().map(|(k, e)| (k.clone(), json_value_of(e))).collect()),
        json_deserializer::Value::Array(a) => JsonValue::Array(a.iter().map(json_value_of).collect()),
    }
}

/// Calls `json_deserializer::parse`.
///
/// Claims that the result is the named `json_value` of the bytes. The parser panics (slicing
/// past the end) on an unfinished `\u` escape with three bytes left, and on an object whose
/// last item is followed by `,` and nothing else; `requires` leaves out every input ending so
/// (see [`json_safe`]), which also leaves out some other invalid inputs ending alike.
/// Exhausting the stack on input nested deeper than it can hold is not excluded.
#[verifier::external_body]
fn json_parse(bytes: &[u8]) -> (r: Result<JsonValue, String>)
    requires
        json_safe(bytes@),
    ensures
        match r {
            Ok(v) => json_value(bytes@) == Ok::<JsonValue, Seq<char>>(v),
            Err(e) => json_value(bytes@) == Err::<JsonValue, Seq<char>>(e@),
        },
{
    match json_deserializer::parse(bytes) {
        Ok(v) => Ok(json_value_of(&v)),
        Err(e) => Err(e.to_string()),
    }
}

/// The value of `key` in an object.
fn json_get<'a>(o: &'a Vec<(String, JsonValue)>, key: &str) -> (r: Option<&'a JsonValue>)
    ensures
        match r {
            Some(v) => lookup(o@, key@) == Some(*v),
            None => lookup(o@, key@) is None,
        },
{
    let mut i: usize = 0;
    assert(o@.subrange(0, o.len() as int) =~= o@);
    while i < o.len()
        invariant
            i <= o.len(),
            lookup(o@, key@) == lookup(o@.subrange(i as int, o.len() as int), key@),
        decreases o.len() - i,
    {
        assert(o@.subrange(i as int, o.len() as int).drop_first() =~= o@.subrange(i + 1, o.len() as int));
        if crate::text::str_eq(o[i].0.as_str(), key) {
            return Some(&o[i].1);
        }
        i = i + 1;
    }
    None
}

/// Splitting bytes at `\n`: the lines completed so far and the line being read.
pub open spec fn split_state(buf: Seq<u8>) -> (Seq<Seq<u8>>, Seq<u8>)
    decreases buf.len(),
{
    if buf.len() == 0 {
        (seq![], seq![])
    } else {
        let (done, cur) = split_state(buf.drop_last());
        if buf.last() == 10 {
            (if cur.len() > 0 { done.push(cur) } else { done }, seq![])
        } else {
            (done, cur.push(buf.last()))
        }
    }
}

/// The non-empty lines of some bytes.
pub open spec fn lines(buf: Seq<u8>) -> Seq<Seq<u8>> {
    let (done, cur) = split_state(buf);
    if cur.len() > 0 {
        done.push(cur)
    } else {
        done
    }
}

/// One line of an index entry: a JSON object whose `vers` is a version, skipped when its
/// `yanked` is `true`.
pub open spec fn version_line(acc: Seq<SemverView>, line: Seq<u8>) -> Result<Seq<SemverView>, Seq<char>> {
    match json_value(line) {
        Err(e) => Err(e),
        Ok(JsonValue::Object(o)) => if lookup(o@, "yanked"@) == Some(JsonValue::Bool(true)) {
            Ok(acc)
        } else {
            match lookup(o@, "vers"@) {
                None => Err("no \"vers\" key"@),
                Some(JsonValue::String(v)) => match semver_parse(v@) {
                    Ok(sv) => Ok(acc.push(sv)),
                    Err(e) => Err(e),
                },
                Some(_) => Err("\"vers\" not string"@),
            }
        },
        Ok(_) => Err("line not object"@),
    }
}

/// The versions of the lines, in order; the first error stops.
pub open spec fn versions_of(ls: Seq<Seq<u8>>) -> Result<Seq<SemverView>, Seq<char>>
    decreases ls.len(),
{
    if ls.len() == 0 {
        Ok(seq![])
    } else {
        match versions_of(ls.drop_last()) {
            Err(e) => Err(e),
            Ok(acc) => version_line(acc, ls.last()),
        }
    }
}

/// JSON whitespace: line feed, space, carriage return, tab.
pub open spec fn json_space(b: u8) -> bool {
    b == 10u8 || b == 32u8 || b == 13u8 || b == 9u8
}

/// The bytes end with `\u` and then exactly three more bytes.
pub open spec fn ends_in_cut_unicode_escape(b: Seq<u8>) -> bool {
    b.len() >= 5 && b[b.len() - 5] == 92u8 && b[b.len() - 4] == 117u8
}

/// The last byte other than whitespace is a `,`.
pub open spec fn ends_in_comma(b: Seq<u8>) -> bool {
    exists|i: int| 0 <= i < b.len() && #[trigger] b[i] == 44u8 && forall|j: int| i < j < b.len() ==> json_space(b[j])
}

/// Bytes on which `json_deserializer::parse` returns: neither ending of the two that make it
/// slice past the end.
pub open spec fn json_safe(b: Seq<u8>) -> bool {
    !ends_in_cut_unicode_escape(b) && !ends_in_comma(b)
}

/// See [`json_safe`].
pub fn json_safe_exec(b: &[u8]) -> (r: bool)
    ensures
        r == json_safe(b@),
{
    let n = b.len();
    if n >= 5 && b[n - 5] == 92u8 && b[n - 4] == 117u8 {
        return false;
    }
    let mut i = n;
    while i > 0
        invariant
            i <= n,
            n == b.len(),
            !ends_in_cut_unicode_escape(b@),
            forall|j: int| i <= j < n ==> json_space(b@[j]),
        decreases i,
    {
        let c = b[i - 1];
        if c == 10u8 || c == 32u8 || c == 13u8 || c == 9u8 {
            i = i - 1;
        } else {
            if c == 44u8 {
                assert(b@[i - 1] == 44u8);
                return false;
            }
            proof {
                assert(!json_space(b@[i - 1]));
                if ends_in_comma(b@) {
                    let k = choose|k: int| 0 <= k < b@.len() && #[trigger] b@[k] == 44u8
                        && forall|j: int| k < j < b@.len() ==> json_space(b@[j]);
                    if k < i - 1 {
                        assert(json_space(b@[i - 1]));
                    } else if k >= i {
                        assert(json_space(b@[k]));
                    }
                }
            }
            return true;
        }
    }
    proof {
        if ends_in_comma(b@) {
            let k = choose|k: int| 0 <= k < b@.len() && #[trigger] b@[k] == 44u8
                && forall|j: int| k < j < b@.len() ==> json_space(b@[j]);
            assert(json_space(b@[k]));
        }
    }
    true
}

/// The parser is only asked about lines that are reached: each line whose predecessors all
/// gave versions is [`json_safe`].
pub open spec fn versions_safe(ls: Seq<Seq<u8>>) -> bool
    decreases ls.len(),
{
    if ls.len() == 0 {
        true
    } else {
        versions_safe(ls.drop_last()) && (versions_of(ls.drop_last()) is Ok ==> json_safe(ls.last()))
    }
}

/// Once the lines before `k` fail, the lines after them are never parsed.
proof fn lemma_safe_after_err(ls: Seq<Seq<u8>>, k: nat)
    requires
        k <= ls.len(),
        versions_safe(ls.subrange(0, k as int)),
        versions_of(ls.subrange(0, k as int)) is Err,
    ensures
        versions_safe(ls),
    decreases ls.len() - k,
{
    if k < ls.len() {
        assert(ls.subrange(0, k as int + 1).drop_last() =~= ls.subrange(0, k as int));
        lemma_safe_after_err(ls, k + 1);
    } else {
        assert(ls.subrange(0, k as int) =~= ls);
    }
}

/// A line reached and not safe makes all the lines not safe.
proof fn lemma_unsafe_prefix(ls: Seq<Seq<u8>>, k: nat)
    requires
        k <= ls.len(),
        !versions_safe(ls.subrange(0, k as int)),
    ensures
        !versions_safe(ls),
    decreases ls.len() - k,
{
    if k < ls.len() {
        assert(ls.subrange(0, k as int + 1).drop_last() =~= ls.subrange(0, k as int));
        lemma_unsafe_prefix(ls, k + 1);
    } else {
        assert(ls.subrange(0, k as int) =~= ls);
    }
}

pub open spec fn semvers_view(v: Seq<Semver>) -> Seq<SemverView> {
    v.map_values(|s: Semver| s@)
}

pub open spec fn versions_result_view(r: Result<Vec<Semver>, String>) -> Result<Seq<SemverView>, Seq<char>> {
    match r {
        Ok(v) => Ok(semvers_view(v@)),
        Err(e) => Err(e@),
    }
}

pub open spec fn all_wf(v: Seq<Semver>) -> bool {
    forall|i: int| 0 <= i < v.len() ==> (#[trigger] v[i])@.wf()
}

/// An error part-way through the lines is the error of all of them.
proof fn lemma_versions_err(ls: Seq<Seq<u8>>, k: nat)
    requires
        k <= ls.len(),
        versions_of(ls.subrange(0, k as int)) is Err,
    ensures
        versions_of(ls) == versions_of(ls.subrange(0, k as int)),
    decreases ls.len() - k,
{
    if k < ls.len() {
        assert(ls.subrange(0, k as int + 1).drop_last() =~= ls.subrange(0, k as int));
        lemma_versions_err(ls, k + 1);
    } else {
        assert(ls.subrange(0, k as int) =~= ls);
    }
}

/// Adds the versions of one line to `acc`.
fn version_line_exec(acc: &mut Vec<Semver>, line: &[u8]) -> (r: Result<(), String>)
    requires
        all_wf(old(acc)@),
        json_safe(line@),
    ensures
        all_wf(final(acc)@),
        match r {
            Ok(()) => version_line(semvers_view(old(acc)@), line@) == Ok::<Seq<SemverView>, Seq<char>>(semvers_view(final(acc)@)),
            Err(e) => version_line(semvers_view(old(acc)@), line@) == Err::<Seq<SemverView>, Seq<char>>(e@),
        },
{
    let v = json_parse(line);
    match v {
        Err(e) => Err(e),
        Ok(JsonValue::Object(o)) => {
            let yanked = match json_get(&o, "yanked") {
                Some(JsonValue::Bool(b)) => *b,
                _ => false,
            };
            if yanked {
                return Ok(());
            }
            match json_get(&o, "vers") {
                None => Err(copy_str("no \"vers\" key")),
                Some(JsonValue::String(vs)) => match Semver::parse(vs.as_str()) {
                    Ok(sv) => {
                        let ghost before = acc@;
                        acc.push(sv);
                        assert(semvers_view(acc@) =~= semvers_view(before).push(sv@));
                        Ok(())
                    },
                    Err(e) => Err(e),
                },
                Some(_) => Err(copy_str("\"vers\" not string")),
            }
        },
        Ok(_) => Err(copy_str("line not object")),
    }
}

/// Reads the versions of the lines as [`crate_versions`] does; `None` at the first line reached
/// that the parser would not return on.
fn scan_versions(buf: &[u8]) -> (r: Option<Result<Vec<Semver>, String>>)
    ensures
        r is Some == versions_safe(lines(buf@)),
        r matches Some(x) ==> versions_result_view(x) == versions_of(lines(buf@)) && (x matches Ok(v) ==> all_wf(v@)),
{
    let mut acc: Vec<Semver> = Vec::new();
    let mut start: usize = 0;
    let mut i: usize = 0;
    let ghost mut done: Seq<Seq<u8>> = seq![];
    assert(semvers_view(acc@) =~= seq![]);
    assert(buf@.subrange(0, 0) =~= seq![]);
    while i < buf.len()
        invariant
            start <= i <= buf.len(),
            split_state(buf@.subrange(0, i as int)) == (done, buf@.subrange(start as int, i as int)),
            versions_of(done) == Ok::<Seq<SemverView>, Seq<char>>(semvers_view(acc@)),
            versions_safe(done),
            all_wf(acc@),
        decreases buf.len() - i,
    {
        assert(buf@.subrange(0, i + 1).drop_last() =~= buf@.subrange(0, i as int));
        if buf[i] == 10u8 {
            if start < i {
                let line = sub_bytes(buf, start, i);
                if !json_safe_exec(line.as_slice()) {
                    proof {
                        let nd = done.push(line@);
                        assert(nd.drop_last() =~= done);
                        lemma_done_prefix(buf@, (i + 1) as nat, nd);
                        let k = nd.len();
                        assert(lines(buf@).subrange(0, k as int) =~= nd);
                        lemma_unsafe_prefix(lines(buf@), k);
                    }
                    return None;
                }
                match version_line_exec(&mut acc, line.as_slice()) {
                    Ok(()) => {},
                    Err(e) => {
                        proof {
                            let nd = done.push(line@);
                            assert(nd.drop_last() =~= done);
                            lemma_done_prefix(buf@, (i + 1) as nat, nd);
                            let k = nd.len();
                            assert(lines(buf@).subrange(0, k as int) =~= nd);
                            lemma_versions_err(lines(buf@), k);
                            lemma_safe_after_err(lines(buf@), k);
                        }
                        return Some(Err(e));
                    },
                }
                proof {
                    let nd = done.push(line@);
                    assert(nd.drop_last() =~= done);
                    done = nd;
                }
            }
            start = i + 1;
        }
        i = i + 1;
        assert(buf@.subrange(start as int, i as int) =~= if buf@[i - 1] == 10 { seq![] } else { buf@.subrange(start as int, i - 1).push(buf@[i - 1]) });
    }
    assert(buf@.subrange(0, buf.len() as int) =~= buf@);
    if start < buf.len() {
        let line = sub_bytes(buf, start, buf.len());
        proof {
            let nd = done.push(line@);
            assert(nd.drop_last() =~= done);
            assert(lines(buf@) == nd);
        }
        if !json_safe_exec(line.as_slice()) {
            return None;
        }
        let res = version_line_exec(&mut acc, line.as_slice());
        match res {
            Ok(()) => Some(Ok(acc)),
            Err(e) => Some(Err(e)),
        }
    } else {
        Some(Ok(acc))
    }
}

/// The versions listed in an index entry: one JSON object per line, skipping yanked ones;
/// the error names what is wrong with the first bad line. The JSON parser must return on
/// every line reached.
pub fn crate_versions(buf: &[u8]) -> (r: Result<Vec<Semver>, String>)
    requires
        versions_safe(lines(buf@)),
    ensures
        versions_result_view(r) == versions_of(lines(buf@)),
        r matches Ok(v) ==> all_wf(v@),
{
    match scan_versions(buf) {
        Some(x) => x,
        None => {
            assert(false);
            Ok(Vec::new())
        },
    }
}

/// [`crate_versions`], or `None` where the JSON parser would not return on a line reached.
pub fn crate_versions_checked(buf: &[u8]) -> (r: Option<Result<Vec<Semver>, String>>)
    ensures
        r is Some == versions_safe(lines(buf@)),
        r matches Some(x) ==> versions_result_view(x) == versions_of(lines(buf@)) && (x matches Ok(v) ==> all_wf(v@)),
{
    if scan_versions(buf).is_some() {
        Some(crate_versions(buf))
    } else {
        None
    }
}

/// The lines completed within the first `n` bytes begin the lines of all of them.
proof fn lemma_done_prefix(buf: Seq<u8>, n: nat, done: Seq<Seq<u8>>)
    requires
        n <= buf.len(),
        split_state(buf.subrange(0, n as int)).0 == done,
        split_state(buf.subrange(0, n as int)).1.len() == 0,
    ensures
        done.len() <= lines(buf).len(),
        lines(buf).subrange(0, done.len() as int) == done,
{
    lemma_split_prefix(buf, n, buf.len());
    assert(buf.subrange(0, buf.len() as int) =~= buf);
    let full = split_state(buf).0;
    if split_state(buf).1.len() > 0 {
        assert(lines(buf).subrange(0, done.len() as int) =~= full.subrange(0, done.len() as int));
    }
}

/// The lines completed within the first `n` bytes begin those completed within the first `m`.
proof fn lemma_split_prefix(buf: Seq<u8>, n: nat, m: nat)
    requires
        n <= m <= buf.len(),
    ensures
        split_state(buf.subrange(0, n as int)).0.len() <= split_state(buf.subrange(0, m as int)).0.len(),
        split_state(buf.subrange(0, m as int)).0.subrange(0, split_state(buf.subrange(0, n as int)).0.len() as int)
            == split_state(buf.subrange(0, n as int)).0,
    decreases m - n,
{
    let d1 = split_state(buf.subrange(0, n as int)).0;
    if n < m {
        lemma_split_prefix(buf, n, (m - 1) as nat);
        assert(buf.subrange(0, m as int).drop_last() =~= buf.subrange(0, m - 1));
        let dp = split_state(buf.subrange(0, m - 1)).0;
        let dm = split_state(buf.subrange(0, m as int)).0;
        assert(dm.subrange(0, d1.len() as int) =~= dp.subrange(0, d1.len() as int));
    } else {
        assert(d1.subrange(0, d1.len() as int) =~= d1);
    }
}

/// Each version is at most the next in `semver`'s order.
pub open spec fn versions_sorted(s: Seq<Semver>) -> bool {
    forall|i: int| 0 <= i && i + 1 < s.len() ==> crate::version::semver_order((#[trigger] s[i])@, s[i + 1]@) <= 0
}

proof fn lemma_multiset_insert<A>(s: Seq<A>, p: int, x: A)
    requires
        0 <= p <= s.len(),
    ensures
        s.insert(p, x).to_multiset() == s.to_multiset().insert(x),
{
    broadcast use vstd::seq_lib::group_to_multiset_ensures;
    let t = s.insert(p, x);
    assert(t.remove(p) =~= s);
    assert(t[p] == x);
    assert(t.to_multiset().count(x) > 0);
    assert(t.to_multiset() =~= s.to_multiset().insert(x));
}

/// Sorts versions into `semver`'s order.
pub fn sort_versions(v: Vec<Semver>) -> (r: Vec<Semver>)
    requires
        all_wf(v@),
    ensures
        r@.to_multiset() == v@.to_multiset(),
        semvers_view(r@).to_multiset() == semvers_view(v@).to_multiset(),
        versions_sorted(r@),
        all_wf(r@),
{
    broadcast use vstd::seq_lib::group_to_multiset_ensures;
    let ghost orig = v@;
    let mut v = v;
    let mut r: Vec<Semver> = Vec::new();
    assert(r@.to_multiset().add(v@.to_multiset()) =~= orig.to_multiset());
    assert(semvers_view(r@).to_multiset().add(semvers_view(v@).to_multiset()) =~= semvers_view(orig).to_multiset());
    while v.len() > 0
        invariant
            r@.to_multiset().add(v@.to_multiset()) == orig.to_multiset(),
            semvers_view(r@).to_multiset().add(semvers_view(v@).to_multiset()) == semvers_view(orig).to_multiset(),
            versions_sorted(r@),
            all_wf(r@),
            all_wf(v@),
        decreases v.len(),
    {
        let ghost vb = v@;
        let x = v.pop().unwrap();
        assert(vb =~= v@.push(x));
        assert(x@.wf());
        let mut p: usize = 0;
        let mut found = false;
        while p < r.len()
            invariant
                p <= r.len(),
                all_wf(r@),
                x@.wf(),
                forall|j: int| 0 <= j < p ==> crate::version::semver_order((#[trigger] r@[j])@, x@) <= 0,
                found ==> p < r.len() && crate::version::semver_order(r@[p as int]@, x@) > 0
                    && crate::version::semver_order(x@, r@[p as int]@) < 0,
            ensures
                forall|j: int| 0 <= j < p ==> crate::version::semver_order((#[trigger] r@[j])@, x@) <= 0,
                found ==> p < r.len() && crate::version::semver_order(x@, r@[p as int]@) < 0,
                !found ==> p == r.len(),
            decreases r.len() - p,
        {
            let o = r[p].order_sign(&x);
            if o > 0 {
                found = true;
                break;
            }
            p = p + 1;
        }
        let ghost rb = r@;
        r.insert(p, x);
        proof {
            lemma_multiset_insert(rb, p as int, x);
            assert(r@ == rb.insert(p as int, x));
            assert forall|i: int| 0 <= i && i + 1 < r@.len() implies crate::version::semver_order((#[trigger] r@[i])@, r@[i + 1]@) <= 0 by {
                if i + 1 < p {
                    assert(r@[i] == rb[i] && r@[i + 1] == rb[i + 1]);
                } else if i + 1 == p {
                    assert(r@[i] == rb[i] && r@[i + 1] == x);
                } else if i == p {
                    assert(r@[i] == x && r@[i + 1] == rb[i]);
                } else {
                    assert(r@[i] == rb[i - 1] && r@[i + 1] == rb[i]);
                }
            }
            assert forall|i: int| 0 <= i < r@.len() implies (#[trigger] r@[i])@.wf() by {
                if i < p {
                    assert(r@[i] == rb[i]);
                } else if i > p {
                    assert(r@[i] == rb[i - 1]);
                }
            }
            assert(vb.to_multiset() == v@.push(x).to_multiset());
            vstd::seq_lib::to_multiset_build(v@, x);
            assert(r@.to_multiset().add(v@.to_multiset()) =~= rb.to_multiset().add(vb.to_multiset()));
            assert(semvers_view(r@) =~= semvers_view(rb).insert(p as int, x@));
            lemma_multiset_insert(semvers_view(rb), p as int, x@);
            assert(semvers_view(vb) =~= semvers_view(v@).push(x@));
            vstd::seq_lib::to_multiset_build(semvers_view(v@), x@);
            assert(semvers_view(r@).to_multiset().add(semvers_view(v@).to_multiset())
                =~= semvers_view(rb).to_multiset().add(semvers_view(vb).to_multiset()));
        }
    }
    assert(v@.to_multiset() =~= vstd::multiset::Multiset::empty());
    assert(r@.to_multiset() =~= orig.to_multiset());
    assert(semvers_view(v@) =~= seq![]);
    assert(semvers_view(v@).to_multiset() =~= vstd::multiset::Multiset::empty());
    assert(semvers_view(r@).to_multiset() =~= semvers_view(orig).to_multiset());
    r
}

/// The decimal digits of a number.
pub open spec fn decimal(n: nat) -> Seq<char>
    decreases n,
{
    if n < 10 {
        seq![(48 + n) as char]
    } else {
        decimal(n / 10).push((48 + n % 10) as char)
    }
}

/// Writes a number in decimal.
pub fn decimal_text(n: u64) -> (r: String)
    ensures
        r@ == decimal(n as nat),
    decreases n,
{
    let d = ((48 + n % 10) as u8) as char;
    if n < 10 {
        let mut r = String::new();
        push_char(&mut r, d);
        assert(r@ =~= decimal(n as nat));
        r
    } else {
        let mut r = decimal_text(n / 10);
        push_char(&mut r, d);
        r
    }
}

/// `v` holds the versions `vs`, sorted.
pub open spec fn sorts_to(v: Seq<Semver>, vs: Seq<SemverView>) -> bool {
    semvers_view(v).to_multiset() == vs.to_multiset() && versions_sorted(v)
}

/// What a sparse index answered for a package: its sorted versions, or the error's message.
pub open spec fn sparse_answer(pkg: Seq<char>, outcome: Result<u32, Seq<char>>, body: Seq<u8>, r: Result<Seq<Semver>, Seq<char>>) -> bool {
    match outcome {
        Err(e) => r == Err::<Seq<Semver>, Seq<char>>("package "@ + pkg + ": "@ + e),
        Ok(code) => if code == 200 {
            match versions_of(lines(body)) {
                Err(e) => r == Err::<Seq<Semver>, Seq<char>>("package "@ + pkg + ": "@ + e),
                Ok(vs) => r matches Ok(v) && sorts_to(v, vs),
            }
        } else if code == 404 || code == 410 || code == 451 {
            r == Err::<Seq<Semver>, Seq<char>>("package "@ + pkg + " doesn't exist: HTTP "@ + decimal(code as nat))
        } else {
            r == Err::<Seq<Semver>, Seq<char>>("package "@ + pkg + ": HTTP "@ + decimal(code as nat))
        },
    }
}

pub open spec fn seq_result_view(r: Result<Vec<Semver>, String>) -> Result<Seq<Semver>, Seq<char>> {
    match r {
        Ok(v) => Ok(v@),
        Err(e) => Err(e@),
    }
}

pub open spec fn outcome_view(o: Result<u32, String>) -> Result<u32, Seq<char>> {
    match o {
        Ok(c) => Ok(c),
        Err(e) => Err(e@),
    }
}

/// The versions of a package from a sparse index's answer: the transfer's outcome (its HTTP
/// status, or the transfer error's message) and the body.
pub fn sparse_versions(pkg: &str, outcome: Result<u32, String>, body: &[u8]) -> (r: Result<Vec<Semver>, String>)
    requires
        outcome_view(outcome) == Ok::<u32, Seq<char>>(200u32) ==> versions_safe(lines(body@)),
    ensures
        sparse_answer(pkg@, outcome_view(outcome), body@, seq_result_view(r)),
        r matches Ok(v) ==> all_wf(v@),
{
    let mut e = copy_str("package ");
    append_str(&mut e, pkg);
    match outcome {
        Err(t) => {
            append_str(&mut e, ": ");
            append_str(&mut e, t.as_str());
            Err(e)
        },
        Ok(code) => {
            if code == 200 {
                match crate_versions(body) {
                    Ok(v) => Ok(sort_versions(v)),
                    Err(t) => {
                        append_str(&mut e, ": ");
                        append_str(&mut e, t.as_str());
                        Err(e)
                    },
                }
            } else {
                if code == 404 || code == 410 || code == 451 {
                    append_str(&mut e, " doesn't exist: HTTP ");
                } else {
                    append_str(&mut e, ": HTTP ");
                }
                let d = decimal_text(code as u64);
                append_str(&mut e, d.as_str());
                Err(e)
            }
        },
    }
}

/// [`sparse_versions`], or `None` where the answer is a success whose body the JSON parser
/// would not return on.
pub fn sparse_versions_checked(pkg: &str, outcome: Result<u32, String>, body: &[u8]) -> (r: Option<Result<Vec<Semver>, String>>)
    ensures
        r is None == (outcome_view(outcome) == Ok::<u32, Seq<char>>(200u32) && !versions_safe(lines(body@))),
        r matches Some(x) ==> sparse_answer(pkg@, outcome_view(outcome), body@, seq_result_view(x))
            && (x matches Ok(v) ==> all_wf(v@)),
{
    let success = match &outcome {
        Ok(code) => *code == 200,
        Err(_) => false,
    };
    if success && crate_versions_checked(body).is_none() {
        None
    } else {
        Some(sparse_versions(pkg, outcome, body))
    }
}

/// The message that starts an index update: `Updating` a git index (ending the line),
/// `Polling` a sparse one (the progress dots follow on the same line).
pub open spec fn updating_message_spec(sparse: bool, repo_url: Seq<char>) -> Seq<char> {
    "    "@ + (if sparse { "Polling"@ } else { "Updating"@ }) + " registry '"@ + repo_url + "'"@
        + (if sparse { ""@ } else { "\n"@ })
}

pub fn updating_message(sparse: bool, repo_url: &str) -> (r: String)
    ensures
        r@ == updating_message_spec(sparse, repo_url@),
{
    let mut r = copy_str("    ");
    append_str(&mut r, if sparse { "Polling" } else { "Updating" });
    append_str(&mut r, " registry '");
    append_str(&mut r, repo_url);
    append_str(&mut r, "'");
    append_str(&mut r, if sparse { "" } else { "\n" });
    r
}

/// `repo_url` with each component appended, each after a `/` unless the URL so far ends in one.
pub open spec fn url_with(repo_url: Seq<char>, comps: Seq<Seq<char>>) -> Seq<char>
    decreases comps.len(),
{
    if comps.len() == 0 {
        repo_url
    } else {
        let u = url_with(repo_url, comps.drop_last());
        (if u.len() > 0 && u.last() == '/' { u } else { u.push('/') }) + comps.last()
    }
}

/// The URL of a package's entry in a sparse index.
pub fn sparse_package_url(repo_url: &str, pkg: &str) -> (r: String)
    requires
        crate::index::splittable(pkg@),
    ensures
        r@ == url_with(repo_url@, crate::index::index_components(pkg@, true)),
{
    let comps = crate::index::split_package_path(pkg);
    let ghost cv = crate::text::strings_view(comps@);
    let mut u = copy_str(repo_url);
    let mut i: usize = 0;
    while i < comps.len()
        invariant
            i <= comps.len(),
            cv == crate::text::strings_view(comps@),
            u@ == url_with(repo_url@, cv.subrange(0, i as int)),
        decreases comps.len() - i,
    {
        assert(cv.subrange(0, i + 1).drop_last() =~= cv.subrange(0, i as int));
        let chars = crate::text::chars_of(u.as_str());
        let ends = chars.len() > 0 && chars[chars.len() - 1] == '/';
        if !ends {
            push_char(&mut u, '/');
        }
        append_str(&mut u, comps[i].as_str());
        i = i + 1;
    }
    assert(cv.subrange(0, comps.len() as int) =~= cv);
    u
}

/// The header that authenticates to a sparse index with a token.
pub fn authorization_header(token: &str) -> (r: String)
    ensures
        r@ == "Authorization: "@ + token@,
{
    let mut r = copy_str("Authorization: ");
    append_str(&mut r, token);
    r
}

/// A yanked version is never listed.
pub proof fn law_yanked_skipped(acc: Seq<SemverView>, line: Seq<u8>, o: Vec<(String, JsonValue)>)
    requires
        json_value(line) == Ok::<JsonValue, Seq<char>>(JsonValue::Object(o)),
        lookup(o@, "yanked"@) == Some(JsonValue::Bool(true)),
    ensures
        version_line(acc, line) == Ok::<Seq<SemverView>, Seq<char>>(acc),
{
}

/// Each line lists at most one version.
pub proof fn law_at_most_one_version_per_line(ls: Seq<Seq<u8>>)
    ensures
        versions_of(ls) matches Ok(vs) ==> vs.len() <= ls.len(),
    decreases ls.len(),
{
    if ls.len() > 0 {
        law_at_most_one_version_per_line(ls.drop_last());
    }
}

} // verus!
