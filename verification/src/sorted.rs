//! The order of strings (`str`'s `Ord`: lexicographic by character), and sets and maps of
//! strings kept as sorted vectors.

use vstd::prelude::*;
use crate::text::{chars_of, strings_view};

verus! {

/// `a < b` in lexicographic order of characters (for UTF-8 texts the same as byte order).
pub open spec fn seq_lt(a: Seq<char>, b: Seq<char>) -> bool
    decreases a.len(),
{
    if a.len() == 0 {
        b.len() > 0
    } else if b.len() == 0 {
        false
    } else if a[0] != b[0] {
        a[0] < b[0]
    } else {
        seq_lt(a.drop_first(), b.drop_first())
    }
}

pub proof fn lemma_seq_lt_irreflexive(a: Seq<char>)
    ensures
        !seq_lt(a, a),
    decreases a.len(),
{
    if a.len() > 0 {
        lemma_seq_lt_irreflexive(a.drop_first());
    }
}

pub proof fn lemma_seq_lt_total(a: Seq<char>, b: Seq<char>)
    ensures
        a == b || seq_lt(a, b) || seq_lt(b, a),
        !(seq_lt(a, b) && seq_lt(b, a)),
    decreases a.len(),
{
    if a.len() > 0 && b.len() > 0 {
        if a[0] == b[0] {
            lemma_seq_lt_total(a.drop_first(), b.drop_first());
            if a.drop_first() == b.drop_first() {
                assert forall|k: int| 0 <= k < a.len() implies a[k] == b[k] by {
                    if k > 0 {
                        assert(a[k] == a.drop_first()[k - 1]);
                        assert(b[k] == b.drop_first()[k - 1]);
                    }
                }
                assert(a =~= b);
            }
        }
    } else if a.len() == 0 && b.len() == 0 {
        assert(a =~= b);
    }
}

pub proof fn lemma_seq_lt_transitive(a: Seq<char>, b: Seq<char>, c: Seq<char>)
    requires
        seq_lt(a, b),
        seq_lt(b, c),
    ensures
        seq_lt(a, c),
    decreases a.len(),
{
    if a.len() > 0 && b.len() > 0 && c.len() > 0 {
        if a[0] == b[0] && b[0] == c[0] {
            lemma_seq_lt_transitive(a.drop_first(), b.drop_first(), c.drop_first());
        }
    }
}

/// Strictly increasing.
pub open spec fn sorted(s: Seq<Seq<char>>) -> bool {
    forall|i: int, j: int| 0 <= i < j < s.len() ==> seq_lt(s[i], s[j])
}

/// -1, 0 or 1 as `a` is below, equal to or above `b`.
pub fn str_order(a: &str, b: &str) -> (r: i8)
    ensures
        r == -1 <==> seq_lt(a@, b@),
        r == 0 <==> a@ == b@,
        r == 1 <==> seq_lt(b@, a@),
        -1 <= r <= 1,
{
    let va = chars_of(a);
    let vb = chars_of(b);
    proof {
        lemma_seq_lt_total(a@, b@);
        lemma_seq_lt_irreflexive(a@);
    }
    let mut i: usize = 0;
    assert(a@.subrange(0, a@.len() as int) =~= a@);
    assert(b@.subrange(0, b@.len() as int) =~= b@);
    while i < va.len() && i < vb.len()
        invariant
            i <= va.len(),
            i <= vb.len(),
            va@ == a@,
            vb@ == b@,
            va@.subrange(0, i as int) == vb@.subrange(0, i as int),
            seq_lt(a@, b@) == seq_lt(a@.subrange(i as int, a@.len() as int), b@.subrange(i as int, b@.len() as int)),
            seq_lt(b@, a@) == seq_lt(b@.subrange(i as int, b@.len() as int), a@.subrange(i as int, a@.len() as int)),
        decreases va.len() - i,
    {
        let ghost sa = a@.subrange(i as int, a@.len() as int);
        let ghost sb = b@.subrange(i as int, b@.len() as int);
        assert(sa[0] == va@[i as int]);
        assert(sb[0] == vb@[i as int]);
        if va[i] != vb[i] {
            if va[i] < vb[i] {
                return -1;
            } else {
                return 1;
            }
        }
        assert(sa.drop_first() =~= a@.subrange(i + 1, a@.len() as int));
        assert(sb.drop_first() =~= b@.subrange(i + 1, b@.len() as int));
        assert(va@.subrange(0, i + 1) =~= va@.subrange(0, i as int).push(va@[i as int]));
        assert(vb@.subrange(0, i + 1) =~= vb@.subrange(0, i as int).push(vb@[i as int]));
        i = i + 1;
    }
    if va.len() == vb.len() {
        assert(va@ =~= va@.subrange(0, i as int));
        assert(vb@ =~= vb@.subrange(0, i as int));
        0
    } else if i == va.len() {
        assert(a@.subrange(i as int, a@.len() as int).len() == 0);
        -1
    } else {
        assert(b@.subrange(i as int, b@.len() as int).len() == 0);
        1
    }
}

pub proof fn lemma_sorted_no_dup(s: Seq<Seq<char>>, i: int, j: int)
    requires
        sorted(s),
        0 <= i < s.len(),
        0 <= j < s.len(),
        i != j,
    ensures
        s[i] != s[j],
{
    if i < j {
        lemma_seq_lt_irreflexive(s[i]);
    } else {
        lemma_seq_lt_irreflexive(s[j]);
    }
}

/// The position at which `x` stands or would be inserted in the sorted `v`: the first element
/// that is not below `x`.
pub fn sorted_position(v: &Vec<String>, x: &str) -> (r: (usize, bool))
    requires
        sorted(strings_view(v@)),
    ensures
        r.0 <= v.len(),
        forall|k: int| 0 <= k < r.0 ==> seq_lt(#[trigger] strings_view(v@)[k], x@),
        forall|k: int| r.0 <= k < v.len() ==> seq_lt(x@, #[trigger] strings_view(v@)[k]) || strings_view(
            v@,
        )[k] == x@,
        r.1 == (r.0 < v.len() && strings_view(v@)[r.0 as int] == x@),
        r.1 == strings_view(v@).contains(x@),
{
    let ghost sv = strings_view(v@);
    let mut i: usize = 0;
    while i < v.len()
        invariant
            i <= v.len(),
            sv == strings_view(v@),
            sorted(sv),
            forall|k: int| 0 <= k < i ==> seq_lt(#[trigger] sv[k], x@),
        decreases v.len() - i,
    {
        let o = str_order(v[i].as_str(), x);
        if o != -1 {
            proof {
                assert forall|k: int| i <= k < v.len() implies seq_lt(x@, #[trigger] sv[k]) || sv[k] == x@ by {
                    lemma_seq_lt_total(sv[i as int], x@);
                    if k > i {
                        if sv[i as int] == x@ {
                        } else {
                            lemma_seq_lt_transitive(x@, sv[i as int], sv[k]);
                        }
                    }
                }
                if o != 0 {
                    assert forall|k: int| 0 <= k < sv.len() implies sv[k] != x@ by {
                        if k < i {
                            lemma_seq_lt_irreflexive(x@);
                        } else if k > i {
                            lemma_seq_lt_total(x@, sv[k]);
                            lemma_seq_lt_transitive(x@, sv[i as int], sv[k]);
                            lemma_seq_lt_irreflexive(x@);
                        } else {
                            lemma_seq_lt_irreflexive(x@);
                        }
                    }
                }
            }
            if o == 0 {
                assert(sv[i as int] == x@);
                assert(sv.contains(x@));
            }
            return (i, o == 0);
        }
        i = i + 1;
    }
    proof {
        assert forall|k: int| 0 <= k < sv.len() implies sv[k] != x@ by {
            lemma_seq_lt_irreflexive(x@);
        }
    }
    (i, false)
}

/// Adds `x` to the sorted set `v`.
pub fn set_insert(v: &mut Vec<String>, x: String)
    requires
        sorted(strings_view(old(v)@)),
    ensures
        sorted(strings_view(final(v)@)),
        strings_view(final(v)@).to_set() == strings_view(old(v)@).to_set().insert(x@),
{
    let ghost sv = strings_view(v@);
    let (pos, found) = sorted_position(v, x.as_str());
    if found {
        assert(strings_view(v@).to_set() =~= sv.to_set().insert(x@));
        return;
    }
    let ghost xv = x@;
    v.insert(pos, x);
    let ghost nv = strings_view(v@);
    assert(nv =~= sv.insert(pos as int, xv));
    assert forall|i: int, j: int| 0 <= i < j < nv.len() implies seq_lt(nv[i], nv[j]) by {
        if j < pos {
        } else if j == pos {
        } else if i < pos {
            assert(seq_lt(sv[i], xv));
            assert(seq_lt(xv, sv[j - 1]));
            lemma_seq_lt_transitive(sv[i], xv, sv[j - 1]);
        } else if i == pos {
        } else {
        }
    }
    assert(nv.to_set() =~= sv.to_set().insert(xv)) by {
        assert forall|y: Seq<char>| nv.to_set().contains(y) implies sv.to_set().insert(xv).contains(y) by {
            let k = choose|k: int| 0 <= k < nv.len() && nv[k] == y;
            if k < pos {
                assert(sv[k] == y);
            } else if k > pos {
                assert(sv[k - 1] == y);
            }
        }
        assert forall|y: Seq<char>| sv.to_set().insert(xv).contains(y) implies nv.to_set().contains(y) by {
            if y == xv {
                assert(nv[pos as int] == y);
            } else {
                let k = choose|k: int| 0 <= k < sv.len() && sv[k] == y;
                if k < pos {
                    assert(nv[k] == y);
                } else {
                    assert(nv[k + 1] == y);
                }
            }
        }
    }
}

/// Removes `x` from the sorted set `v`.
pub fn set_remove(v: &mut Vec<String>, x: &str)
    requires
        sorted(strings_view(old(v)@)),
    ensures
        sorted(strings_view(final(v)@)),
        strings_view(final(v)@).to_set() == strings_view(old(v)@).to_set().remove(x@),
{
    let ghost sv = strings_view(v@);
    let (pos, found) = sorted_position(v, x);
    if !found {
        assert(strings_view(v@).to_set() =~= sv.to_set().remove(x@));
        return;
    }
    v.remove(pos);
    let ghost nv = strings_view(v@);
    assert(nv =~= sv.remove(pos as int));
    assert forall|i: int, j: int| 0 <= i < j < nv.len() implies seq_lt(nv[i], nv[j]) by {
        if j < pos {
        } else if i < pos {
            assert(seq_lt(sv[i], sv[j + 1]));
        } else {
            assert(seq_lt(sv[i + 1], sv[j + 1]));
        }
    }
    assert(nv.to_set() =~= sv.to_set().remove(x@)) by {
        assert forall|y: Seq<char>| nv.to_set().contains(y) implies sv.to_set().remove(x@).contains(y) by {
            let k = choose|k: int| 0 <= k < nv.len() && nv[k] == y;
            if k < pos {
                assert(sv[k] == y);
                lemma_sorted_no_dup(sv, k, pos as int);
            } else {
                assert(sv[k + 1] == y);
                lemma_sorted_no_dup(sv, k + 1, pos as int);
            }
        }
        assert forall|y: Seq<char>| sv.to_set().remove(x@).contains(y) implies nv.to_set().contains(y) by {
            let k = choose|k: int| 0 <= k < sv.len() && sv[k] == y;
            if k < pos {
                assert(nv[k] == y);
            } else {
                assert(k != pos);
                assert(nv[k - 1] == y);
            }
        }
    }
}

} // verus!

verus! {

pub open spec fn keys_of<V>(s: Seq<(String, V)>) -> Seq<Seq<char>> {
    s.map_values(|e: (String, V)| e.0@)
}

/// The value of the first entry with key `k`.
pub open spec fn lookup<V>(s: Seq<(String, V)>, k: Seq<char>) -> Option<V>
    decreases s.len(),
{
    if s.len() == 0 {
        None
    } else if s[0].0@ == k {
        Some(s[0].1)
    } else {
        lookup(s.drop_first(), k)
    }
}

/// The map that the entries stand for.
pub open spec fn map_of<V>(s: Seq<(String, V)>) -> Map<Seq<char>, V> {
    Map::new(|k: Seq<char>| lookup(s, k) is Some, |k: Seq<char>| lookup(s, k)->0)
}

pub proof fn lemma_lookup_at<V>(s: Seq<(String, V)>, k: Seq<char>, i: int)
    requires
        0 <= i < s.len(),
        s[i].0@ == k,
        forall|j: int| 0 <= j < i ==> s[j].0@ != k,
    ensures
        lookup(s, k) == Some(s[i].1),
    decreases i,
{
    if i > 0 {
        lemma_lookup_at(s.drop_first(), k, i - 1);
    }
}

pub proof fn lemma_lookup_none<V>(s: Seq<(String, V)>, k: Seq<char>)
    requires
        forall|j: int| 0 <= j < s.len() ==> s[j].0@ != k,
    ensures
        lookup(s, k) is None,
    decreases s.len(),
{
    if s.len() > 0 {
        lemma_lookup_none(s.drop_first(), k);
    }
}

/// In a sorted map, the value of a key is that of the entry holding it, and a key that no entry
/// holds has none.
pub proof fn lemma_sorted_lookup<V>(s: Seq<(String, V)>, k: Seq<char>)
    requires
        sorted(keys_of(s)),
    ensures
        forall|i: int| 0 <= i < s.len() && s[i].0@ == k ==> lookup(s, k) == Some(s[i].1),
        (forall|i: int| 0 <= i < s.len() ==> s[i].0@ != k) ==> lookup(s, k) is None,
{
    assert forall|i: int| 0 <= i < s.len() && s[i].0@ == k implies lookup(s, k) == Some(s[i].1) by {
        assert forall|j: int| 0 <= j < i implies s[j].0@ != k by {
            assert(keys_of(s)[j] == s[j].0@);
            assert(keys_of(s)[i] == s[i].0@);
            lemma_sorted_no_dup(keys_of(s), j, i);
        }
        lemma_lookup_at(s, k, i);
    }
    if forall|i: int| 0 <= i < s.len() ==> s[i].0@ != k {
        lemma_lookup_none(s, k);
    }
}

/// The position of `k` (or where it would go) in the sorted map `m`.
pub fn map_position<V>(m: &Vec<(String, V)>, k: &str) -> (r: (usize, bool))
    requires
        sorted(keys_of(m@)),
    ensures
        r.0 <= m.len(),
        forall|j: int| 0 <= j < r.0 ==> seq_lt(#[trigger] keys_of(m@)[j], k@),
        forall|j: int| r.0 <= j < m.len() ==> seq_lt(k@, #[trigger] keys_of(m@)[j]) || keys_of(m@)[j] == k@,
        r.1 == (r.0 < m.len() && keys_of(m@)[r.0 as int] == k@),
        !r.1 ==> forall|j: int| 0 <= j < m.len() ==> #[trigger] keys_of(m@)[j] != k@,
{
    let ghost sv = keys_of(m@);
    let mut i: usize = 0;
    while i < m.len()
        invariant
            i <= m.len(),
            sv == keys_of(m@),
            sorted(sv),
            forall|j: int| 0 <= j < i ==> seq_lt(#[trigger] sv[j], k@),
        decreases m.len() - i,
    {
        let o = str_order(m[i].0.as_str(), k);
        if o != -1 {
            proof {
                assert forall|j: int| i <= j < m.len() implies seq_lt(k@, #[trigger] sv[j]) || sv[j] == k@ by {
                    lemma_seq_lt_total(sv[i as int], k@);
                    if j > i && sv[i as int] != k@ {
                        lemma_seq_lt_transitive(k@, sv[i as int], sv[j]);
                    }
                }
                if o != 0 {
                    assert forall|j: int| 0 <= j < sv.len() implies sv[j] != k@ by {
                        if j < i {
                            lemma_seq_lt_irreflexive(k@);
                        } else if j > i {
                            lemma_seq_lt_total(k@, sv[j]);
                            lemma_seq_lt_transitive(k@, sv[i as int], sv[j]);
                            lemma_seq_lt_irreflexive(k@);
                        } else {
                            lemma_seq_lt_irreflexive(k@);
                        }
                    }
                }
            }
            return (i, o == 0);
        }
        i = i + 1;
    }
    proof {
        assert forall|j: int| 0 <= j < sv.len() implies sv[j] != k@ by {
            lemma_seq_lt_irreflexive(k@);
        }
    }
    (i, false)
}

/// The value of `k` in the sorted map `m`.
pub fn map_get<'a, V>(m: &'a Vec<(String, V)>, k: &str) -> (r: Option<&'a V>)
    requires
        sorted(keys_of(m@)),
    ensures
        match r {
            Some(v) => map_of(m@).contains_key(k@) && map_of(m@)[k@] == *v,
            None => !map_of(m@).contains_key(k@),
        },
{
    let (pos, found) = map_position(m, k);
    proof {
        lemma_sorted_lookup(m@, k@);
    }
    if found {
        assert(keys_of(m@)[pos as int] == m@[pos as int].0@);
        Some(&m[pos].1)
    } else {
        assert forall|i: int| 0 <= i < m.len() implies m@[i].0@ != k@ by {
            assert(keys_of(m@)[i] == m@[i].0@);
        }
        None
    }
}

/// Sets `k` to `v` in the sorted map `m`.
pub fn map_insert<V>(m: &mut Vec<(String, V)>, k: String, v: V)
    requires
        sorted(keys_of(old(m)@)),
    ensures
        sorted(keys_of(final(m)@)),
        map_of(final(m)@) == map_of(old(m)@).insert(k@, v),
{
    let ghost old_m = m@;
    let ghost sv = keys_of(m@);
    let ghost kv = k@;
    let (pos, found) = map_position(m, k.as_str());
    proof {
        lemma_sorted_lookup(old_m, kv);
    }
    if found {
        m.set(pos, (k, v));
        let ghost nm = m@;
        assert(keys_of(nm) =~= sv);
        proof {
            lemma_sorted_lookup(nm, kv);
        }
        assert(map_of(nm) =~= map_of(old_m).insert(kv, v)) by {
            assert forall|x: Seq<char>| #![trigger map_of(nm).contains_key(x)] true implies (map_of(nm).contains_key(x)
                == map_of(old_m).insert(kv, v).contains_key(x)) && (map_of(nm).contains_key(x) ==> map_of(nm)[x]
                == map_of(old_m).insert(kv, v)[x]) by {
                lemma_sorted_lookup(nm, x);
                lemma_sorted_lookup(old_m, x);
                if x == kv {
                    assert(nm[pos as int].0@ == kv);
                } else {
                    assert forall|i: int| 0 <= i < nm.len() && nm[i].0@ == x implies old_m[i].0@ == x && old_m[i].1 == nm[i].1 by {
                        assert(i != pos);
                    }
                    assert forall|i: int| 0 <= i < old_m.len() && old_m[i].0@ == x implies nm[i].0@ == x && old_m[i].1 == nm[i].1 by {
                        assert(keys_of(old_m)[i] == old_m[i].0@);
                        assert(i != pos);
                    }
                }
            }
        }
        return;
    }
    m.insert(pos, (k, v));
    let ghost nm = m@;
    assert(nm =~= old_m.insert(pos as int, (nm[pos as int].0, v)));
    assert(keys_of(nm) =~= sv.insert(pos as int, kv));
    assert forall|i: int, j: int| 0 <= i < j < keys_of(nm).len() implies seq_lt(keys_of(nm)[i], keys_of(nm)[j]) by {
        if j < pos {
        } else if j == pos {
        } else if i < pos {
            assert(sv[j - 1] != kv);
            lemma_seq_lt_transitive(sv[i], kv, sv[j - 1]);
        } else if i == pos {
        } else {
        }
    }
    proof {
        lemma_sorted_lookup(nm, kv);
    }
    assert(map_of(nm) =~= map_of(old_m).insert(kv, v)) by {
        assert forall|x: Seq<char>| #![trigger map_of(nm).contains_key(x)] true implies (map_of(nm).contains_key(x)
            == map_of(old_m).insert(kv, v).contains_key(x)) && (map_of(nm).contains_key(x) ==> map_of(nm)[x]
            == map_of(old_m).insert(kv, v)[x]) by {
            lemma_sorted_lookup(nm, x);
            lemma_sorted_lookup(old_m, x);
            if x == kv {
                assert(nm[pos as int].0@ == kv);
            } else {
                assert forall|i: int| 0 <= i < nm.len() && nm[i].0@ == x implies (if i < pos { old_m[i].0@ == x && old_m[i].1 == nm[i].1 } else { old_m[i - 1].0@ == x && old_m[i - 1].1 == nm[i].1 }) by {
                    assert(i != pos);
                }
                assert forall|i: int| 0 <= i < old_m.len() && old_m[i].0@ == x implies (if i < pos { nm[i].0@ == x && old_m[i].1 == nm[i].1 } else { nm[i + 1].0@ == x && old_m[i].1 == nm[i + 1].1 }) by {
                }
                if lookup(old_m, x) is Some {
                    let i = choose|i: int| 0 <= i < old_m.len() && old_m[i].0@ == x;
                }
            }
        }
    }
}

/// Removes `k` from the sorted map `m`.
pub fn map_remove<V>(m: &mut Vec<(String, V)>, k: &str)
    requires
        sorted(keys_of(old(m)@)),
    ensures
        sorted(keys_of(final(m)@)),
        map_of(final(m)@) == map_of(old(m)@).remove(k@),
{
    let ghost old_m = m@;
    let ghost sv = keys_of(m@);
    let (pos, found) = map_position(m, k);
    proof {
        lemma_sorted_lookup(old_m, k@);
    }
    if !found {
        assert forall|i: int| 0 <= i < old_m.len() implies old_m[i].0@ != k@ by {
            assert(keys_of(old_m)[i] == old_m[i].0@);
        }
        assert(!map_of(old_m).contains_key(k@));
        assert(map_of(m@) =~= map_of(old_m).remove(k@));
        return;
    }
    m.remove(pos);
    let ghost nm = m@;
    assert(nm =~= old_m.remove(pos as int));
    assert(keys_of(nm) =~= sv.remove(pos as int));
    assert forall|i: int, j: int| 0 <= i < j < keys_of(nm).len() implies seq_lt(keys_of(nm)[i], keys_of(nm)[j]) by {
        if j < pos {
        } else if i < pos {
            assert(seq_lt(sv[i], sv[j + 1]));
        } else {
            assert(seq_lt(sv[i + 1], sv[j + 1]));
        }
    }
    assert(map_of(nm) =~= map_of(old_m).remove(k@)) by {
        assert forall|x: Seq<char>| #![trigger map_of(nm).contains_key(x)] true implies (map_of(nm).contains_key(x)
            == map_of(old_m).remove(k@).contains_key(x)) && (map_of(nm).contains_key(x) ==> map_of(nm)[x]
            == map_of(old_m).remove(k@)[x]) by {
            lemma_sorted_lookup(nm, x);
            lemma_sorted_lookup(old_m, x);
            if x == k@ {
                assert forall|i: int| 0 <= i < nm.len() implies nm[i].0@ != x by {
                    if i < pos {
                        assert(keys_of(old_m)[i] == old_m[i].0@);
                        lemma_sorted_no_dup(sv, i, pos as int);
                    } else {
                        assert(keys_of(old_m)[i + 1] == old_m[i + 1].0@);
                        lemma_sorted_no_dup(sv, i + 1, pos as int);
                    }
                }
            } else {
                assert forall|i: int| 0 <= i < nm.len() && nm[i].0@ == x implies (if i < pos { old_m[i].0@ == x && old_m[i].1 == nm[i].1 } else { old_m[i + 1].0@ == x && old_m[i + 1].1 == nm[i].1 }) by {
                }
                assert forall|i: int| 0 <= i < old_m.len() && old_m[i].0@ == x implies i != pos && (if i < pos { nm[i].0@ == x && old_m[i].1 == nm[i].1 } else { nm[i - 1].0@ == x && old_m[i].1 == nm[i - 1].1 }) by {
                    assert(keys_of(old_m)[i] == old_m[i].0@);
                }
                if lookup(old_m, x) is Some {
                    let i = choose|i: int| 0 <= i < old_m.len() && old_m[i].0@ == x;
                }
            }
        }
    }
}

} // verus!
