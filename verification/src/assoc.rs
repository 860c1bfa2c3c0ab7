use vstd::prelude::*;

verus! {

/// The map that an association list stands for: a key maps to the value of
/// its last entry.
pub open spec fn assoc_map<K, V>(s: Seq<(K, V)>) -> Map<K, V>
    decreases s.len(),
{
    if s.len() == 0 {
        Map::empty()
    } else {
        assoc_map(s.drop_last()).insert(s.last().0, s.last().1)
    }
}

/// No key occurs twice.
pub open spec fn distinct_keys<K, V>(s: Seq<(K, V)>) -> bool {
    forall|i: int, j: int| 0 <= i < s.len() && 0 <= j < s.len() && i != j ==> s[i].0 != s[j].0
}

/// The keys of an association list.
pub open spec fn keys<K, V>(s: Seq<(K, V)>) -> Seq<K> {
    s.map_values(|e: (K, V)| e.0)
}

pub proof fn lemma_assoc_dom<K, V>(s: Seq<(K, V)>, k: K)
    ensures
        assoc_map(s).dom().contains(k) <==> exists|i: int| 0 <= i < s.len() && #[trigger] s[i].0 == k,
    decreases s.len(),
{
    if s.len() > 0 {
        lemma_assoc_dom(s.drop_last(), k);
        if assoc_map(s).dom().contains(k) {
            if k != s.last().0 {
                let i = choose|i: int| 0 <= i < s.drop_last().len() && #[trigger] s.drop_last()[i].0 == k;
                assert(s[i].0 == k);
            } else {
                assert(s[s.len() - 1].0 == k);
            }
        }
        if exists|i: int| 0 <= i < s.len() && #[trigger] s[i].0 == k {
            let i = choose|i: int| 0 <= i < s.len() && #[trigger] s[i].0 == k;
            if i < s.len() - 1 {
                assert(s.drop_last()[i].0 == k);
            }
        }
    }
}

pub proof fn lemma_assoc_finite<K, V>(s: Seq<(K, V)>)
    ensures
        assoc_map(s).dom().finite(),
        assoc_map(s).dom().len() <= s.len(),
    decreases s.len(),
{
    if s.len() > 0 {
        lemma_assoc_finite(s.drop_last());
    }
}

pub proof fn lemma_assoc_len<K, V>(s: Seq<(K, V)>)
    requires
        distinct_keys(s),
    ensures
        assoc_map(s).dom().len() == s.len(),
    decreases s.len(),
{
    if s.len() > 0 {
        let d = s.drop_last();
        lemma_assoc_len(d);
        lemma_assoc_finite(d);
        lemma_assoc_dom(d, s.last().0);
        if assoc_map(d).dom().contains(s.last().0) {
            let i = choose|i: int| 0 <= i < d.len() && #[trigger] d[i].0 == s.last().0;
            assert(s[i].0 == s[s.len() - 1].0);
        }
    }
}

pub proof fn lemma_assoc_get<K, V>(s: Seq<(K, V)>, i: int)
    requires
        distinct_keys(s),
        0 <= i < s.len(),
    ensures
        assoc_map(s).dom().contains(s[i].0),
        assoc_map(s)[s[i].0] == s[i].1,
    decreases s.len(),
{
    if i < s.len() - 1 {
        lemma_assoc_get(s.drop_last(), i);
        assert(s.drop_last()[i] == s[i]);
        assert(s[i].0 != s.last().0);
    }
}

pub proof fn lemma_assoc_update<K, V>(s: Seq<(K, V)>, i: int, v: V)
    requires
        distinct_keys(s),
        0 <= i < s.len(),
    ensures
        distinct_keys(s.update(i, (s[i].0, v))),
        assoc_map(s.update(i, (s[i].0, v))) == assoc_map(s).insert(s[i].0, v),
    decreases s.len(),
{
    let t = s.update(i, (s[i].0, v));
    assert(distinct_keys(t)) by {
        assert forall|a: int, b: int| 0 <= a < t.len() && 0 <= b < t.len() && a != b implies t[a].0 != t[b].0 by {
            assert(t[a].0 == s[a].0);
            assert(t[b].0 == s[b].0);
        }
    }
    if i == s.len() - 1 {
        assert(t.drop_last() =~= s.drop_last());
        assert(assoc_map(t) =~= assoc_map(s).insert(s[i].0, v));
    } else {
        let d = s.drop_last();
        assert(t.drop_last() =~= d.update(i, (d[i].0, v)));
        lemma_assoc_update(d, i, v);
        assert(s.last().0 != s[i].0);
        assert(assoc_map(t) =~= assoc_map(s).insert(s[i].0, v));
    }
}

pub proof fn lemma_assoc_push<K, V>(s: Seq<(K, V)>, k: K, v: V)
    requires
        distinct_keys(s),
        !assoc_map(s).dom().contains(k),
    ensures
        distinct_keys(s.push((k, v))),
        assoc_map(s.push((k, v))) == assoc_map(s).insert(k, v),
{
    let t = s.push((k, v));
    assert(t.drop_last() =~= s);
    assert(distinct_keys(t)) by {
        assert forall|a: int, b: int| 0 <= a < t.len() && 0 <= b < t.len() && a != b implies t[a].0 != t[b].0 by {
            if a < s.len() && b < s.len() {
                assert(t[a] == s[a]);
                assert(t[b] == s[b]);
            } else if a < s.len() {
                assert(t[a] == s[a]);
                lemma_assoc_dom(s, k);
            } else {
                assert(t[b] == s[b]);
                lemma_assoc_dom(s, k);
            }
        }
    }
}

pub proof fn lemma_assoc_remove<K, V>(s: Seq<(K, V)>, i: int)
    requires
        distinct_keys(s),
        0 <= i < s.len(),
    ensures
        distinct_keys(s.remove(i)),
        assoc_map(s.remove(i)) == assoc_map(s).remove(s[i].0),
    decreases s.len(),
{
    let t = s.remove(i);
    assert(distinct_keys(t)) by {
        assert forall|a: int, b: int| 0 <= a < t.len() && 0 <= b < t.len() && a != b implies t[a].0 != t[b].0 by {
            let oa = if a < i { a } else { a + 1 };
            let ob = if b < i { b } else { b + 1 };
            assert(t[a] == s[oa]);
            assert(t[b] == s[ob]);
        }
    }
    if i == s.len() - 1 {
        let d = s.drop_last();
        assert(t =~= d);
        lemma_assoc_dom(d, s[i].0);
        if assoc_map(d).dom().contains(s[i].0) {
            let j = choose|j: int| 0 <= j < d.len() && #[trigger] d[j].0 == s[i].0;
            assert(s[j].0 == s[i].0);
        }
        assert(assoc_map(t) =~= assoc_map(s).remove(s[i].0));
    } else {
        let d = s.drop_last();
        lemma_assoc_remove(d, i);
        assert(t =~= d.remove(i).push(s.last()));
        assert(t.drop_last() =~= d.remove(i));
        assert(s.last().0 != s[i].0);
        assert(assoc_map(t) =~= assoc_map(s).remove(s[i].0));
    }
}

/// The position of a key in an association list keyed by integers.
pub fn find_key<V>(v: &Vec<(u64, V)>, k: u64) -> (r: Option<usize>)
    ensures
        match r {
            Some(i) => i < v@.len() && v@[i as int].0 == k,
            None => forall|i: int| 0 <= i < v@.len() ==> #[trigger] v@[i].0 != k,
        },
{
    let mut i: usize = 0;
    while i < v.len()
        invariant
            i <= v@.len(),
            forall|j: int| 0 <= j < i ==> #[trigger] v@[j].0 != k,
        decreases v@.len() - i,
    {
        if v[i].0 == k {
            return Some(i);
        }
        i = i + 1;
    }
    None
}

/// Keys in strictly increasing order.
pub open spec fn sorted_by_key<V>(s: Seq<(u64, V)>) -> bool {
    forall|a: int, b: int| 0 <= a < b < s.len() ==> s[a].0 < s[b].0
}

/// Two lists without repeated keys and with the same entries stand for the same map.
pub proof fn lemma_assoc_same_entries<K, V>(s: Seq<(K, V)>, t: Seq<(K, V)>)
    requires
        distinct_keys(s),
        distinct_keys(t),
        forall|x: (K, V)| s.contains(x) <==> t.contains(x),
    ensures
        assoc_map(s) == assoc_map(t),
{
    assert forall|k: K| assoc_map(s).dom().contains(k) <==> assoc_map(t).dom().contains(k) by {
        lemma_assoc_dom(s, k);
        lemma_assoc_dom(t, k);
        if assoc_map(s).dom().contains(k) {
            let i = choose|i: int| 0 <= i < s.len() && #[trigger] s[i].0 == k;
            assert(s.contains(s[i]));
            let j = choose|j: int| 0 <= j < t.len() && t[j] == s[i];
            assert(t[j].0 == k);
        }
        if assoc_map(t).dom().contains(k) {
            let j = choose|j: int| 0 <= j < t.len() && #[trigger] t[j].0 == k;
            assert(t.contains(t[j]));
            let i = choose|i: int| 0 <= i < s.len() && s[i] == t[j];
            assert(s[i].0 == k);
        }
    }
    assert forall|k: K| assoc_map(s).dom().contains(k) implies assoc_map(s)[k] == assoc_map(t)[k] by {
        lemma_assoc_dom(s, k);
        let i = choose|i: int| 0 <= i < s.len() && #[trigger] s[i].0 == k;
        assert(s.contains(s[i]));
        let j = choose|j: int| 0 <= j < t.len() && t[j] == s[i];
        lemma_assoc_get(s, i);
        lemma_assoc_get(t, j);
    }
    assert(assoc_map(s) =~= assoc_map(t));
}

/// The entries of a list, ordered by key.
pub fn sort_by_key<V>(v: Vec<(u64, V)>) -> (r: Vec<(u64, V)>)
    requires
        distinct_keys(v@),
    ensures
        r@.len() == v@.len(),
        distinct_keys(r@),
        sorted_by_key(r@),
        assoc_map(r@) == assoc_map(v@),
        forall|x: (u64, V)| r@.contains(x) <==> v@.contains(x),
{
    let mut rem = v;
    let mut out: Vec<(u64, V)> = Vec::new();
    let ghost orig = rem@;
    while rem.len() > 0
        invariant
            out@.len() + rem@.len() == orig.len(),
            distinct_keys(out@ + rem@),
            sorted_by_key(out@),
            forall|a: int, b: int| 0 <= a < out@.len() && 0 <= b < rem@.len() ==> out@[a].0 < rem@[b].0,
            forall|x: (u64, V)| (out@ + rem@).contains(x) <==> orig.contains(x),
        decreases rem@.len(),
    {
        let mut m: usize = 0;
        let mut j: usize = 1;
        while j < rem.len()
            invariant
                0 <= m < rem@.len(),
                1 <= j <= rem@.len(),
                forall|b: int| 0 <= b < j ==> rem@[m as int].0 <= #[trigger] rem@[b].0,
            decreases rem@.len() - j,
        {
            if rem[j].0 < rem[m].0 {
                m = j;
            }
            j = j + 1;
        }
        let ghost out0 = out@;
        let ghost rem0 = rem@;
        let e = rem.remove(m);
        out.push(e);
        proof {
            let all0 = out0 + rem0;
            let all1 = out@ + rem@;
            assert(forall|b: int| 0 <= b < rem0.len() && b != m ==> #[trigger] rem0[b].0 != rem0[m as int].0) by {
                assert forall|b: int| 0 <= b < rem0.len() && b != m implies #[trigger] rem0[b].0 != rem0[m as int].0 by {
                    assert(all0[out0.len() + b] == rem0[b]);
                    assert(all0[out0.len() + m] == rem0[m as int]);
                }
            }
            assert forall|x: (u64, V)| all1.contains(x) <==> all0.contains(x) by {
                if all1.contains(x) {
                    let k = choose|k: int| 0 <= k < all1.len() && all1[k] == x;
                    if k < out0.len() {
                        assert(all0[k] == x);
                    } else if k == out0.len() {
                        assert(all0[out0.len() + m] == x);
                    } else {
                        let b = k - out0.len() - 1;
                        let ob = if b < m { b } else { b + 1 };
                        assert(all0[out0.len() + ob] == x);
                    }
                }
                if all0.contains(x) {
                    let k = choose|k: int| 0 <= k < all0.len() && all0[k] == x;
                    if k < out0.len() {
                        assert(all1[k] == x);
                    } else {
                        let b = k - out0.len();
                        if b == m {
                            assert(all1[out0.len() as int] == x);
                        } else if b < m {
                            assert(all1[out0.len() + 1 + b] == x);
                        } else {
                            assert(all1[out0.len() + b] == x);
                        }
                    }
                }
            }
            assert(distinct_keys(all1)) by {
                assert forall|a: int, b: int| 0 <= a < all1.len() && 0 <= b < all1.len() && a != b implies all1[a].0 != all1[b].0 by {
                    let oa = if a < out0.len() { a } else if a == out0.len() { out0.len() + m } else if a - out0.len() - 1 < m { a - 1 } else { a };
                    let ob = if b < out0.len() { b } else if b == out0.len() { out0.len() + m } else if b - out0.len() - 1 < m { b - 1 } else { b };
                    assert(all1[a] == all0[oa]);
                    assert(all1[b] == all0[ob]);
                }
            }
            assert forall|a: int, b: int| 0 <= a < out@.len() && 0 <= b < rem@.len() implies out@[a].0 < rem@[b].0 by {
                let ob = if b < m { b } else { b + 1 };
                assert(rem@[b] == rem0[ob]);
                if a < out0.len() {
                    assert(out@[a] == out0[a]);
                } else {
                    assert(out@[a] == rem0[m as int]);
                    assert(rem0[m as int].0 <= rem0[ob].0);
                }
            }
            assert forall|a: int, b: int| 0 <= a < b < out@.len() implies out@[a].0 < out@[b].0 by {
                if b < out0.len() {
                    assert(out@[a] == out0[a]);
                    assert(out@[b] == out0[b]);
                } else {
                    assert(out@[a] == out0[a]);
                    assert(out@[b] == rem0[m as int]);
                }
            }
        }
    }
    assert(out@ + rem@ =~= out@);
    proof {
        lemma_assoc_same_entries(out@, orig);
    }
    out
}

} // verus!
