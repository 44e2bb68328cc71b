use vstd::prelude::*;

verus! {

/// Entries keyed by a scope, as a sequence of key / value pairs.
pub open spec fn keys_distinct<X>(s: Seq<(Seq<u32>, X)>) -> bool {
    forall|i: int, j: int| 0 <= i < s.len() && 0 <= j < s.len() && i != j ==> s[i].0 != s[j].0
}

pub open spec fn has_key<X>(s: Seq<(Seq<u32>, X)>, k: Seq<u32>) -> bool {
    exists|i: int| 0 <= i < s.len() && s[i].0 == k
}

/// The map that a sequence of key / value pairs with distinct keys stands for.
pub open spec fn assoc<X>(s: Seq<(Seq<u32>, X)>) -> Map<Seq<u32>, X> {
    Map::new(
        |k: Seq<u32>| has_key(s, k),
        |k: Seq<u32>| s[choose|i: int| 0 <= i < s.len() && s[i].0 == k].1,
    )
}

pub proof fn lemma_assoc_at<X>(s: Seq<(Seq<u32>, X)>, i: int)
    requires
        keys_distinct(s),
        0 <= i < s.len(),
    ensures
        assoc(s).contains_key(s[i].0),
        assoc(s)[s[i].0] == s[i].1,
{
    let k = s[i].0;
    assert(has_key(s, k));
    let j = choose|j: int| 0 <= j < s.len() && s[j].0 == k;
    assert(j == i);
}

pub proof fn lemma_assoc_push<X>(s: Seq<(Seq<u32>, X)>, k: Seq<u32>, v: X)
    requires
        keys_distinct(s),
        !has_key(s, k),
    ensures
        keys_distinct(s.push((k, v))),
        assoc(s.push((k, v))) == assoc(s).insert(k, v),
{
    let t = s.push((k, v));
    assert forall|i: int, j: int| 0 <= i < t.len() && 0 <= j < t.len() && i != j implies t[i].0 != t[j].0 by {
        if i < s.len() && j < s.len() {
            assert(t[i] == s[i] && t[j] == s[j]);
        } else if i < s.len() {
            assert(t[i] == s[i]);
        } else {
            assert(t[j] == s[j]);
        }
    }
    assert forall|key: Seq<u32>| #[trigger] has_key(t, key) <==> (has_key(s, key) || key == k) by {
        if has_key(s, key) {
            let i = choose|i: int| 0 <= i < s.len() && s[i].0 == key;
            assert(t[i] == s[i]);
        }
        if key == k {
            assert(t[s.len() as int].0 == k);
        }
        if has_key(t, key) {
            let i = choose|i: int| 0 <= i < t.len() && t[i].0 == key;
            if i < s.len() {
                assert(t[i] == s[i]);
            }
        }
    }
    assert forall|key: Seq<u32>| #[trigger] assoc(t).contains_key(key) implies assoc(t)[key] == assoc(
        s,
    ).insert(k, v)[key] by {
        let i = choose|i: int| 0 <= i < t.len() && t[i].0 == key;
        lemma_assoc_at(t, i);
        if key != k {
            assert(i < s.len());
            assert(t[i] == s[i]);
            lemma_assoc_at(s, i);
        } else {
            lemma_assoc_at(t, s.len() as int);
        }
    }
    assert(assoc(t) =~= assoc(s).insert(k, v));
}

pub proof fn lemma_assoc_remove<X>(s: Seq<(Seq<u32>, X)>, i: int)
    requires
        keys_distinct(s),
        0 <= i < s.len(),
    ensures
        keys_distinct(s.remove(i)),
        assoc(s.remove(i)) == assoc(s).remove(s[i].0),
{
    let t = s.remove(i);
    let k = s[i].0;
    assert forall|a: int| 0 <= a < t.len() implies t[a] == s[if a < i { a } else { a + 1 }] by {}
    assert forall|a: int, b: int| 0 <= a < t.len() && 0 <= b < t.len() && a != b implies t[a].0 != t[b].0 by {
        assert(t[a] == s[if a < i { a } else { a + 1 }]);
        assert(t[b] == s[if b < i { b } else { b + 1 }]);
    }
    assert forall|key: Seq<u32>| #[trigger] has_key(t, key) <==> (has_key(s, key) && key != k) by {
        if has_key(t, key) {
            let a = choose|a: int| 0 <= a < t.len() && t[a].0 == key;
            assert(t[a] == s[if a < i { a } else { a + 1 }]);
        }
        if has_key(s, key) && key != k {
            let a = choose|a: int| 0 <= a < s.len() && s[a].0 == key;
            assert(a != i);
            let b = if a < i { a } else { a - 1 };
            assert(t[b] == s[a]);
        }
    }
    assert forall|key: Seq<u32>| #[trigger] assoc(t).contains_key(key) implies assoc(t)[key] == assoc(
        s,
    ).remove(k)[key] by {
        let a = choose|a: int| 0 <= a < t.len() && t[a].0 == key;
        lemma_assoc_at(t, a);
        let b = if a < i { a } else { a + 1 };
        assert(t[a] == s[b]);
        lemma_assoc_at(s, b);
    }
    assert(assoc(t) =~= assoc(s).remove(k));
}

} // verus!
