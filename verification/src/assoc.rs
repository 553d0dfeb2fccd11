//! Association lists: sequences of key/value entries, read by first match.
use vstd::prelude::*;

verus! {

/// The value of the first entry with key `k`.
pub open spec fn lookup<K, V>(e: Seq<(K, V)>, k: K) -> Option<V>
    decreases e.len(),
{
    if e.len() == 0 {
        None
    } else if e[0].0 == k {
        Some(e[0].1)
    } else {
        lookup(e.drop_first(), k)
    }
}

/// No key occurs twice.
pub open spec fn distinct_keys<K, V>(e: Seq<(K, V)>) -> bool {
    forall|i: int, j: int| 0 <= i < j < e.len() ==> e[i].0 != e[j].0
}

/// `lookup` finds the first entry with the key, and nothing when there is none.
pub proof fn lemma_lookup<K, V>(e: Seq<(K, V)>, k: K)
    ensures
        lookup(e, k) is None <==> forall|j: int| 0 <= j < e.len() ==> e[j].0 != k,
        lookup(e, k) is Some ==> exists|i: int|
            0 <= i < e.len() && e[i].0 == k && lookup(e, k) == Some(e[i].1) && forall|j: int|
                0 <= j < i ==> e[j].0 != k,
    decreases e.len(),
{
    if e.len() > 0 {
        lemma_lookup(e.drop_first(), k);
        if e[0].0 != k {
            assert forall|j: int| 1 <= j < e.len() implies e[j] == e.drop_first()[j - 1] by {}
            if lookup(e, k) is Some {
                let i = choose|i: int|
                    0 <= i < e.drop_first().len() && e.drop_first()[i].0 == k && lookup(
                        e.drop_first(),
                        k,
                    ) == Some(e.drop_first()[i].1) && forall|j: int|
                        0 <= j < i ==> e.drop_first()[j].0 != k;
                assert(e[i + 1] == e.drop_first()[i]);
                assert forall|j: int| 0 <= j < i + 1 implies e[j].0 != k by {
                    if j > 0 {
                        assert(e[j] == e.drop_first()[j - 1]);
                    }
                }
            }
        } else {
            assert(e[0].0 == k);
        }
    }
}

/// With distinct keys, the entry at `i` is what its key finds.
pub proof fn lemma_lookup_at<K, V>(e: Seq<(K, V)>, i: int)
    requires
        distinct_keys(e),
        0 <= i < e.len(),
    ensures
        lookup(e, e[i].0) == Some(e[i].1),
    decreases i,
{
    if i > 0 {
        assert(e.drop_first()[i - 1] == e[i]);
        assert(distinct_keys(e.drop_first())) by {
            assert forall|a: int, b: int| 0 <= a < b < e.drop_first().len() implies e.drop_first()[a].0
                != e.drop_first()[b].0 by {
                assert(e.drop_first()[a] == e[a + 1]);
                assert(e.drop_first()[b] == e[b + 1]);
            }
        }
        lemma_lookup_at(e.drop_first(), i - 1);
        assert(e[0].0 != e[i].0);
    }
}

/// Appending an entry only adds its key, if it was not there already.
#[verifier::spinoff_prover]
pub proof fn lemma_lookup_push<K, V>(e: Seq<(K, V)>, k: K, v: V, q: K)
    ensures
        lookup(e.push((k, v)), q) == match lookup(e, q) {
            Some(x) => Some(x),
            None => if q == k { Some(v) } else { None },
        },
    decreases e.len(),
{
    if e.len() == 0 {
        assert(e.push((k, v))[0] == (k, v));
        assert(e.push((k, v)).drop_first() =~= Seq::<(K, V)>::empty());
        assert(lookup(Seq::<(K, V)>::empty(), q) is None);
    } else {
        assert(e.push((k, v))[0] == e[0]);
        assert(e.push((k, v)).drop_first() =~= e.drop_first().push((k, v)));
        lemma_lookup_push(e.drop_first(), k, v, q);
    }
}

/// Replacing the value of the entry at `i` changes only what its key finds.
pub proof fn lemma_lookup_update<K, V>(e: Seq<(K, V)>, i: int, v: V, q: K)
    requires
        distinct_keys(e),
        0 <= i < e.len(),
    ensures
        lookup(e.update(i, (e[i].0, v)), q) == if q == e[i].0 { Some(v) } else { lookup(e, q) },
        distinct_keys(e.update(i, (e[i].0, v))),
    decreases e.len(),
{
    let u = e.update(i, (e[i].0, v));
    assert forall|a: int, b: int| 0 <= a < b < u.len() implies u[a].0 != u[b].0 by {
        assert(u[a].0 == e[a].0);
        assert(u[b].0 == e[b].0);
    }
    if i == 0 {
        assert(u.drop_first() =~= e.drop_first());
    } else {
        assert(u[0] == e[0]);
        assert(u.drop_first() =~= e.drop_first().update(i - 1, (e[i].0, v)));
        assert(e.drop_first()[i - 1] == e[i]);
        assert(distinct_keys(e.drop_first())) by {
            assert forall|a: int, b: int| 0 <= a < b < e.drop_first().len() implies e.drop_first()[a].0
                != e.drop_first()[b].0 by {
                assert(e.drop_first()[a] == e[a + 1]);
                assert(e.drop_first()[b] == e[b + 1]);
            }
        }
        lemma_lookup_update(e.drop_first(), i - 1, v, q);
        assert(e[0].0 != e[i].0);
    }
}

} // verus!
