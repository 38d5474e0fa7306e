//! Small sequence facts the aggregation proofs share.

use vstd::prelude::*;

verus! {

broadcast use vstd::seq_lib::group_to_multiset_ensures;

/// Sequences with equal multisets keep equal multisets under mapping.
pub proof fn lemma_map_values_multiset<T, U>(a: Seq<T>, b: Seq<T>, f: spec_fn(T) -> U)
    requires
        a.to_multiset() == b.to_multiset(),
    ensures
        a.map_values(f).to_multiset() == b.map_values(f).to_multiset(),
    decreases a.len(),
{
    if a.len() == 0 {
        assert(b.to_multiset().len() == 0);
        assert(b.len() == 0);
        assert(a.map_values(f) =~= b.map_values(f));
    } else {
        let x = a.last();
        let a1 = a.drop_last();
        assert(a =~= a1.push(x));
        assert(a.to_multiset() =~= a1.to_multiset().insert(x));
        assert(b.to_multiset().count(x) > 0);
        assert(b.contains(x));
        let idx = choose|i: int| 0 <= i < b.len() && b[i] == x;
        let b1 = b.remove(idx);
        assert(b1.to_multiset() =~= b.to_multiset().remove(x));
        assert(a1.to_multiset() =~= b1.to_multiset()) by {
            assert forall|y: T| true implies a1.to_multiset().count(y) == b1.to_multiset().count(
                y,
            ) by {
                if y == x {
                    assert(a.to_multiset().count(x) == a1.to_multiset().count(x) + 1);
                } else {
                    assert(a.to_multiset().count(y) == a1.to_multiset().count(y));
                }
            }
        }
        lemma_map_values_multiset(a1, b1, f);
        assert(b1.map_values(f) =~= b.map_values(f).remove(idx));
        assert(b.map_values(f).remove(idx).to_multiset() =~= b.map_values(f).to_multiset().remove(
            f(x),
        )) by {
            assert(b.map_values(f)[idx] == f(x));
        }
        assert(a.map_values(f) =~= a1.map_values(f).push(f(x)));
        assert(a.map_values(f).to_multiset() =~= a1.map_values(f).to_multiset().insert(f(x)));
        assert(b.map_values(f).to_multiset().count(f(x)) > 0) by {
            assert(b.map_values(f)[idx] == f(x));
            assert(b.map_values(f).contains(f(x)));
        }
        assert(a.map_values(f).to_multiset() =~= b.map_values(f).to_multiset()) by {
            assert forall|z: U| true implies a.map_values(f).to_multiset().count(z) == b.map_values(
                f,
            ).to_multiset().count(z) by {
                if z == f(x) {
                } else {
                }
            }
        }
    }
}

/// Key uniqueness carries over between sequences with equal multisets.
pub proof fn lemma_key_unique_transfer<T, K>(a: Seq<T>, b: Seq<T>, key: spec_fn(T) -> K)
    requires
        a.to_multiset() == b.to_multiset(),
        forall|i: int, j: int| 0 <= i < j < b.len() ==> key(b[i]) != key(b[j]),
    ensures
        forall|i: int, j: int| 0 <= i < j < a.len() ==> key(a[i]) != key(a[j]),
{
    assert forall|i: int, j: int| 0 <= i < j < a.len() implies key(a[i]) != key(a[j]) by {
        if key(a[i]) == key(a[j]) {
            if a[i] == a[j] {
                let x = a[i];
                let a1 = a.remove(j);
                assert(a1.to_multiset() =~= a.to_multiset().remove(x));
                assert(a1[i] == x);
                assert(a1.contains(x));
                assert(a1.to_multiset().count(x) > 0);
                assert(b.to_multiset().count(x) >= 2);
                assert(b.contains(x));
                let p = choose|p: int| 0 <= p < b.len() && b[p] == x;
                let b1 = b.remove(p);
                assert(b1.to_multiset() =~= b.to_multiset().remove(x));
                assert(b1.to_multiset().count(x) > 0);
                assert(b1.contains(x));
                let q0 = choose|q: int| 0 <= q < b1.len() && b1[q] == x;
                let q = if q0 < p {
                    q0
                } else {
                    q0 + 1
                };
                assert(b[q] == x);
                assert(p != q);
                if p < q {
                    assert(key(b[p]) != key(b[q]));
                } else {
                    assert(key(b[q]) != key(b[p]));
                }
                assert(false);
            } else {
                let x = a[i];
                let y = a[j];
                assert(a.contains(x));
                assert(a.to_multiset().count(x) > 0);
                assert(b.to_multiset().count(x) > 0);
                assert(b.contains(x));
                assert(a.contains(y));
                assert(a.to_multiset().count(y) > 0);
                assert(b.to_multiset().count(y) > 0);
                assert(b.contains(y));
                let p = choose|p: int| 0 <= p < b.len() && b[p] == x;
                let q = choose|q: int| 0 <= q < b.len() && b[q] == y;
                assert(p != q);
                if p < q {
                    assert(key(b[p]) != key(b[q]));
                } else {
                    assert(key(b[q]) != key(b[p]));
                }
                assert(false);
            }
        }
    }
}

} // verus!
