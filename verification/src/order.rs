use vstd::prelude::*;

verus! {

/// Key `a` is strictly greater than key `b` in the lexicographic order of pairs.
pub open spec fn key_gt(a: (u128, u128), b: (u128, u128)) -> bool {
    a.0 > b.0 || (a.0 == b.0 && a.1 > b.1)
}

/// In the stable descending order of `keys`, index `i` comes before index `j`:
/// its key is greater, or the keys are equal and `i` comes first in the list.
pub open spec fn goes_before(keys: Seq<(u128, u128)>, i: int, j: int) -> bool {
    key_gt(keys[i], keys[j]) || (keys[i] == keys[j] && i < j)
}

/// `order` lists indices strictly in the stable descending order of `keys`.
pub open spec fn sorted_by_key(keys: Seq<(u128, u128)>, order: Seq<usize>) -> bool {
    forall|a: int, b: int|
        0 <= a < b < order.len() ==> goes_before(keys, order[a] as int, order[b] as int)
}

/// `order` holds every index below `n` exactly once and nothing else.
pub open spec fn is_index_permutation(order: Seq<usize>, n: nat) -> bool {
    &&& order.len() == n
    &&& forall|a: int| 0 <= a < order.len() ==> order[a] < n
    &&& forall|k: usize| k < n ==> #[trigger] order.contains(k)
    &&& forall|a: int, b: int| 0 <= a < b < order.len() ==> order[a] != order[b]
}

/// Puts index `i` into `order` right after the indices whose key is at least that of `i`.
pub open spec fn insert_desc(keys: Seq<(u128, u128)>, order: Seq<usize>, i: usize) -> Seq<usize>
    decreases order.len(),
{
    if order.len() == 0 {
        seq![i]
    } else if !key_gt(keys[i as int], keys[order[0] as int]) {
        seq![order[0]] + insert_desc(keys, order.drop_first(), i)
    } else {
        seq![i] + order
    }
}

/// The indices `0..n`, each inserted in turn into the order built from the ones before it.
pub open spec fn desc_order_prefix(keys: Seq<(u128, u128)>, n: nat) -> Seq<usize>
    decreases n,
{
    if n == 0 {
        seq![]
    } else {
        insert_desc(keys, desc_order_prefix(keys, (n - 1) as nat), (n - 1) as usize)
    }
}

/// The indices of `keys` in stable descending order of their keys (what a stable sort by
/// descending key puts where).
pub open spec fn stable_desc_order(keys: Seq<(u128, u128)>) -> Seq<usize> {
    desc_order_prefix(keys, keys.len())
}

proof fn lemma_insert_desc_shape(keys: Seq<(u128, u128)>, order: Seq<usize>, i: usize)
    requires
        i < keys.len(),
        forall|a: int| 0 <= a < order.len() ==> order[a] < i,
        sorted_by_key(keys, order),
    ensures
        insert_desc(keys, order, i).len() == order.len() + 1,
        sorted_by_key(keys, insert_desc(keys, order, i)),
        forall|x: usize| #[trigger] insert_desc(keys, order, i).contains(x) <==> (order.contains(x) || x == i),
    decreases order.len(),
{
    let r = insert_desc(keys, order, i);
    if order.len() == 0 {
        assert forall|x: usize| r.contains(x) <==> (order.contains(x) || x == i) by {
            if r.contains(x) {
                assert(r[0] == i);
            }
            if x == i {
                assert(r[0] == x);
            }
        }
    } else if !key_gt(keys[i as int], keys[order[0] as int]) {
        let rest = order.drop_first();
        assert forall|a: int| 0 <= a < rest.len() implies rest[a] < i by {
            assert(rest[a] == order[a + 1]);
        }
        assert(sorted_by_key(keys, rest)) by {
            assert forall|a: int, b: int| 0 <= a < b < rest.len() implies goes_before(
                keys,
                rest[a] as int,
                rest[b] as int,
            ) by {
                assert(rest[a] == order[a + 1] && rest[b] == order[b + 1]);
            }
        }
        lemma_insert_desc_shape(keys, rest, i);
        let sub = insert_desc(keys, rest, i);
        assert(r == seq![order[0]] + sub);
        assert forall|x: usize| r.contains(x) <==> (order.contains(x) || x == i) by {
            if r.contains(x) {
                let k = choose|k: int| 0 <= k < r.len() && r[k] == x;
                if k > 0 {
                    assert(0 <= k - 1 < sub.len());
                    assert(sub[k - 1] == x);
                    assert(sub.contains(x));
                    if rest.contains(x) {
                        let m = choose|m: int| 0 <= m < rest.len() && rest[m] == x;
                        assert(order[m + 1] == x);
                    }
                } else {
                    assert(order[0] == x);
                }
            }
            if order.contains(x) {
                let m = choose|m: int| 0 <= m < order.len() && order[m] == x;
                if m == 0 {
                    assert(r[0] == x);
                } else {
                    assert(rest[m - 1] == x);
                    assert(sub.contains(x));
                    let k = choose|k: int| 0 <= k < sub.len() && sub[k] == x;
                    assert(r[k + 1] == x);
                }
            }
            if x == i {
                assert(sub.contains(x));
                let k = choose|k: int| 0 <= k < sub.len() && sub[k] == x;
                assert(r[k + 1] == x);
            }
        }
        assert forall|a: int, b: int| 0 <= a < b < r.len() implies goes_before(
            keys,
            r[a] as int,
            r[b] as int,
        ) by {
            if a == 0 {
                let y = r[b];
                assert(y == sub[b - 1]);
                assert(sub.contains(y));
                if y == i {
                    assert(order[0] < i);
                } else {
                    assert(rest.contains(y));
                    let m = choose|m: int| 0 <= m < rest.len() && rest[m] == y;
                    assert(order[m + 1] == y);
                    assert(goes_before(keys, order[0] as int, order[m + 1] as int));
                }
            } else {
                assert(r[a] == sub[a - 1] && r[b] == sub[b - 1]);
            }
        }
    } else {
        assert(r == seq![i] + order);
        assert forall|x: usize| r.contains(x) <==> (order.contains(x) || x == i) by {
            if r.contains(x) {
                let k = choose|k: int| 0 <= k < r.len() && r[k] == x;
                if k > 0 {
                    assert(order[k - 1] == x);
                }
            }
            if order.contains(x) {
                let m = choose|m: int| 0 <= m < order.len() && order[m] == x;
                assert(r[m + 1] == x);
            }
            if x == i {
                assert(r[0] == x);
            }
        }
        assert forall|a: int, b: int| 0 <= a < b < r.len() implies goes_before(
            keys,
            r[a] as int,
            r[b] as int,
        ) by {
            if a == 0 {
                if b > 1 {
                    assert(goes_before(keys, order[0] as int, order[b - 1] as int));
                }
            } else {
                assert(r[a] == order[a - 1] && r[b] == order[b - 1]);
            }
        }
    }
}

proof fn lemma_desc_order_prefix(keys: Seq<(u128, u128)>, n: nat)
    requires
        n <= keys.len(),
        keys.len() <= usize::MAX,
    ensures
        sorted_by_key(keys, desc_order_prefix(keys, n)),
        is_index_permutation(desc_order_prefix(keys, n), n),
    decreases n,
{
    if n > 0 {
        let prev = desc_order_prefix(keys, (n - 1) as nat);
        lemma_desc_order_prefix(keys, (n - 1) as nat);
        let i = (n - 1) as usize;
        lemma_insert_desc_shape(keys, prev, i);
        let r = desc_order_prefix(keys, n);
        assert(r == insert_desc(keys, prev, i));
        assert forall|a: int| 0 <= a < r.len() implies r[a] < n by {
            assert(r.contains(r[a]));
            if prev.contains(r[a]) {
                let m = choose|m: int| 0 <= m < prev.len() && prev[m] == r[a];
            }
        }
        assert forall|k: usize| k < n implies #[trigger] r.contains(k) by {
            if k < n - 1 {
                assert(prev.contains(k));
            }
        }
        assert forall|a: int, b: int| 0 <= a < b < r.len() implies r[a] != r[b] by {
            assert(goes_before(keys, r[a] as int, r[b] as int));
        }
    }
}

/// The stable descending order lists each index of `keys` exactly once, every index before
/// the ones whose key is smaller, and indices with equal keys in their original order.
pub proof fn law_stable_desc_order(keys: Seq<(u128, u128)>)
    requires
        keys.len() <= usize::MAX,
    ensures
        is_index_permutation(stable_desc_order(keys), keys.len()),
        sorted_by_key(keys, stable_desc_order(keys)),
{
    lemma_desc_order_prefix(keys, keys.len());
}

/// Inserting `i` at position `j` is what `insert_desc` does when `j` is the first position
/// whose key is smaller than that of `i`.
proof fn lemma_insert_desc_at(keys: Seq<(u128, u128)>, order: Seq<usize>, i: usize, j: int)
    requires
        0 <= j <= order.len(),
        forall|m: int| 0 <= m < j ==> !key_gt(keys[i as int], keys[order[m] as int]),
        j == order.len() || key_gt(keys[i as int], keys[order[j] as int]),
    ensures
        insert_desc(keys, order, i) == order.take(j) + seq![i] + order.skip(j),
    decreases order.len(),
{
    if order.len() == 0 {
        assert(order.take(j) + seq![i] + order.skip(j) =~= seq![i]);
    } else if j == 0 {
        assert(order.take(j) + seq![i] + order.skip(j) =~= seq![i] + order);
    } else {
        let rest = order.drop_first();
        assert forall|m: int| 0 <= m < j - 1 implies !key_gt(keys[i as int], keys[rest[m] as int]) by {
            assert(rest[m] == order[m + 1]);
        }
        if j < order.len() {
            assert(rest[j - 1] == order[j]);
        }
        lemma_insert_desc_at(keys, rest, i, j - 1);
        assert(seq![order[0]] + (rest.take(j - 1) + seq![i] + rest.skip(j - 1)) =~= order.take(j)
            + seq![i] + order.skip(j));
    }
}

/// The indices of `keys` in stable descending order of their keys.
pub fn stable_desc_order_of(keys: &Vec<(u128, u128)>) -> (order: Vec<usize>)
    ensures
        order@ == stable_desc_order(keys@),
{
    let mut order: Vec<usize> = Vec::new();
    let n = keys.len();
    let mut i: usize = 0;
    while i < n
        invariant
            n == keys.len(),
            i <= n,
            order@ == desc_order_prefix(keys@, i as nat),
            is_index_permutation(order@, i as nat),
        decreases n - i,
    {
        proof {
            lemma_desc_order_prefix(keys@, i as nat);
        }
        let ki = keys[i];
        let mut j: usize = 0;
        while j < order.len()
            invariant
                n == keys.len(),
                i < n,
                ki == keys@[i as int],
                is_index_permutation(order@, i as nat),
                j <= order.len(),
                forall|m: int| 0 <= m < j ==> !key_gt(keys@[i as int], keys@[order@[m] as int]),
            ensures
                j <= order.len(),
                forall|m: int| 0 <= m < j ==> !key_gt(keys@[i as int], keys@[order@[m] as int]),
                j == order.len() || key_gt(keys@[i as int], keys@[order@[j as int] as int]),
            decreases order.len() - j,
        {
            let kj = keys[order[j]];
            if ki.0 > kj.0 || (ki.0 == kj.0 && ki.1 > kj.1) {
                break;
            }
            j = j + 1;
        }
        proof {
            lemma_insert_desc_at(keys@, order@, i, j as int);
        }
        order.insert(j, i);
        assert(order@ =~= desc_order_prefix(keys@, i as nat).take(j as int) + seq![i]
            + desc_order_prefix(keys@, i as nat).skip(j as int));
        i = i + 1;
        proof {
            lemma_desc_order_prefix(keys@, i as nat);
        }
    }
    order
}


/// Two orders that both list every index of `keys` once, strictly in the stable descending
/// order of their keys, agree on their first `a` positions.
proof fn lemma_sorted_prefix_agree(keys: Seq<(u128, u128)>, o1: Seq<usize>, o2: Seq<usize>, a: int)
    requires
        is_index_permutation(o1, keys.len()),
        is_index_permutation(o2, keys.len()),
        sorted_by_key(keys, o1),
        sorted_by_key(keys, o2),
        0 <= a <= keys.len(),
    ensures
        forall|c: int| 0 <= c < a ==> o1[c] == o2[c],
    decreases a,
{
    if a > 0 {
        let c = a - 1;
        lemma_sorted_prefix_agree(keys, o1, o2, c);
        let x = o1[c];
        let y = o2[c];
        if x != y {
            assert(o2.contains(x));
            let b = choose|b: int| 0 <= b < o2.len() && o2[b] == x;
            if b < c {
                assert(o1[b] == x);
            }
            assert(b > c);
            assert(goes_before(keys, y as int, x as int));
            assert(o1.contains(y));
            let d = choose|d: int| 0 <= d < o1.len() && o1[d] == y;
            if d < c {
                assert(o2[d] == y);
            }
            assert(d > c);
            assert(goes_before(keys, x as int, y as int));
        }
    }
}

/// There is only one way to list every index of `keys` once in stable descending order.
pub proof fn lemma_sorted_permutation_unique(
    keys: Seq<(u128, u128)>,
    o1: Seq<usize>,
    o2: Seq<usize>,
)
    requires
        is_index_permutation(o1, keys.len()),
        is_index_permutation(o2, keys.len()),
        sorted_by_key(keys, o1),
        sorted_by_key(keys, o2),
    ensures
        o1 == o2,
{
    lemma_sorted_prefix_agree(keys, o1, o2, keys.len() as int);
    assert(o1 =~= o2);
}

} // verus!
