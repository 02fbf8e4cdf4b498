use vstd::prelude::*;

verus! {

/// Whether key `a` must come strictly before key `b`.
pub open spec fn goes_before(a: u64, b: u64, descending: bool) -> bool {
    if descending {
        a > b
    } else {
        a < b
    }
}

fn key_goes_before(a: u64, b: u64, descending: bool) -> (res: bool)
    ensures
        res == goes_before(a, b, descending),
{
    if descending {
        a > b
    } else {
        a < b
    }
}

/// Where a new item with key `k` goes in `order`: before the first item whose
/// key `k` must precede, so that it follows every item with an equal key.
pub open spec fn insert_pos(keys: Seq<u64>, order: Seq<usize>, k: u64, descending: bool) -> int
    decreases order.len(),
{
    if order.len() == 0 {
        0
    } else if goes_before(k, keys[order[0] as int], descending) {
        0
    } else {
        1 + insert_pos(keys, order.drop_first(), k, descending)
    }
}

/// Indices `0..n` stably sorted by `keys`: the order that inserting each index
/// in turn after all indices of a key not after its own yields.
pub open spec fn stable_order_spec(keys: Seq<u64>, n: nat, descending: bool) -> Seq<usize>
    decreases n,
{
    if n == 0 {
        seq![]
    } else {
        let o = stable_order_spec(keys, (n - 1) as nat, descending);
        o.insert(insert_pos(keys, o, keys[n - 1], descending), (n - 1) as usize)
    }
}

proof fn lemma_insert_pos(keys: Seq<u64>, order: Seq<usize>, k: u64, descending: bool)
    requires
        forall|i: int| 0 <= i < order.len() ==> (#[trigger] order[i]) < keys.len(),
    ensures
        0 <= insert_pos(keys, order, k, descending) <= order.len(),
        forall|q: int|
            0 <= q < insert_pos(keys, order, k, descending) ==> !goes_before(
                k,
                keys[#[trigger] order[q] as int],
                descending,
            ),
        insert_pos(keys, order, k, descending) < order.len() ==> goes_before(
            k,
            keys[order[insert_pos(keys, order, k, descending)] as int],
            descending,
        ),
    decreases order.len(),
{
    if order.len() > 0 && !goes_before(k, keys[order[0] as int], descending) {
        let rest = order.drop_first();
        lemma_insert_pos(keys, rest, k, descending);
        assert forall|q: int|
            0 <= q < insert_pos(keys, order, k, descending) implies !goes_before(
            k,
            keys[#[trigger] order[q] as int],
            descending,
        ) by {
            if q > 0 {
                assert(order[q] == rest[q - 1]);
            }
        }
    }
}

/// The facts that make `stable_order_spec` a stable sort.
pub open spec fn is_stable_sort(keys: Seq<u64>, n: nat, descending: bool, o: Seq<usize>) -> bool {
    &&& o.len() == n
    &&& forall|i: int| 0 <= i < o.len() ==> (#[trigger] o[i]) < n
    &&& o.no_duplicates()
    &&& forall|k: usize| k < n ==> #[trigger] o.contains(k)
    &&& forall|i: int, j: int|
        0 <= i < j < o.len() ==> !goes_before(
            keys[#[trigger] o[j] as int],
            keys[#[trigger] o[i] as int],
            descending,
        )
    &&& forall|i: int, j: int|
        0 <= i < j < o.len() && keys[#[trigger] o[i] as int] == keys[#[trigger] o[j] as int]
            ==> o[i] < o[j]
}

/// Sorting law: `stable_order_spec` lists each index below `n` exactly once,
/// never puts an index after one whose key it must precede, and keeps indices
/// of equal keys in the order they were given in.
pub proof fn lemma_stable_order_sorts(keys: Seq<u64>, n: nat, descending: bool)
    requires
        n <= keys.len(),
        n <= usize::MAX,
    ensures
        is_stable_sort(keys, n, descending, stable_order_spec(keys, n, descending)),
    decreases n,
{
    if n > 0 {
        let m = (n - 1) as nat;
        lemma_stable_order_sorts(keys, m, descending);
        let o = stable_order_spec(keys, m, descending);
        let k = keys[m as int];
        let p = insert_pos(keys, o, k, descending);
        lemma_insert_pos(keys, o, k, descending);
        let r = o.insert(p, m as usize);
        o.insert_ensures(p, m as usize);
        assert(r == stable_order_spec(keys, n, descending));
        // Each entry of r, seen from the old order.
        assert forall|x: usize| x < n implies #[trigger] r.contains(x) by {
            if x == m {
                assert(r[p] == m as usize);
            } else {
                assert(o.contains(x));
                let q = choose|q: int| 0 <= q < o.len() && o[q] == x;
                if q < p {
                    assert(r[q] == x);
                } else {
                    assert(r[q + 1] == x);
                }
            }
        }
        assert forall|i: int| 0 <= i < r.len() implies (#[trigger] r[i]) < n by {
            if i > p {
                assert(r[i] == o[i - 1]);
            }
        }
        assert(r.no_duplicates()) by {
            assert forall|i: int, j: int| 0 <= i < r.len() && 0 <= j < r.len() && i != j implies r[i]
                != r[j] by {
                if i < p && j < p {
                    assert(o[i] != o[j]);
                } else if i < p && j > p {
                    assert(r[j] == o[j - 1]);
                } else if i > p && j < p {
                    assert(r[i] == o[i - 1]);
                } else if i > p && j > p {
                    assert(r[i] == o[i - 1] && r[j] == o[j - 1]);
                }
            }
        }
        assert forall|i: int, j: int| 0 <= i < j < r.len() implies !goes_before(
            keys[#[trigger] r[j] as int],
            keys[#[trigger] r[i] as int],
            descending,
        ) by {
            if j < p {
            } else if j == p {
            } else if i < p {
                assert(r[j] == o[j - 1]);
            } else if i == p {
                assert(r[j] == o[j - 1]);
                if j - 1 > p {
                    assert(!goes_before(keys[o[j - 1] as int], keys[o[p] as int], descending));
                }
            } else {
                assert(r[i] == o[i - 1] && r[j] == o[j - 1]);
            }
        }
        assert forall|i: int, j: int|
            0 <= i < j < r.len() && keys[#[trigger] r[i] as int] == keys[#[trigger] r[j] as int]
                implies r[i] < r[j] by {
            if j < p {
            } else if j == p {
            } else if i < p {
                assert(r[j] == o[j - 1]);
            } else if i == p {
                assert(r[j] == o[j - 1]);
                if j - 1 > p {
                    assert(!goes_before(keys[o[j - 1] as int], keys[o[p] as int], descending));
                }
            } else {
                assert(r[i] == o[i - 1] && r[j] == o[j - 1]);
            }
        }
    }
}

/// Indices of `keys` stably sorted by key, ascending or descending.
pub fn stable_order(keys: &Vec<u64>, descending: bool) -> (res: Vec<usize>)
    ensures
        res@ == stable_order_spec(keys@, keys.len() as nat, descending),
{
    let mut order: Vec<usize> = Vec::new();
    let mut n: usize = 0;
    while n < keys.len()
        invariant
            n <= keys.len(),
            order@ == stable_order_spec(keys@, n as nat, descending),
            forall|i: int| 0 <= i < order.len() ==> (#[trigger] order@[i]) < n,
        decreases keys.len() - n,
    {
        proof {
            lemma_stable_order_sorts(keys@, n as nat, descending);
        }
        let k = keys[n];
        let mut p: usize = 0;
        assert(order@.skip(0) =~= order@);
        while p < order.len() && !key_goes_before(k, keys[order[p]], descending)
            invariant
                p <= order.len(),
                n < keys.len(),
                forall|i: int| 0 <= i < order.len() ==> (#[trigger] order@[i]) < n,
                insert_pos(keys@, order@, k, descending) == p + insert_pos(
                    keys@,
                    order@.skip(p as int),
                    k,
                    descending,
                ),
            decreases order.len() - p,
        {
            assert(order@.skip(p as int).drop_first() =~= order@.skip((p + 1) as int));
            p = p + 1;
        }
        assert(insert_pos(keys@, order@, k, descending) == p);
        order.insert(p, n);
        n = n + 1;
        assert forall|i: int| 0 <= i < order.len() implies (#[trigger] order@[i]) < n by {
            lemma_stable_order_sorts(keys@, n as nat, descending);
        }
    }
    order
}

} // verus!
