use vstd::prelude::*;

verus! {

/// Lexicographic order of pairs.
pub open spec fn pair_le(a: (usize, usize), b: (usize, usize)) -> bool {
    a.0 < b.0 || (a.0 == b.0 && a.1 <= b.1)
}

/// `a` comes before `b` when ordered by key, ties kept in index order.
pub open spec fn key_before(keys: Seq<(usize, usize)>, a: int, b: int) -> bool {
    (pair_le(keys[a], keys[b]) && keys[a] != keys[b]) || (keys[a] == keys[b] && a < b)
}

/// `order` lists each index below `n` once, ordered by key with ties in index order.
pub open spec fn stable_order(order: Seq<usize>, keys: Seq<(usize, usize)>, n: int) -> bool {
    &&& order.len() == n
    &&& forall|k: int| 0 <= k < n ==> (#[trigger] order[k]) < n
    &&& forall|a: int, b: int|
        0 <= a < b < n ==> key_before(keys, #[trigger] order[a] as int, #[trigger] order[b] as int)
    &&& forall|x: int| 0 <= x < n ==> #[trigger] lists(order, x)
}

/// `x` occurs in `order`.
pub open spec fn lists(order: Seq<usize>, x: int) -> bool {
    exists|k: int| 0 <= k < order.len() && order[k] == x
}

/// The indices of `keys` ordered by key, equal keys kept in index order: a stable sort.
pub fn stable_key_order(keys: &Vec<(usize, usize)>) -> (r: Vec<usize>)
    ensures
        stable_order(r@, keys@, keys@.len() as int),
{
    let n = keys.len();
    let mut order: Vec<usize> = Vec::new();
    let mut i: usize = 0;
    while i < n
        invariant
            n == keys@.len(),
            i <= n,
            order@.len() == i,
            forall|k: int| 0 <= k < i ==> (#[trigger] order@[k]) < i,
            forall|a: int, b: int|
                0 <= a < b < i ==> key_before(keys@, #[trigger] order@[a] as int, #[trigger] order@[b] as int),
            forall|x: int| 0 <= x < i ==> #[trigger] lists(order@, x),
        decreases n - i,
    {
        let mut p: usize = 0;
        while p < order.len() && (keys[order[p]].0 < keys[i].0 || (keys[order[p]].0 == keys[i].0
            && keys[order[p]].1 <= keys[i].1))
            invariant
                n == keys@.len(),
                i < n,
                order@.len() == i,
                p <= i,
                forall|k: int| 0 <= k < i ==> (#[trigger] order@[k]) < i,
                forall|k: int| 0 <= k < p ==> pair_le(keys@[(#[trigger] order@[k]) as int], keys@[i as int]),
            decreases i - p,
        {
            p += 1;
        }
        let ghost before = order@;
        order.insert(p, i);
        proof {
            assert(order@ == before.insert(p as int, i));
            assert forall|k: int| 0 <= k < i + 1 implies (#[trigger] order@[k]) < i + 1 by {
                if k < p {
                    assert(order@[k] == before[k]);
                } else if k > p {
                    assert(order@[k] == before[k - 1]);
                }
            }
            assert forall|a: int, b: int|
                0 <= a < b < i + 1 implies key_before(keys@, #[trigger] order@[a] as int, #[trigger] order@[b] as int) by {
                if b < p {
                    assert(order@[a] == before[a] && order@[b] == before[b]);
                } else if b == p {
                    assert(order@[a] == before[a]);
                } else if a < p {
                    assert(order@[a] == before[a] && order@[b] == before[b - 1]);
                    if p < i {
                        // everything from `p` on has a larger key than `i`
                        assert(!pair_le(keys@[before[p as int] as int], keys@[i as int]));
                        if b - 1 > p {
                            assert(key_before(keys@, before[p as int] as int, before[b - 1] as int));
                        }
                    }
                } else if a == p {
                    assert(order@[b] == before[b - 1]);
                    assert(!pair_le(keys@[before[p as int] as int], keys@[i as int]));
                    if b - 1 > p {
                        assert(key_before(keys@, before[p as int] as int, before[b - 1] as int));
                    }
                } else {
                    assert(order@[a] == before[a - 1] && order@[b] == before[b - 1]);
                }
            }
            assert forall|x: int| 0 <= x < i + 1 implies #[trigger] lists(order@, x) by {
                if x == i {
                    assert(order@[p as int] == x);
                } else {
                    assert(lists(before, x));
                    let k = choose|k: int| 0 <= k < before.len() && before[k] == x;
                    if k < p {
                        assert(order@[k] == x);
                    } else {
                        assert(order@[k + 1] == x);
                    }
                }
            }
        }
        i += 1;
    }
    order
}

} // verus!
