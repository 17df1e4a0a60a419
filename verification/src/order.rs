//! Choosing by order keys. A key stands for a score: the larger key is the
//! larger score, equal keys are equal scores.

use vstd::prelude::*;

verus! {

/// `best` is the first of the largest among the first `n` keys; keys that are
/// missing are out of the race.
pub open spec fn first_largest(keys: Seq<Option<i64>>, n: int, best: Option<usize>) -> bool {
    match best {
        None => forall|k: int| 0 <= k < n ==> (#[trigger] keys[k]) is None,
        Some(i) => {
            &&& i < n
            &&& keys[i as int] is Some
            &&& forall|k: int|
                0 <= k < n && (#[trigger] keys[k]) is Some ==> keys[k]->0 <= keys[i as int]->0
            &&& forall|k: int|
                0 <= k < i && (#[trigger] keys[k]) is Some ==> keys[k]->0 < keys[i as int]->0
        },
    }
}

/// The first of the largest keys.
pub fn argmax(keys: &Vec<Option<i64>>) -> (best: Option<usize>)
    ensures
        first_largest(keys@, keys@.len() as int, best),
{
    let mut best: Option<usize> = None;
    let mut i: usize = 0;
    while i < keys.len()
        invariant
            i <= keys@.len(),
            first_largest(keys@, i as int, best),
        decreases keys@.len() - i,
    {
        match keys[i] {
            None => {},
            Some(k) => {
                let better: bool = match best {
                    None => true,
                    Some(b) => match keys[b] {
                        None => true,
                        Some(top) => k > top,
                    },
                };
                if better {
                    best = Some(i);
                }
            },
        }
        i += 1;
    }
    best
}

/// `order` lists the numbers below `n` from the largest key to the smallest,
/// numbers with equal keys in ascending order.
pub open spec fn is_ranking(keys: Seq<i64>, n: int, order: Seq<usize>) -> bool {
    &&& order.len() == n
    &&& forall|k: int| 0 <= k < n ==> (#[trigger] order[k]) < n
    &&& forall|a: int, b: int|
        0 <= a < b < n ==> outranks(keys, #[trigger] order[a] as int, #[trigger] order[b] as int)
}

/// Whether number `a` stands before number `b` in a ranking.
pub open spec fn outranks(keys: Seq<i64>, a: int, b: int) -> bool {
    keys[a] > keys[b] || keys[a] == keys[b] && a < b
}

/// Ranks numbers by their keys.
pub fn rank(keys: &Vec<i64>) -> (order: Vec<usize>)
    ensures
        is_ranking(keys@, keys@.len() as int, order@),
{
    let mut order: Vec<usize> = Vec::new();
    let mut i: usize = 0;
    while i < keys.len()
        invariant
            i <= keys@.len(),
            is_ranking(keys@, i as int, order@),
        decreases keys@.len() - i,
    {
        let mut at: usize = order.len();
        while at > 0 && keys[order[at - 1]] < keys[i]
            invariant
                i < keys@.len(),
                at <= order@.len(),
                is_ranking(keys@, i as int, order@),
                forall|k: int|
                    at <= k < order@.len() ==> keys@[(#[trigger] order@[k]) as int] < keys@[i as int],
            decreases at,
        {
            at -= 1;
        }
        let ghost before = order@;
        order.insert(at, i);
        proof {
            assert(order@ == before.insert(at as int, i));
            assert forall|a: int, b: int| 0 <= a < b < i + 1 implies outranks(
                keys@,
                #[trigger] order@[a] as int,
                #[trigger] order@[b] as int,
            ) by {
                let a0 = if a < at { a } else { a - 1 };
                let b0 = if b < at { b } else { b - 1 };
                if a != at && b != at {
                    assert(order@[a] == before[a0]);
                    assert(order@[b] == before[b0]);
                    assert(outranks(keys@, before[a0] as int, before[b0] as int));
                } else if b == at {
                    assert(order@[a] == before[a]);
                    assert(before[at - 1] < i);
                    if a < at - 1 {
                        assert(outranks(keys@, before[a] as int, before[at - 1] as int));
                    }
                } else {
                    assert(order@[b] == before[b - 1]);
                    assert(keys@[before[b - 1] as int] < keys@[i as int]);
                }
            }
            assert forall|k: int| 0 <= k < i + 1 implies (#[trigger] order@[k]) < i + 1 by {
                if k < at {
                    assert(before[k] < i);
                } else if k > at {
                    assert(before[k - 1] < i);
                }
            }
        }
        i += 1;
    }
    order
}

proof fn lemma_rankings_agree(keys: Seq<i64>, n: int, a: Seq<usize>, b: Seq<usize>, k: int)
    requires
        is_ranking(keys, n, a),
        is_ranking(keys, n, b),
        0 <= n <= usize::MAX,
        0 <= k <= n,
    ensures
        forall|j: int| 0 <= j < k ==> a[j] == #[trigger] b[j],
    decreases k,
{
    if k > 0 {
        lemma_rankings_agree(keys, n, a, b, k - 1);
        if a[k - 1] != b[k - 1] {
            lemma_ranking_complete(keys, n, a, b[k - 1] as int);
            lemma_ranking_complete(keys, n, b, a[k - 1] as int);
            let p = choose|p: int| 0 <= p < n && a[p] == b[k - 1];
            let q = choose|q: int| 0 <= q < n && b[q] == a[k - 1];
            if p < k - 1 {
                assert(b[p] == a[p]);
                assert(outranks(keys, b[p] as int, b[k - 1] as int));
            } else if q < k - 1 {
                assert(a[q] == b[q]);
                assert(outranks(keys, a[q] as int, a[k - 1] as int));
            } else {
                assert(outranks(keys, a[k - 1] as int, a[p] as int));
                assert(outranks(keys, b[k - 1] as int, b[q] as int));
            }
        }
    }
}

/// Every number stands somewhere in a ranking.
pub proof fn lemma_ranking_complete(keys: Seq<i64>, n: int, order: Seq<usize>, v: int)
    requires
        is_ranking(keys, n, order),
        0 <= v < n <= usize::MAX,
    ensures
        exists|p: int| 0 <= p < n && #[trigger] order[p] == v,
{
    if forall|p: int| 0 <= p < n ==> #[trigger] order[p] != v {
        let s = order.to_set();
        assert(order.no_duplicates()) by {
            assert forall|i: int, j: int| 0 <= i < n && 0 <= j < n && i != j implies order[i]
                != order[j] by {
                if i < j {
                    assert(outranks(keys, order[i] as int, order[j] as int));
                } else {
                    assert(outranks(keys, order[j] as int, order[i] as int));
                }
            }
        }
        order.unique_seq_to_set();
        let ints = s.map(|u: usize| u as int);
        vstd::set_lib::lemma_map_size(s, ints, |u: usize| u as int);
        let all = vstd::set_lib::set_int_range(0, n);
        vstd::set_lib::lemma_int_range(0, n);
        assert(ints.subset_of(all.remove(v))) by {
            assert forall|u: int| ints.contains(u) implies all.remove(v).contains(u) by {
                let q = choose|q: usize| s.contains(q) && q as int == u;
                let p = choose|p: int| 0 <= p < n && order[p] == q;
                assert(order[p] != v);
            }
        }
        vstd::set_lib::lemma_len_subset(ints, all.remove(v));
    }
}

/// Keys have one ranking only.
pub proof fn law_ranking_unique(keys: Seq<i64>, n: int, a: Seq<usize>, b: Seq<usize>)
    requires
        is_ranking(keys, n, a),
        is_ranking(keys, n, b),
        0 <= n <= usize::MAX,
    ensures
        a == b,
{
    lemma_rankings_agree(keys, n, a, b, n);
    assert(a =~= b);
}

/// The key of a double precision float, given by its bits, in a search for the
/// largest that starts from minus infinity: what is not larger than that has no
/// key, and both zeros have the same.
pub open spec fn double_key(bits: u64) -> Option<i64> {
    let size = bits as int % 0x8000_0000_0000_0000;
    let negative = bits >= 0x8000_0000_0000_0000;
    if size > 0x7FF0_0000_0000_0000 || (negative && size == 0x7FF0_0000_0000_0000) {
        None
    } else if negative {
        Some((-size) as i64)
    } else {
        Some(size as i64)
    }
}

/// The key of a double precision float.
pub fn key_of_double(bits: u64) -> (key: Option<i64>)
    ensures
        key == double_key(bits),
{
    let negative: bool = bits >= 0x8000_0000_0000_0000;
    let size: u64 = bits % 0x8000_0000_0000_0000;
    if size > 0x7FF0_0000_0000_0000 || (negative && size == 0x7FF0_0000_0000_0000) {
        None
    } else if negative {
        Some(-(size as i64))
    } else {
        Some(size as i64)
    }
}

/// The key of a single precision float, given by its bits, in the total order
/// of all floats.
pub open spec fn single_key(bits: u32) -> i64 {
    let size = bits as int % 0x8000_0000;
    if bits >= 0x8000_0000 {
        (-size - 1) as i64
    } else {
        size as i64
    }
}

/// The key of a single precision float.
pub fn key_of_single(bits: u32) -> (key: i64)
    ensures
        key == single_key(bits),
{
    let size: u32 = bits % 0x8000_0000;
    if bits >= 0x8000_0000 {
        -(size as i64) - 1
    } else {
        size as i64
    }
}

/// Different floats have different keys in the total order.
pub proof fn law_single_keys_differ(a: u32, b: u32)
    ensures
        single_key(a) == single_key(b) ==> a == b,
{
}

/// The key of a single precision float, given by its bits, in a search for the
/// largest that starts from zero: what is not larger than that has no key.
pub open spec fn positive_key(bits: u32) -> Option<i64> {
    if 0 < bits <= 0x7F80_0000 {
        Some(bits as i64)
    } else {
        None
    }
}

/// The key of a single precision float in a search that starts from zero.
pub fn key_of_positive(bits: u32) -> (key: Option<i64>)
    ensures
        key == positive_key(bits),
{
    if 0 < bits && bits <= 0x7F80_0000 {
        Some(bits as i64)
    } else {
        None
    }
}

// ---------------------------------------------------------------------------
// Laws
// ---------------------------------------------------------------------------

/// A ranking has every number once; a number with a larger key stands before one
/// with a smaller key, and of two with equal keys the smaller number stands first.
pub proof fn law_ranking_sorts(keys: Seq<i64>, order: Seq<usize>, a: int, b: int)
    requires
        is_ranking(keys, keys.len() as int, order),
        0 <= a < b < keys.len() <= usize::MAX,
    ensures
        order.len() == keys.len(),
        order.no_duplicates(),
        exists|p: int| 0 <= p < order.len() && #[trigger] order[p] == a,
        keys[order[a] as int] >= keys[order[b] as int],
        keys[order[a] as int] == keys[order[b] as int] ==> order[a] < order[b],
{
    lemma_ranking_complete(keys, keys.len() as int, order, a);
    assert(outranks(keys, order[a] as int, order[b] as int));
    assert forall|i: int, j: int| 0 <= i < order.len() && 0 <= j < order.len() && i != j implies
        order[i] != order[j] by {
        if i < j {
            assert(outranks(keys, order[i] as int, order[j] as int));
        } else {
            assert(outranks(keys, order[j] as int, order[i] as int));
        }
    }
}

/// A search for the largest key finds one whenever there is a key; none is larger,
/// and none as large stands before it.
pub proof fn law_largest_is_found(keys: Seq<Option<i64>>, best: Option<usize>, k: int)
    requires
        first_largest(keys, keys.len() as int, best),
        0 <= k < keys.len(),
    ensures
        keys[k] is Some ==> {
            &&& best is Some
            &&& best->0 < keys.len()
            &&& keys[best->0 as int] matches Some(top) && keys[k]->0 <= top
            &&& k < best->0 ==> keys[k]->0 < keys[best->0 as int]->0
        },
        best matches Some(i) ==> i < keys.len() && keys[i as int] is Some,
{
}

/// The keys of double precision floats are in the order of the floats, by their
/// bits: those of positive floats grow with the bits, those of negative ones fall,
/// a negative float is below a positive one, and both zeros are equal. Minus
/// infinity and what is no number have no key.
pub proof fn law_double_keys_in_order(a: u64, b: u64)
    ensures
        double_key(a) is None <==> 0x7FF0_0000_0000_0000 < a < 0x8000_0000_0000_0000 || a
            >= 0xFFF0_0000_0000_0000,
        double_key(a) is Some && double_key(b) is Some ==> {
            let (x, y) = (double_key(a)->0, double_key(b)->0);
            &&& a < 0x8000_0000_0000_0000 && b < 0x8000_0000_0000_0000 ==> (x < y <==> a < b)
            &&& a >= 0x8000_0000_0000_0000 && b >= 0x8000_0000_0000_0000 ==> (x < y <==> a > b)
            &&& a < 0x8000_0000_0000_0000 <= b ==> y <= x && (x == y <==> a == 0 && b
                == 0x8000_0000_0000_0000)
        },
{
}

/// The keys of single precision floats are in the total order of the floats, by
/// their bits.
pub proof fn law_single_keys_in_order(a: u32, b: u32)
    ensures
        a < 0x8000_0000 && b < 0x8000_0000 ==> (single_key(a) < single_key(b) <==> a < b),
        a >= 0x8000_0000 && b >= 0x8000_0000 ==> (single_key(a) < single_key(b) <==> a > b),
        a < 0x8000_0000 <= b ==> single_key(b) < single_key(a),
{
}

/// Exactly the floats above zero have a key in a search that starts from zero, up
/// to infinity, and their keys are in the order of the floats.
pub proof fn law_positive_keys_in_order(a: u32, b: u32)
    ensures
        positive_key(a) is Some <==> 0 < a <= 0x7F80_0000,
        positive_key(a) is Some && positive_key(b) is Some ==> (positive_key(a)->0 < positive_key(
            b,
        )->0 <==> a < b),
{
}

} // verus!
