//! Labelling the 8-connected components of a mask.

use crate::grid::{cell, column, lemma_cell, lemma_position, row};
use vstd::prelude::*;

verus! {

/// Whether two positions of a grid `w` wide touch, by a side or by a corner. A
/// position touches itself.
pub open spec fn touching(w: int, a: int, b: int) -> bool {
    &&& -1 <= column(w, a) - column(w, b) <= 1
    &&& -1 <= row(w, a) - row(w, b) <= 1
}

/// Whether `i` is a set position of the mask.
pub open spec fn marked(mask: Seq<u8>, i: int) -> bool {
    0 <= i < mask.len() && mask[i] != 0
}

/// A walk over set positions in which each one touches the next.
pub open spec fn is_walk(mask: Seq<u8>, w: int, path: Seq<int>) -> bool {
    &&& path.len() > 0
    &&& forall|k: int| 0 <= k < path.len() ==> #[trigger] marked(mask, path[k])
    &&& forall|k: int, m: int|
        0 <= k < path.len() && m == k + 1 && m < path.len() ==> #[trigger] touching(
            w,
            path[k],
            path[m],
        )
}

/// Whether `path` is a walk from `a` to `b`.
pub open spec fn walks(mask: Seq<u8>, w: int, path: Seq<int>, a: int, b: int) -> bool {
    is_walk(mask, w, path) && path.first() == a && path.last() == b
}

/// Whether two positions belong to one component of the mask.
pub open spec fn connected(mask: Seq<u8>, w: int, a: int, b: int) -> bool {
    exists|path: Seq<int>| #[trigger] walks(mask, w, path, a, b)
}

/// How many of the first `n` labels are `l`.
pub open spec fn count_of(labels: Seq<u32>, l: u32, n: int) -> nat
    decreases n,
{
    if n <= 0 {
        0
    } else {
        count_of(labels, l, n - 1) + if labels[n - 1] == l {
            1nat
        } else {
            0nat
        }
    }
}

/// `labels` numbers the components of the mask: 0 where the mask is clear,
/// otherwise one number per component, given out from 1 upwards in the order
/// in which the components are first met in storage order. `areas[l]` is the
/// number of positions of component `l`.
#[verifier::opaque]
pub open spec fn is_labelling(
    mask: Seq<u8>,
    w: int,
    labels: Seq<u32>,
    areas: Seq<u32>,
) -> bool {
    &&& labels.len() == mask.len()
    &&& 0 < areas.len() <= u32::MAX
    &&& areas[0] == 0
    &&& forall|i: int|
        0 <= i < mask.len() ==> ((#[trigger] labels[i]) != 0 <==> mask[i] != 0)
    &&& forall|i: int| 0 <= i < mask.len() ==> (#[trigger] labels[i]) < areas.len()
    &&& forall|i: int, j: int|
        0 <= i < mask.len() && 0 <= j < mask.len() && labels[i] != 0 && labels[j] != 0 ==> ((
        #[trigger] labels[i]) == (#[trigger] labels[j]) <==> connected(mask, w, i, j))
    &&& forall|i: int|
        0 <= i < mask.len() && (#[trigger] labels[i]) > 1 ==> met_before(labels, i, (labels[i] - 1) as u32)
    &&& forall|l: u32|
        0 < l < areas.len() ==> (#[trigger] areas[l as int]) > 0 && areas[l as int] == count_of(
            labels,
            l,
            mask.len() as int,
        )
}

/// Whether label `l` occurs before position `i`.
pub open spec fn met_before(labels: Seq<u32>, i: int, l: u32) -> bool {
    exists|j: int| 0 <= j < i && #[trigger] labels[j] == l
}

proof fn lemma_touching_symmetric(w: int, a: int, b: int)
    ensures
        touching(w, a, b) == touching(w, b, a),
{
}

proof fn lemma_connected_self(mask: Seq<u8>, w: int, a: int)
    requires
        marked(mask, a),
    ensures
        connected(mask, w, a, a),
{
    let path = seq![a];
    assert(walks(mask, w, path, a, a));
}

proof fn lemma_connected_step(mask: Seq<u8>, w: int, a: int, b: int, c: int)
    requires
        connected(mask, w, a, b),
        touching(w, b, c),
        marked(mask, c),
    ensures
        connected(mask, w, a, c),
{
    let path = choose|path: Seq<int>| #[trigger] walks(mask, w, path, a, b);
    let longer = path.push(c);
    assert forall|k: int| 0 <= k < longer.len() implies #[trigger] marked(mask, longer[k]) by {
        if k < path.len() {
            assert(marked(mask, path[k]));
        }
    }
    assert forall|k: int, m: int|
        0 <= k < longer.len() && m == k + 1 && m < longer.len() implies #[trigger] touching(
        w,
        longer[k],
        longer[m],
    ) by {
        if m < path.len() {
            assert(touching(w, path[k], path[m]));
        }
    }
    assert(walks(mask, w, longer, a, c));
}

/// Being in one component is symmetric.
pub proof fn lemma_connected_symmetric(mask: Seq<u8>, w: int, a: int, b: int)
    requires
        connected(mask, w, a, b),
    ensures
        connected(mask, w, b, a),
{
    let path = choose|path: Seq<int>| #[trigger] walks(mask, w, path, a, b);
    let back = path.reverse();
    assert forall|k: int| 0 <= k < back.len() implies #[trigger] marked(mask, back[k]) by {
        assert(marked(mask, path[path.len() - 1 - k]));
    }
    assert forall|k: int, m: int|
        0 <= k < back.len() && m == k + 1 && m < back.len() implies #[trigger] touching(
        w,
        back[k],
        back[m],
    ) by {
        assert(touching(w, path[path.len() - 1 - m], path[path.len() - 1 - k]));
    }
    assert(walks(mask, w, back, b, a));
}

/// Being in one component is transitive.
pub proof fn lemma_connected_transitive(mask: Seq<u8>, w: int, a: int, b: int, c: int)
    requires
        connected(mask, w, a, b),
        connected(mask, w, b, c),
    ensures
        connected(mask, w, a, c),
{
    let p = choose|path: Seq<int>| #[trigger] walks(mask, w, path, a, b);
    let q = choose|path: Seq<int>| #[trigger] walks(mask, w, path, b, c);
    let both = p + q.drop_first();
    assert forall|k: int| 0 <= k < both.len() implies #[trigger] marked(mask, both[k]) by {
        if k < p.len() {
            assert(marked(mask, p[k]));
        } else {
            assert(marked(mask, q[k - p.len() + 1]));
        }
    }
    assert forall|k: int, m: int|
        0 <= k < both.len() && m == k + 1 && m < both.len() implies #[trigger] touching(
        w,
        both[k],
        both[m],
    ) by {
        if m < p.len() {
            assert(touching(w, p[k], p[m]));
        } else {
            assert(both[m] == q[m - p.len() + 1]);
            assert(both[k] == q[k - p.len() + 1]);
            assert(touching(w, q[k - p.len() + 1], q[m - p.len() + 1]));
        }
    }
    assert(walks(mask, w, both, a, c));
}

/// A label that spreads to every touching set position is constant along walks.
proof fn lemma_closed_along_walk(
    mask: Seq<u8>,
    w: int,
    labels: Seq<u32>,
    bound: u32,
    path: Seq<int>,
    k: int,
)
    requires
        labels.len() == mask.len(),
        forall|i: int| 0 <= i < mask.len() ==> (#[trigger] labels[i]) < bound,
        is_walk(mask, w, path),
        0 <= k < path.len(),
        labels[path[0]] != 0,
        spread(mask, w, labels, bound),
    ensures
        labels[path[k]] == labels[path[0]],
    decreases k,
{
    if k > 0 {
        lemma_closed_along_walk(mask, w, labels, bound, path, k - 1);
        assert(marked(mask, path[k - 1]));
        assert(marked(mask, path[k]));
        assert(touching(w, path[k - 1], path[k]));
    }
}

/// Labels below `bound` have spread: what touches a position that carries one
/// carries the same one.
spec fn spread(mask: Seq<u8>, w: int, labels: Seq<u32>, bound: u32) -> bool {
    forall|a: int, b: int|
        #![trigger touching(w, a, b)]
        marked(mask, a) && marked(mask, b) && 0 < labels[a] < bound && touching(w, a, b)
            ==> labels[b] == labels[a]
}

proof fn lemma_count_bound(labels: Seq<u32>, l: u32, n: int)
    requires
        0 <= n <= labels.len(),
    ensures
        count_of(labels, l, n) <= n,
    decreases n,
{
    if n > 0 {
        lemma_count_bound(labels, l, n - 1);
    }
}

/// Writing label `to` over label `from` moves one from the one count to the
/// other.
proof fn lemma_count_update(labels: Seq<u32>, i: int, to: u32, l: u32, n: int)
    requires
        0 <= i < labels.len(),
        0 <= n <= labels.len(),
        labels[i] != to,
    ensures
        count_of(labels.update(i, to), l, n) == count_of(labels, l, n) + (if i < n && l == to {
            1int
        } else if i < n && l == labels[i] {
            -1int
        } else {
            0int
        }),
    decreases n,
{
    if n > 0 {
        lemma_count_update(labels, i, to, l, n - 1);
    }
}

proof fn lemma_count_none(labels: Seq<u32>, l: u32, n: int)
    requires
        0 <= n <= labels.len(),
        forall|i: int| 0 <= i < n ==> (#[trigger] labels[i]) != l,
    ensures
        count_of(labels, l, n) == 0,
    decreases n,
{
    if n > 0 {
        lemma_count_none(labels, l, n - 1);
    }
}

proof fn lemma_count_positive(labels: Seq<u32>, l: u32, n: int, i: int)
    requires
        0 <= i < n <= labels.len(),
        labels[i] == l,
    ensures
        count_of(labels, l, n) > 0,
    decreases n,
{
    if i < n - 1 {
        lemma_count_positive(labels, l, n - 1, i);
    }
}

/// What holds of the labels while component `id` is being filled from `start`:
/// everything below `id` is complete, everything with `id` hangs together.
spec fn filling(mask: Seq<u8>, w: int, labels: Seq<u32>, id: u32, start: int) -> bool {
    &&& labels.len() == mask.len()
    &&& marked(mask, start)
    &&& labels[start] == id
    &&& id > 0
    &&& forall|i: int| 0 <= i < mask.len() && (#[trigger] labels[i]) != 0 ==> mask[i] != 0
    &&& forall|i: int| 0 <= i < mask.len() ==> (#[trigger] labels[i]) <= id
    &&& spread(mask, w, labels, id)
    &&& forall|i: int|
        0 <= i < mask.len() && #[trigger] labels[i] == id ==> connected(mask, w, start, i)
}

/// Labels below `id` are as they were.
spec fn keeps_older(before: Seq<u32>, labels: Seq<u32>, id: u32) -> bool {
    &&& labels.len() == before.len()
    &&& forall|i: int|
        0 <= i < before.len() && before[i] != 0 ==> #[trigger] labels[i] == before[i]
    &&& forall|i: int|
        0 <= i < before.len() && before[i] == 0 ==> (#[trigger] labels[i]) == 0 || labels[i] == id
}

/// Every set position that touches `a` and lies before the scan position
/// (`xx`, `yy`) of the neighbourhood scan carries `id`.
spec fn scanned(mask: Seq<u8>, w: int, labels: Seq<u32>, id: u32, a: int, xx: int, yy: int) -> bool {
    forall|b: int|
        #![trigger touching(w, a, b)]
        marked(mask, b) && touching(w, a, b) && (row(w, b) < yy || row(w, b) == yy && column(
            w,
            b,
        ) < xx) ==> labels[b] == id
}

/// Positions of `id` that no longer wait on the stack, other than `except`,
/// have spread.
spec fn settled(mask: Seq<u8>, w: int, labels: Seq<u32>, id: u32, stack: Seq<usize>, except: int) -> bool {
    forall|a: int, b: int|
        #![trigger touching(w, a, b)]
        marked(mask, a) && marked(mask, b) && labels[a] == id && a != except && !stack.contains(
            a as usize,
        ) && touching(w, a, b) ==> labels[b] == id
}

/// Every entry of the stack is a position that carries `id`.
spec fn waiting(labels: Seq<u32>, id: u32, stack: Seq<usize>) -> bool {
    forall|k: int|
        0 <= k < stack.len() ==> (#[trigger] stack[k]) < labels.len() && labels[stack[k] as int]
            == id
}

/// Gives `id` to every set position that touches `i` and has no label yet, and
/// puts it on the stack.
fn spread_from(
    mask: &[u8],
    w: usize,
    h: usize,
    id: u32,
    i: usize,
    labels: &mut Vec<u32>,
    stack: &mut Vec<usize>,
    Ghost(start): Ghost<int>,
)
    requires
        w > 0,
        h > 0,
        mask@.len() == w * h,
        w * h < u32::MAX,
        i < mask@.len(),
        old(labels)@[i as int] == id,
        filling(mask@, w as int, old(labels)@, id, start),
        waiting(old(labels)@, id, old(stack)@),
        settled(mask@, w as int, old(labels)@, id, old(stack)@, i as int),
    ensures
        filling(mask@, w as int, final(labels)@, id, start),
        waiting(final(labels)@, id, final(stack)@),
        settled(mask@, w as int, final(labels)@, id, final(stack)@, -1),
        keeps_older(old(labels)@, final(labels)@, id),
        final(stack)@.len() >= old(stack)@.len(),
        count_of(final(labels)@, id, mask@.len() as int) - count_of(
            old(labels)@,
            id,
            mask@.len() as int,
        ) == final(stack)@.len() - old(stack)@.len(),
        count_of(old(labels)@, 0, mask@.len() as int) - count_of(
            final(labels)@,
            0,
            mask@.len() as int,
        ) == final(stack)@.len() - old(stack)@.len(),
{
    let ghost before = labels@;
    let ghost before_stack = stack@;
    let ghost n = mask@.len() as int;
    proof {
        lemma_position(w as int, h as int, i as int);
    }
    let x: usize = i % w;
    let y: usize = i / w;
    let x0: usize = if x > 0 { x - 1 } else { 0 };
    let x1: usize = if x + 1 < w { x + 1 } else { w - 1 };
    let y0: usize = if y > 0 { y - 1 } else { 0 };
    let y1: usize = if y + 1 < h { y + 1 } else { h - 1 };
    let mut yy: usize = y0;
    assert(scanned(mask@, w as int, labels@, id, i as int, x0 as int, y0 as int)) by {
        assert forall|b: int|
            #![trigger touching(w as int, i as int, b)]
            marked(mask@, b) && touching(w as int, i as int, b) && (row(w as int, b) < y0 || row(
                w as int,
                b,
            ) == y0 && column(w as int, b) < x0) implies labels@[b] == id by {
            lemma_position(w as int, h as int, b);
        }
    }
    while yy <= y1
        invariant
            w > 0,
            h > 0,
            n == w * h,
            n == mask@.len(),
            w * h < u32::MAX,
            i < n,
            x == column(w as int, i as int),
            y == row(w as int, i as int),
            x < w,
            y < h,
            x0 == if x > 0 { x - 1 } else { 0 },
            x1 == if x + 1 < w { x + 1 } else { w - 1 },
            y0 == if y > 0 { y - 1 } else { 0 },
            y1 == if y + 1 < h { y + 1 } else { h - 1 },
            y0 <= yy <= y1 + 1,
            labels@[i as int] == id,
            filling(mask@, w as int, labels@, id, start),
            waiting(labels@, id, stack@),
            settled(mask@, w as int, labels@, id, stack@, i as int),
            keeps_older(before, labels@, id),
            before.len() == n,
            stack@.len() >= before_stack.len(),
            count_of(labels@, id, n) - count_of(before, id, n) == stack@.len() - before_stack.len(),
            count_of(before, 0, n) - count_of(labels@, 0, n) == stack@.len() - before_stack.len(),
            scanned(mask@, w as int, labels@, id, i as int, x0 as int, yy as int),
        decreases y1 + 1 - yy,
    {
        let mut xx: usize = x0;
        while xx <= x1
            invariant
                w > 0,
                h > 0,
                n == w * h,
                n == mask@.len(),
                w * h < u32::MAX,
                i < n,
                x == column(w as int, i as int),
                y == row(w as int, i as int),
                x < w,
                y < h,
                x0 == if x > 0 { x - 1 } else { 0 },
                x1 == if x + 1 < w { x + 1 } else { w - 1 },
                y0 == if y > 0 { y - 1 } else { 0 },
                y1 == if y + 1 < h { y + 1 } else { h - 1 },
                y0 <= yy <= y1,
                x0 <= xx <= x1 + 1,
                labels@[i as int] == id,
                filling(mask@, w as int, labels@, id, start),
                waiting(labels@, id, stack@),
                settled(mask@, w as int, labels@, id, stack@, i as int),
                keeps_older(before, labels@, id),
                before.len() == n,
                stack@.len() >= before_stack.len(),
                count_of(labels@, id, n) - count_of(before, id, n) == stack@.len()
                    - before_stack.len(),
                count_of(before, 0, n) - count_of(labels@, 0, n) == stack@.len()
                    - before_stack.len(),
                scanned(mask@, w as int, labels@, id, i as int, xx as int, yy as int),
            decreases x1 + 1 - xx,
        {
            proof {
                lemma_cell(w as int, h as int, xx as int, yy as int);
            }
            let j: usize = yy * w + xx;
            let ghost prev = labels@;
            let ghost prev_stack = stack@;
            assert(j == cell(w as int, xx as int, yy as int));
            assert(touching(w as int, i as int, j as int));
            if mask[j] != 0 && labels[j] == 0 {
                labels.set(j, id);
                stack.push(j);
                proof {
                    lemma_count_update(prev, j as int, id, id, n);
                    lemma_count_update(prev, j as int, id, 0, n);
                    lemma_connected_step(mask@, w as int, start, i as int, j as int);
                    assert(labels@ == prev.update(j as int, id));
                    assert(stack@ == prev_stack.push(j));
                    assert forall|k: int| 0 <= k < stack@.len() implies (#[trigger] stack@[k])
                        < labels@.len() && labels@[stack@[k] as int] == id by {
                        if k < prev_stack.len() {
                            assert(prev_stack[k] < prev.len());
                        }
                    }
                    assert(stack@.contains(j)) by {
                        assert(stack@[prev_stack.len() as int] == j);
                    }
                    assert forall|v: usize| prev_stack.contains(v) implies stack@.contains(v) by {
                        let k = choose|k: int| 0 <= k < prev_stack.len() && prev_stack[k] == v;
                        assert(stack@[k] == v);
                    }
                    assert(spread(mask@, w as int, labels@, id)) by {
                        assert forall|a: int, b: int|
                            #![trigger touching(w as int, a, b)]
                            marked(mask@, a) && marked(mask@, b) && 0 < labels@[a] < id && touching(
                                w as int,
                                a,
                                b,
                            ) implies labels@[b] == labels@[a] by {
                            assert(prev[a] == labels@[a]);
                            assert(prev[b] == prev[a]);
                        }
                    }
                }
            } else {
                proof {
                    if mask@[j as int] != 0 && labels@[j as int] != id {
                        lemma_touching_symmetric(w as int, i as int, j as int);
                        assert(marked(mask@, j as int) && marked(mask@, i as int));
                        assert(touching(w as int, j as int, i as int));
                        assert(labels@[i as int] == labels@[j as int]);
                    }
                }
            }
            assert(scanned(mask@, w as int, labels@, id, i as int, xx + 1, yy as int)) by {
                assert forall|b: int|
                    #![trigger touching(w as int, i as int, b)]
                    marked(mask@, b) && touching(w as int, i as int, b) && (row(w as int, b) < yy
                        || row(w as int, b) == yy && column(w as int, b) < xx
                        + 1) implies labels@[b] == id by {
                    lemma_position(w as int, h as int, b);
                    if row(w as int, b) == yy && column(w as int, b) == xx {
                        assert(b == j);
                    }
                }
            }
            xx += 1;
        }
        assert(scanned(mask@, w as int, labels@, id, i as int, x0 as int, yy + 1)) by {
            assert forall|b: int|
                #![trigger touching(w as int, i as int, b)]
                marked(mask@, b) && touching(w as int, i as int, b) && (row(w as int, b) < yy + 1
                    || row(w as int, b) == yy + 1 && column(w as int, b) < x0) implies labels@[b]
                == id by {
                lemma_position(w as int, h as int, b);
            }
        }
        yy += 1;
    }
    assert(settled(mask@, w as int, labels@, id, stack@, -1)) by {
        assert forall|a: int, b: int|
            #![trigger touching(w as int, a, b)]
            marked(mask@, a) && marked(mask@, b) && labels@[a] == id && !stack@.contains(
                a as usize,
            ) && touching(w as int, a, b) implies labels@[b] == id by {
            if a == i {
                lemma_position(w as int, h as int, b);
            }
        }
    }
}

/// What holds of the labels and areas when every component with a label below
/// `next` is complete.
spec fn complete_below(mask: Seq<u8>, w: int, labels: Seq<u32>, areas: Seq<u32>) -> bool {
    let next = areas.len() as int;
    &&& labels.len() == mask.len()
    &&& 0 < next <= u32::MAX
    &&& areas[0] == 0
    &&& forall|i: int| 0 <= i < mask.len() && (#[trigger] labels[i]) != 0 ==> mask[i] != 0
    &&& forall|i: int| 0 <= i < mask.len() ==> (#[trigger] labels[i]) < next
    &&& spread(mask, w, labels, next as u32)
    &&& forall|i: int, j: int|
        0 <= i < mask.len() && 0 <= j < mask.len() && labels[i] != 0 && (#[trigger] labels[i]) == (
        #[trigger] labels[j]) ==> connected(mask, w, i, j)
    &&& forall|i: int|
        0 <= i < mask.len() && (#[trigger] labels[i]) > 1 ==> met_before(
            labels,
            i,
            (labels[i] - 1) as u32,
        )
    &&& forall|l: u32|
        0 < l < next ==> (#[trigger] areas[l as int]) > 0 && areas[l as int] == count_of(
            labels,
            l,
            mask.len() as int,
        )
}

/// Counts of labels that are not touched stay.
proof fn lemma_count_kept(before: Seq<u32>, labels: Seq<u32>, id: u32, l: u32, n: int)
    requires
        keeps_older(before, labels, id),
        0 <= n <= labels.len(),
        0 < l,
        l != id,
    ensures
        count_of(labels, l, n) == count_of(before, l, n),
    decreases n,
{
    if n > 0 {
        lemma_count_kept(before, labels, id, l, n - 1);
        if before[n - 1] == 0 {
            assert(labels[n - 1] == 0 || labels[n - 1] == id);
        } else {
            assert(labels[n - 1] == before[n - 1]);
        }
    }
}

/// Fills the component of `start` with the next label and returns its area.
fn fill(
    mask: &[u8],
    w: usize,
    h: usize,
    start: usize,
    id: u32,
    labels: &mut Vec<u32>,
) -> (area: u32)
    requires
        w > 0,
        h > 0,
        mask@.len() == w * h,
        w * h < u32::MAX,
        id > 0,
        start < mask@.len(),
        mask@[start as int] != 0,
        old(labels)@.len() == mask@.len(),
        old(labels)@[start as int] == 0,
        forall|i: int|
            0 <= i < mask@.len() && (#[trigger] old(labels)@[i]) != 0 ==> mask@[i] != 0,
        forall|i: int| 0 <= i < mask@.len() ==> (#[trigger] old(labels)@[i]) < id,
        spread(mask@, w as int, old(labels)@, id),
    ensures
        filling(mask@, w as int, final(labels)@, id, start as int),
        settled(mask@, w as int, final(labels)@, id, Seq::<usize>::empty(), -1),
        keeps_older(old(labels)@, final(labels)@, id),
        area == count_of(final(labels)@, id, mask@.len() as int),
        area > 0,
{
    let ghost before = labels@;
    let ghost n = mask@.len() as int;
    let mut area: u32 = 0;
    let mut stack: Vec<usize> = Vec::new();
    labels.set(start, id);
    stack.push(start);
    proof {
        lemma_count_update(before, start as int, id, id, n);
        lemma_count_none(before, id, n);
        assert(labels@ == before.update(start as int, id));
        lemma_connected_self(mask@, w as int, start as int);
        assert(stack@[0] == start);
        assert(stack@.contains(start));
        assert(spread(mask@, w as int, labels@, id)) by {
            assert forall|a: int, b: int|
                #![trigger touching(w as int, a, b)]
                marked(mask@, a) && marked(mask@, b) && 0 < labels@[a] < id && touching(
                    w as int,
                    a,
                    b,
                ) implies labels@[b] == labels@[a] by {
                assert(before[a] == labels@[a]);
                assert(before[b] == before[a]);
            }
        }
    }
    while stack.len() > 0
        invariant
            w > 0,
            h > 0,
            n == mask@.len(),
            n == w * h,
            w * h < u32::MAX,
            start < n,
            before.len() == n,
            filling(mask@, w as int, labels@, id, start as int),
            waiting(labels@, id, stack@),
            settled(mask@, w as int, labels@, id, stack@, -1),
            keeps_older(before, labels@, id),
            area + stack@.len() == count_of(labels@, id, n),
        decreases count_of(labels@, 0, n), stack@.len(),
    {
        let ghost prev_stack = stack@;
        match stack.pop() {
            None => {},
            Some(i) => {
                proof {
                    lemma_count_bound(labels@, id, n);
                    assert(prev_stack[prev_stack.len() - 1] == i);
                    assert(prev_stack == stack@.push(i));
                    assert forall|k: int| 0 <= k < stack@.len() implies (#[trigger] stack@[k])
                        < labels@.len() && labels@[stack@[k] as int] == id by {
                        assert(prev_stack[k] == stack@[k]);
                    }
                    assert(settled(mask@, w as int, labels@, id, stack@, i as int)) by {
                        assert forall|a: int, b: int|
                            #![trigger touching(w as int, a, b)]
                            marked(mask@, a) && marked(mask@, b) && labels@[a] == id && a != i
                                && !stack@.contains(a as usize) && touching(
                                w as int,
                                a,
                                b,
                            ) implies labels@[b] == id by {
                            if prev_stack.contains(a as usize) {
                                let k = choose|k: int|
                                    0 <= k < prev_stack.len() && prev_stack[k] == a as usize;
                                if k < stack@.len() {
                                    assert(stack@[k] == a as usize);
                                }
                            }
                        }
                    }
                }
                area += 1;
                spread_from(mask, w, h, id, i, labels, &mut stack, Ghost(start as int));
            },
        }
    }
    proof {
        assert(stack@ =~= Seq::<usize>::empty());
        lemma_count_positive(labels@, id, n, start as int);
    }
    area
}

/// Labels the 8-connected components of a `w` by `h` mask and measures them.
/// `areas` has one entry per component behind an unused entry 0.
pub fn label_components(mask: &[u8], w: usize, h: usize) -> (r: (Vec<u32>, Vec<u32>))
    requires
        w > 0,
        h > 0,
        mask@.len() == w * h,
        w * h < u32::MAX,
    ensures
        is_labelling(mask@, w as int, r.0@, r.1@),
{
    let ghost n = mask@.len() as int;
    let total: usize = mask.len();
    let mut labels: Vec<u32> = Vec::new();
    while labels.len() < total
        invariant
            total == n,
            labels@.len() <= n,
            forall|i: int| 0 <= i < labels@.len() ==> (#[trigger] labels@[i]) == 0,
        decreases total - labels.len(),
    {
        labels.push(0);
    }
    let mut areas: Vec<u32> = Vec::new();
    areas.push(0);
    let mut start: usize = 0;
    while start < total
        invariant
            w > 0,
            h > 0,
            total == n,
            n == mask@.len(),
            n == w * h,
            w * h < u32::MAX,
            start <= n,
            complete_below(mask@, w as int, labels@, areas@),
            areas@.len() <= start + 1,
            forall|i: int| 0 <= i < start && mask@[i] != 0 ==> (#[trigger] labels@[i]) != 0,
            forall|l: u32| 0 < l < areas@.len() ==> #[trigger] met_before(labels@, start as int, l),
        decreases n - start,
    {
        if mask[start] != 0 && labels[start] == 0 {
            let id: u32 = areas.len() as u32;
            let ghost before = labels@;
            let ghost old_areas = areas@;
            let area: u32 = fill(mask, w, h, start, id, &mut labels);
            areas.push(area);
            proof {
                lemma_new_component(
                    mask@,
                    w as int,
                    before,
                    labels@,
                    old_areas,
                    area,
                    start as int,
                );
                assert(areas@ == old_areas.push(area));
                assert forall|l: u32| 0 < l < areas@.len() implies #[trigger] met_before(
                    labels@,
                    start + 1,
                    l,
                ) by {
                    if l == id {
                        assert(labels@[start as int] == l);
                    } else {
                        assert(met_before(before, start as int, l));
                        let j = choose|j: int| 0 <= j < start && #[trigger] before[j] == l;
                        assert(labels@[j] == l);
                    }
                }
            }
        } else {
            proof {
                assert forall|l: u32| 0 < l < areas@.len() implies #[trigger] met_before(
                    labels@,
                    start + 1,
                    l,
                ) by {
                    assert(met_before(labels@, start as int, l));
                    let j = choose|j: int| 0 <= j < start && #[trigger] labels@[j] == l;
                    assert(labels@[j] == l);
                }
            }
        }
        start += 1;
    }
    proof {
        reveal(is_labelling);
        assert forall|i: int, j: int|
            0 <= i < n && 0 <= j < n && labels@[i] != 0 && labels@[j] != 0 implies ((
        #[trigger] labels@[i]) == (#[trigger] labels@[j]) <==> connected(
            mask@,
            w as int,
            i,
            j,
        )) by {
            if connected(mask@, w as int, i, j) {
                let path = choose|path: Seq<int>| #[trigger] walks(mask@, w as int, path, i, j);
                lemma_closed_along_walk(
                    mask@,
                    w as int,
                    labels@,
                    areas@.len() as u32,
                    path,
                    path.len() - 1,
                );
            }
        }
    }
    (labels, areas)
}

/// A freshly filled component is complete.
proof fn lemma_new_component(
    mask: Seq<u8>,
    w: int,
    before: Seq<u32>,
    labels: Seq<u32>,
    areas: Seq<u32>,
    area: u32,
    start: int,
)
    requires
        complete_below(mask, w, before, areas),
        areas.len() < u32::MAX,
        filling(mask, w, labels, areas.len() as u32, start),
        settled(mask, w, labels, areas.len() as u32, Seq::<usize>::empty(), -1),
        keeps_older(before, labels, areas.len() as u32),
        area == count_of(labels, areas.len() as u32, mask.len() as int),
        area > 0,
        forall|i: int| 0 <= i < start && mask[i] != 0 ==> (#[trigger] before[i]) != 0,
        before[start] == 0,
        forall|l: u32| 0 < l < areas.len() ==> #[trigger] met_before(before, start, l),
    ensures
        complete_below(mask, w, labels, areas.push(area)),
{
    let id = areas.len() as u32;
    let grown = areas.push(area);
    assert forall|i: int, j: int|
        0 <= i < mask.len() && 0 <= j < mask.len() && labels[i] != 0 && (#[trigger] labels[i]) == (
        #[trigger] labels[j]) implies connected(mask, w, i, j) by {
        if labels[i] == id {
            assert(connected(mask, w, start, i));
            assert(connected(mask, w, start, j));
            lemma_connected_symmetric(mask, w, start, i);
            lemma_connected_transitive(mask, w, i, start, j);
        } else {
            assert(before[i] == labels[i]);
            assert(before[j] == labels[j]);
        }
    }
    assert(spread(mask, w, labels, (id + 1) as u32)) by {
        assert forall|a: int, b: int|
            #![trigger touching(w, a, b)]
            marked(mask, a) && marked(mask, b) && 0 < labels[a] < id + 1 && touching(
                w,
                a,
                b,
            ) implies labels[b] == labels[a] by {
            if labels[a] == id {
                assert(!Seq::<usize>::empty().contains(a as usize));
            }
        }
    }
    assert forall|i: int| 0 <= i < mask.len() && (#[trigger] labels[i]) > 1 implies met_before(
        labels,
        i,
        (labels[i] - 1) as u32,
    ) by {
        let want = (labels[i] - 1) as u32;
        if before[i] != 0 {
            assert(before[i] == labels[i]);
            assert(met_before(before, i, want));
            let j = choose|j: int| 0 <= j < i && #[trigger] before[j] == want;
            assert(labels[j] == want);
        } else {
            assert(i >= start);
            assert(met_before(before, start, want));
            let j = choose|j: int| 0 <= j < start && #[trigger] before[j] == want;
            assert(labels[j] == want);
        }
    }
    assert forall|l: u32| 0 < l < grown.len() implies (#[trigger] grown[l as int]) > 0
        && grown[l as int] == count_of(labels, l, mask.len() as int) by {
        if l != id {
            lemma_count_kept(before, labels, id, l, mask.len() as int);
            assert(areas[l as int] > 0);
        }
    }
}

proof fn lemma_lower_labels_met(
    mask: Seq<u8>,
    w: int,
    labels: Seq<u32>,
    areas: Seq<u32>,
    i: int,
    l: u32,
)
    requires
        is_labelling(mask, w, labels, areas),
        0 <= i < mask.len(),
        0 < l < labels[i],
    ensures
        met_before(labels, i, l),
    decreases labels[i] - l,
{
    reveal(is_labelling);
    let below = (labels[i] - 1) as u32;
    assert(met_before(labels, i, below));
    let j = choose|j: int| 0 <= j < i && #[trigger] labels[j] == below;
    if l < below {
        lemma_lower_labels_met(mask, w, labels, areas, j, l);
        let k = choose|k: int| 0 <= k < j && #[trigger] labels[k] == l;
        assert(labels[k] == l);
    }
}

proof fn lemma_labels_agree(
    mask: Seq<u8>,
    w: int,
    labels: Seq<u32>,
    areas: Seq<u32>,
    other: Seq<u32>,
    other_areas: Seq<u32>,
    i: int,
)
    requires
        is_labelling(mask, w, labels, areas),
        is_labelling(mask, w, other, other_areas),
        0 <= i < mask.len(),
        forall|j: int| 0 <= j < i ==> #[trigger] labels[j] == other[j],
    ensures
        labels[i] <= other[i],
{
    reveal(is_labelling);
    if labels[i] > other[i] {
        assert(mask[i] != 0);
        assert(other[i] != 0);
        lemma_lower_labels_met(mask, w, labels, areas, i, other[i]);
        let j = choose|j: int| 0 <= j < i && #[trigger] labels[j] == other[i];
        assert(other[j] == other[i]);
        assert(connected(mask, w, j, i));
        assert(labels[j] == labels[i]);
    }
}

proof fn lemma_labels_agree_upto(
    mask: Seq<u8>,
    w: int,
    labels: Seq<u32>,
    areas: Seq<u32>,
    other: Seq<u32>,
    other_areas: Seq<u32>,
    n: int,
)
    requires
        is_labelling(mask, w, labels, areas),
        is_labelling(mask, w, other, other_areas),
        0 <= n <= mask.len(),
    ensures
        forall|j: int| 0 <= j < n ==> #[trigger] labels[j] == other[j],
    decreases n,
{
    if n > 0 {
        lemma_labels_agree_upto(mask, w, labels, areas, other, other_areas, n - 1);
        lemma_labels_agree(mask, w, labels, areas, other, other_areas, n - 1);
        lemma_labels_agree(mask, w, other, other_areas, labels, areas, n - 1);
    }
}

proof fn lemma_counted_occurs(labels: Seq<u32>, l: u32, n: int)
    requires
        0 <= n <= labels.len(),
        count_of(labels, l, n) > 0,
    ensures
        exists|i: int| 0 <= i < n && #[trigger] labels[i] == l,
    decreases n,
{
    if labels[n - 1] != l {
        lemma_counted_occurs(labels, l, n - 1);
    }
}

proof fn lemma_areas_no_longer(
    mask: Seq<u8>,
    w: int,
    labels: Seq<u32>,
    areas: Seq<u32>,
    other_areas: Seq<u32>,
)
    requires
        is_labelling(mask, w, labels, areas),
        is_labelling(mask, w, labels, other_areas),
    ensures
        areas.len() <= other_areas.len(),
{
    reveal(is_labelling);
    if areas.len() > other_areas.len() {
        let l = other_areas.len() as u32;
        assert(areas[l as int] > 0);
        lemma_counted_occurs(labels, l, mask.len() as int);
        let i = choose|i: int| 0 <= i < mask.len() && #[trigger] labels[i] == l;
        assert(labels[i] < other_areas.len());
    }
}

/// A mask has one labelling only: the labels and the areas follow from it.
pub proof fn law_labelling_unique(
    mask: Seq<u8>,
    w: int,
    labels: Seq<u32>,
    areas: Seq<u32>,
    other: Seq<u32>,
    other_areas: Seq<u32>,
)
    requires
        is_labelling(mask, w, labels, areas),
        is_labelling(mask, w, other, other_areas),
    ensures
        labels == other,
        areas == other_areas,
{
    lemma_labels_agree_upto(mask, w, labels, areas, other, other_areas, mask.len() as int);
    assert(labels =~= other) by {
        reveal(is_labelling);
    }
    lemma_areas_no_longer(mask, w, labels, areas, other_areas);
    lemma_areas_no_longer(mask, w, labels, other_areas, areas);
    assert forall|k: int| 0 <= k < areas.len() implies areas[k] == other_areas[k] by {
        reveal(is_labelling);
        if k > 0 {
            let l = k as u32;
            assert(areas[l as int] == count_of(labels, l, mask.len() as int));
            assert(other_areas[l as int] == count_of(labels, l, mask.len() as int));
        }
    }
    assert(areas =~= other_areas);
}

// ---------------------------------------------------------------------------
// Laws of the labels
// ---------------------------------------------------------------------------

/// Set positions that touch have the same label, clear ones have none, and each
/// label but the first is met behind the label before it.
pub proof fn law_neighbours_share_a_label(
    mask: Seq<u8>,
    w: int,
    labels: Seq<u32>,
    areas: Seq<u32>,
    i: int,
    j: int,
)
    requires
        is_labelling(mask, w, labels, areas),
        0 <= i < mask.len(),
        0 <= j < mask.len(),
    ensures
        labels.len() == mask.len(),
        labels[i] == 0 <==> mask[i] == 0,
        labels[i] < areas.len(),
        mask[i] != 0 && mask[j] != 0 && -1 <= i % w - j % w <= 1 && -1 <= i / w - j / w <= 1
            ==> labels[i] == labels[j],
        labels[i] > 1 ==> exists|k: int| 0 <= k < i && #[trigger] labels[k] == labels[i] - 1,
{
    reveal(is_labelling);
    if marked(mask, i) && marked(mask, j) && touching(w, i, j) {
        lemma_connected_self(mask, w, i);
        lemma_connected_step(mask, w, i, i, j);
    }
    if labels[i] > 1 {
        assert(met_before(labels, i, (labels[i] - 1) as u32));
    }
}

/// Positions with the same label are joined by a walk over set positions, from
/// neighbour to neighbour.
pub proof fn law_a_label_hangs_together(
    mask: Seq<u8>,
    w: int,
    labels: Seq<u32>,
    areas: Seq<u32>,
    i: int,
    j: int,
)
    requires
        is_labelling(mask, w, labels, areas),
        0 <= i < mask.len(),
        0 <= j < mask.len(),
        labels[i] == labels[j],
        labels[i] != 0,
    ensures
        exists|path: Seq<int>|
            #![trigger path.len()]
            {
                &&& path.len() > 0
                &&& path[0] == i
                &&& path[path.len() - 1] == j
                &&& forall|k: int|
                    0 <= k < path.len() ==> 0 <= #[trigger] path[k] < mask.len() && mask[path[k]]
                        != 0
                &&& forall|k: int|
                    1 <= k < path.len() ==> -1 <= (#[trigger] path[k]) % w - path[k - 1] % w <= 1
                        && -1 <= path[k] / w - path[k - 1] / w <= 1
            },
{
    reveal(is_labelling);
    assert(connected(mask, w, i, j));
    let path = choose|path: Seq<int>| #[trigger] walks(mask, w, path, i, j);
    assert forall|k: int| 0 <= k < path.len() implies 0 <= #[trigger] path[k] < mask.len()
        && mask[path[k]] != 0 by {
        assert(marked(mask, path[k]));
    }
    assert forall|k: int| 1 <= k < path.len() implies -1 <= (#[trigger] path[k]) % w - path[k - 1]
        % w <= 1 && -1 <= path[k] / w - path[k - 1] / w <= 1 by {
        assert(touching(w, path[k - 1], path[k]));
    }
    assert(path.len() > 0);
}

/// The area of a label is the number of positions that have it, and there is at
/// least one.
pub proof fn law_areas_count_positions(
    mask: Seq<u8>,
    w: int,
    labels: Seq<u32>,
    areas: Seq<u32>,
    l: u32,
)
    requires
        is_labelling(mask, w, labels, areas),
        0 < l < areas.len(),
    ensures
        areas[l as int] > 0,
        areas[l as int] == vstd::set_lib::set_int_range(0, mask.len() as int).filter(
            |i: int| labels[i] == l,
        ).len(),
{
    reveal(is_labelling);
    lemma_count_is_size(labels, l, mask.len() as int);
}

proof fn lemma_count_is_size(labels: Seq<u32>, l: u32, n: int)
    requires
        0 <= n,
    ensures
        vstd::set_lib::set_int_range(0, n).filter(|i: int| labels[i] == l).finite(),
        count_of(labels, l, n) == vstd::set_lib::set_int_range(0, n).filter(
            |i: int| labels[i] == l,
        ).len(),
    decreases n,
{
    let all = vstd::set_lib::set_int_range(0, n).filter(|i: int| labels[i] == l);
    vstd::set_lib::lemma_int_range(0, n);
    if n == 0 {
        assert(all =~= Set::empty());
    } else {
        lemma_count_is_size(labels, l, n - 1);
        let before = vstd::set_lib::set_int_range(0, n - 1).filter(|i: int| labels[i] == l);
        if labels[n - 1] == l {
            assert(all =~= before.insert(n - 1));
        } else {
            assert(all =~= before);
        }
    }
}

} // verus!
