//! Stacking order of a document's shapes. Each shape has an id and a
//! z-index; shapes are listed in the document's own order, and where two
//! entries share an id the first one stands for the shape.

use vstd::prelude::*;

verus! {

/// One shape's place in the stacking order.
#[derive(Clone, Copy, Debug, PartialEq, Eq, Structural)]
pub struct Layer {
    pub id: u64,
    pub z: i32,
}

/// Whether some layer has id `id`.
pub open spec fn has_layer(ls: Seq<Layer>, id: u64) -> bool {
    exists|i: int| 0 <= i < ls.len() && #[trigger] ls[i].id == id
}

/// The position of the first layer with id `id`.
pub open spec fn first_pos(ls: Seq<Layer>, id: u64) -> int {
    choose|i: int|
        0 <= i < ls.len() && #[trigger] ls[i].id == id && forall|j: int| 0 <= j < i ==> ls[j].id != id
}

/// The z-index of shape `id`.
pub open spec fn z_of(ls: Seq<Layer>, id: u64) -> Option<i32> {
    if has_layer(ls, id) {
        Some(ls[first_pos(ls, id)].z)
    } else {
        None
    }
}

/// The largest z-index, and at least 0.
pub open spec fn max_z(ls: Seq<Layer>) -> i32
    decreases ls.len(),
{
    if ls.len() == 0 {
        0
    } else {
        let m = max_z(ls.drop_last());
        if ls.last().z > m {
            ls.last().z
        } else {
            m
        }
    }
}

/// The z-index a shape moves to when it is brought one step forward: the
/// nearest z-index above `cur` held by another shape, else `cur + 1`.
#[verifier::opaque]
pub open spec fn next_above(ls: Seq<Layer>, id: u64, cur: i32) -> int {
    if exists|i: int| 0 <= i < ls.len() && ls[i].id != id && #[trigger] ls[i].z > cur {
        let i = choose|i: int|
            0 <= i < ls.len() && ls[i].id != id && #[trigger] ls[i].z > cur && forall|j: int|
                0 <= j < ls.len() && ls[j].id != id && ls[j].z > cur ==> ls[i].z <= #[trigger] ls[j].z;
        ls[i].z as int
    } else {
        cur + 1
    }
}

/// The z-index a shape moves to when it is sent one step backward: the
/// nearest z-index below `cur` held by another shape, else `cur - 1`.
#[verifier::opaque]
pub open spec fn next_below(ls: Seq<Layer>, id: u64, cur: i32) -> int {
    if exists|i: int| 0 <= i < ls.len() && ls[i].id != id && #[trigger] ls[i].z < cur {
        let i = choose|i: int|
            0 <= i < ls.len() && ls[i].id != id && #[trigger] ls[i].z < cur && forall|j: int|
                0 <= j < ls.len() && ls[j].id != id && ls[j].z < cur ==> ls[i].z >= #[trigger] ls[j].z;
        ls[i].z as int
    } else {
        cur - 1
    }
}

/// The stacking after shape `id` (at position `p`, z-index `cur`) trades
/// places with every other shape at z-index `target`.
pub open spec fn swapped(ls: Seq<Layer>, id: u64, p: int, cur: i32, target: i32) -> Seq<Layer> {
    Seq::new(
        ls.len(),
        |i: int|
            if i == p {
                Layer { id: ls[i].id, z: target }
            } else if ls[i].id != id && ls[i].z == target {
                Layer { id: ls[i].id, z: cur }
            } else {
                ls[i]
            },
    )
}

/// Counts the positions below `k` whose layers sort before the layer at `i`.
pub open spec fn count_before(ls: Seq<Layer>, i: int, k: int) -> int
    decreases k,
{
    if k <= 0 {
        0
    } else {
        count_before(ls, i, k - 1) + if ls[k - 1].z < ls[i].z || (ls[k - 1].z == ls[i].z && k - 1
            < i) {
            1int
        } else {
            0int
        }
    }
}

/// The stacking with every z-index replaced by its rank.
pub open spec fn normalized(ls: Seq<Layer>) -> Seq<Layer> {
    Seq::new(ls.len(), |i: int| Layer { id: ls[i].id, z: count_before(ls, i, ls.len() as int) as i32 })
}

/// Where the first layer with id `id` stands, if any.
fn find_first(ls: &Vec<Layer>, id: u64) -> (r: Option<usize>)
    ensures
        match r {
            None => !has_layer(ls@, id),
            Some(p) => p < ls@.len() && has_layer(ls@, id) && first_pos(ls@, id) == p
                && ls@[p as int].id == id,
        },
{
    let mut i: usize = 0;
    while i < ls.len()
        invariant
            i <= ls@.len(),
            forall|j: int| 0 <= j < i ==> #[trigger] ls@[j].id != id,
        decreases ls@.len() - i,
    {
        if ls[i].id == id {
            proof {
                assert(has_layer(ls@, id));
                let c = first_pos(ls@, id);
                assert(0 <= c < ls@.len() && ls@[c].id == id && forall|j: int| 0 <= j < c ==> ls@[j].id != id);
                if c < i {
                    assert(ls@[c].id != id);
                } else if c > i {
                    assert(ls@[i as int].id != id);
                }
            }
            return Some(i);
        }
        i += 1;
    }
    None
}

/// The z-index of shape `id`, if it is in the stacking.
pub fn shape_z_index(ls: &Vec<Layer>, id: u64) -> (r: Option<i32>)
    ensures
        r == z_of(ls@, id),
{
    match find_first(ls, id) {
        None => None,
        Some(p) => Some(ls[p].z),
    }
}

/// The largest z-index in the stacking, and at least 0.
pub fn max_z_index(ls: &Vec<Layer>) -> (r: i32)
    ensures
        r == max_z(ls@),
        r >= 0,
        forall|i: int| 0 <= i < ls@.len() ==> #[trigger] ls@[i].z <= r,
{
    let mut m: i32 = 0;
    let mut i: usize = 0;
    while i < ls.len()
        invariant
            i <= ls@.len(),
            m == max_z(ls@.subrange(0, i as int)),
            m >= 0,
            forall|j: int| 0 <= j < i ==> #[trigger] ls@[j].z <= m,
        decreases ls@.len() - i,
    {
        assert(ls@.subrange(0, i + 1).drop_last() =~= ls@.subrange(0, i as int));
        if ls[i].z > m {
            m = ls[i].z;
        }
        i += 1;
    }
    assert(ls@.subrange(0, ls@.len() as int) =~= ls@);
    m
}

/// Shape `id` (first at position `p`) moves to z-index `z`.
pub open spec fn moved(ls: Seq<Layer>, p: int, z: i32) -> Seq<Layer> {
    ls.update(p, Layer { id: ls[p].id, z })
}

/// The stacking after sending the shape at position `p` (z-index `cur`)
/// to the back: it takes z-index 0 and every other shape below it moves up
/// one.
pub open spec fn sent_to_back(ls: Seq<Layer>, id: u64, p: int, cur: i32) -> Seq<Layer> {
    Seq::new(
        ls.len(),
        |i: int|
            if i == p {
                Layer { id: ls[i].id, z: 0 }
            } else if ls[i].id != id && ls[i].z < cur {
                Layer { id: ls[i].id, z: (ls[i].z + 1) as i32 }
            } else {
                ls[i]
            },
    )
}

/// Brings shape `id` in front of every other: one above the largest
/// z-index. Nothing changes for an unknown shape, or when the largest
/// z-index is already `i32::MAX`.
pub fn bring_shape_to_front(ls: &mut Vec<Layer>, id: u64)
    ensures
        final(ls)@ == (if has_layer(old(ls)@, id) && max_z(old(ls)@) < i32::MAX {
            moved(old(ls)@, first_pos(old(ls)@, id), (max_z(old(ls)@) + 1) as i32)
        } else {
            old(ls)@
        }),
{
    let m = max_z_index(ls);
    if m == i32::MAX {
        return;
    }
    match find_first(ls, id) {
        None => {},
        Some(p) => {
            ls.set(p, Layer { id, z: m + 1 });
            assert(ls@ =~= moved(old(ls)@, p as int, (m + 1) as i32));
        },
    }
}

/// The stacking with the shape at position `p` (z-index `cur`) trading
/// places with every other shape at z-index `target`.
fn swap_levels(ls: &mut Vec<Layer>, id: u64, p: usize, cur: i32, target: i32)
    requires
        p < old(ls)@.len(),
        old(ls)@[p as int].id == id,
    ensures
        final(ls)@ == swapped(old(ls)@, id, p as int, cur, target),
{
    let ghost orig = ls@;
    let mut i: usize = 0;
    while i < ls.len()
        invariant
            i <= ls@.len(),
            ls@.len() == orig.len(),
            p < orig.len(),
            orig[p as int].id == id,
            forall|j: int| 0 <= j < i ==> ls@[j] == #[trigger] swapped(orig, id, p as int, cur, target)[j],
            forall|j: int| i <= j < ls@.len() ==> #[trigger] ls@[j] == orig[j],
        decreases ls@.len() - i,
    {
        let l = ls[i];
        if i == p {
            ls.set(i, Layer { id: l.id, z: target });
        } else if l.id != id && l.z == target {
            ls.set(i, Layer { id: l.id, z: cur });
        }
        i += 1;
    }
    assert(ls@ =~= swapped(orig, id, p as int, cur, target));
}

proof fn lemma_next_above_none(ls: Seq<Layer>, id: u64, cur: i32)
    requires
        forall|j: int| 0 <= j < ls.len() ==> !(ls[j].id != id && #[trigger] ls[j].z > cur),
    ensures
        next_above(ls, id, cur) == cur + 1,
{
    reveal(next_above);
}

proof fn lemma_next_above_at(ls: Seq<Layer>, id: u64, cur: i32, w: int)
    requires
        0 <= w < ls.len(),
        ls[w].id != id,
        ls[w].z > cur,
        forall|j: int| 0 <= j < ls.len() && ls[j].id != id && ls[j].z > cur ==> ls[w].z <= #[trigger] ls[j].z,
    ensures
        next_above(ls, id, cur) == ls[w].z,
{
    reveal(next_above);
    assert(exists|i: int| 0 <= i < ls.len() && ls[i].id != id && #[trigger] ls[i].z > cur) by {
        assert(ls[w].z > cur);
    }
    let c = choose|c: int|
        0 <= c < ls.len() && ls[c].id != id && #[trigger] ls[c].z > cur && forall|j: int|
            0 <= j < ls.len() && ls[j].id != id && ls[j].z > cur ==> ls[c].z <= #[trigger] ls[j].z;
    assert(ls[c].z <= ls[w].z);
}

proof fn lemma_next_below_none(ls: Seq<Layer>, id: u64, cur: i32)
    requires
        forall|j: int| 0 <= j < ls.len() ==> !(ls[j].id != id && #[trigger] ls[j].z < cur),
    ensures
        next_below(ls, id, cur) == cur - 1,
{
    reveal(next_below);
}

proof fn lemma_next_below_at(ls: Seq<Layer>, id: u64, cur: i32, w: int)
    requires
        0 <= w < ls.len(),
        ls[w].id != id,
        ls[w].z < cur,
        forall|j: int| 0 <= j < ls.len() && ls[j].id != id && ls[j].z < cur ==> ls[w].z >= #[trigger] ls[j].z,
    ensures
        next_below(ls, id, cur) == ls[w].z,
{
    reveal(next_below);
    assert(exists|i: int| 0 <= i < ls.len() && ls[i].id != id && #[trigger] ls[i].z < cur) by {
        assert(ls[w].z < cur);
    }
    let c = choose|c: int|
        0 <= c < ls.len() && ls[c].id != id && #[trigger] ls[c].z < cur && forall|j: int|
            0 <= j < ls.len() && ls[j].id != id && ls[j].z < cur ==> ls[c].z >= #[trigger] ls[j].z;
    assert(ls[c].z >= ls[w].z);
}

/// Brings shape `id` one step forward: it trades places with the shapes
/// at the nearest z-index above its own (or moves up one where there are
/// none). Nothing changes for an unknown shape or one already at the top.
pub fn bring_shape_forward(ls: &mut Vec<Layer>, id: u64)
    ensures
        final(ls)@ == (if has_layer(old(ls)@, id) && z_of(old(ls)@, id)->Some_0 < max_z(old(ls)@) {
            swapped(
                old(ls)@,
                id,
                first_pos(old(ls)@, id),
                z_of(old(ls)@, id)->Some_0,
                next_above(old(ls)@, id, z_of(old(ls)@, id)->Some_0) as i32,
            )
        } else {
            old(ls)@
        }),
{
    let p = match find_first(ls, id) {
        None => return,
        Some(p) => p,
    };
    let cur = ls[p].z;
    let m = max_z_index(ls);
    if cur >= m {
        return;
    }
    let mut best: Option<i32> = None;
    let ghost mut w: int = 0;
    let mut i: usize = 0;
    while i < ls.len()
        invariant
            i <= ls@.len(),
            match best {
                None => forall|j: int| 0 <= j < i ==> !(ls@[j].id != id && #[trigger] ls@[j].z > cur),
                Some(b) => 0 <= w < i && ls@[w].id != id && ls@[w].z == b && b > cur && forall|j: int|
                    0 <= j < i && ls@[j].id != id && ls@[j].z > cur ==> b <= #[trigger] ls@[j].z,
            },
        decreases ls@.len() - i,
    {
        let l = ls[i];
        if l.id != id && l.z > cur {
            match best {
                None => {
                    best = Some(l.z);
                    proof {
                        w = i as int;
                    }
                },
                Some(b) => {
                    if l.z < b {
                        best = Some(l.z);
                        proof {
                            w = i as int;
                        }
                    }
                },
            }
        }
        i += 1;
    }
    let target = match best {
        None => cur + 1,
        Some(b) => b,
    };
    proof {
        match best {
            None => lemma_next_above_none(ls@, id, cur),
            Some(b) => lemma_next_above_at(ls@, id, cur, w),
        }
    }
    swap_levels(ls, id, p, cur, target);
}

/// Sends shape `id` one step backward: it trades places with the shapes
/// at the nearest z-index below its own (or moves down one where there are
/// none). Nothing changes for an unknown shape or one at z-index 0 or
/// below.
pub fn send_shape_backward(ls: &mut Vec<Layer>, id: u64)
    ensures
        final(ls)@ == (if has_layer(old(ls)@, id) && z_of(old(ls)@, id)->Some_0 > 0 {
            swapped(
                old(ls)@,
                id,
                first_pos(old(ls)@, id),
                z_of(old(ls)@, id)->Some_0,
                next_below(old(ls)@, id, z_of(old(ls)@, id)->Some_0) as i32,
            )
        } else {
            old(ls)@
        }),
{
    let p = match find_first(ls, id) {
        None => return,
        Some(p) => p,
    };
    let cur = ls[p].z;
    if cur <= 0 {
        return;
    }
    let mut best: Option<i32> = None;
    let ghost mut w: int = 0;
    let mut i: usize = 0;
    while i < ls.len()
        invariant
            i <= ls@.len(),
            match best {
                None => forall|j: int| 0 <= j < i ==> !(ls@[j].id != id && #[trigger] ls@[j].z < cur),
                Some(b) => 0 <= w < i && ls@[w].id != id && ls@[w].z == b && b < cur && forall|j: int|
                    0 <= j < i && ls@[j].id != id && ls@[j].z < cur ==> b >= #[trigger] ls@[j].z,
            },
        decreases ls@.len() - i,
    {
        let l = ls[i];
        if l.id != id && l.z < cur {
            match best {
                None => {
                    best = Some(l.z);
                    proof {
                        w = i as int;
                    }
                },
                Some(b) => {
                    if l.z > b {
                        best = Some(l.z);
                        proof {
                            w = i as int;
                        }
                    }
                },
            }
        }
        i += 1;
    }
    let target = match best {
        None => cur - 1,
        Some(b) => b,
    };
    proof {
        match best {
            None => lemma_next_below_none(ls@, id, cur),
            Some(b) => lemma_next_below_at(ls@, id, cur, w),
        }
    }
    swap_levels(ls, id, p, cur, target);
}

/// Sends shape `id` behind every other: it takes z-index 0 and each other
/// shape below its old z-index moves up one. Nothing changes for an
/// unknown shape or one already at z-index 0.
pub fn send_shape_to_back(ls: &mut Vec<Layer>, id: u64)
    ensures
        final(ls)@ == (if has_layer(old(ls)@, id) && z_of(old(ls)@, id)->Some_0 != 0 {
            sent_to_back(old(ls)@, id, first_pos(old(ls)@, id), z_of(old(ls)@, id)->Some_0)
        } else {
            old(ls)@
        }),
{
    let p = match find_first(ls, id) {
        None => return,
        Some(p) => p,
    };
    let cur = ls[p].z;
    if cur == 0 {
        return;
    }
    let ghost orig = ls@;
    let mut i: usize = 0;
    while i < ls.len()
        invariant
            i <= ls@.len(),
            ls@.len() == orig.len(),
            p < orig.len(),
            orig[p as int].id == id,
            orig[p as int].z == cur,
            forall|j: int| 0 <= j < i ==> ls@[j] == #[trigger] sent_to_back(orig, id, p as int, cur)[j],
            forall|j: int| i <= j < ls@.len() ==> #[trigger] ls@[j] == orig[j],
        decreases ls@.len() - i,
    {
        let l = ls[i];
        if i == p {
            ls.set(i, Layer { id: l.id, z: 0 });
        } else if l.id != id && l.z < cur {
            ls.set(i, Layer { id: l.id, z: l.z + 1 });
        }
        i += 1;
    }
    assert(ls@ =~= sent_to_back(orig, id, p as int, cur));
}

proof fn lemma_count_bounds(ls: Seq<Layer>, i: int, k: int)
    requires
        0 <= i < ls.len(),
        0 <= k <= ls.len(),
    ensures
        0 <= count_before(ls, i, k) <= k - (if i < k { 1int } else { 0int }),
    decreases k,
{
    if k > 0 {
        lemma_count_bounds(ls, i, k - 1);
    }
}

/// Whether the layer at `i` sorts before the one at `j`: lower, or level
/// and earlier.
pub open spec fn sorts_before(ls: Seq<Layer>, i: int, j: int) -> bool {
    ls[i].z < ls[j].z || (ls[i].z == ls[j].z && i < j)
}

proof fn lemma_count_mono(ls: Seq<Layer>, i: int, j: int, k: int)
    requires
        0 <= i < ls.len(),
        0 <= j < ls.len(),
        sorts_before(ls, i, j),
        0 <= k <= ls.len(),
    ensures
        count_before(ls, j, k) >= count_before(ls, i, k) + (if i < k { 1int } else { 0int }),
    decreases k,
{
    if k > 0 {
        lemma_count_mono(ls, i, j, k - 1);
    }
}

/// Replaces every z-index by the shape's rank in a stable sort by z-index,
/// giving z-indices `0..n` in the same relative order.
pub fn normalize_z_indices(ls: &mut Vec<Layer>)
    requires
        old(ls)@.len() <= i32::MAX,
    ensures
        final(ls)@ == normalized(old(ls)@),
{
    let ghost orig = ls@;
    let n = ls.len();
    let mut out: Vec<Layer> = Vec::new();
    let mut i: usize = 0;
    while i < n
        invariant
            n == ls@.len(),
            ls@ == orig,
            n <= i32::MAX,
            i <= n,
            out@.len() == i,
            forall|j: int| 0 <= j < i ==> #[trigger] out@[j] == normalized(orig)[j],
        decreases n - i,
    {
        let zi = ls[i].z;
        let mut count: usize = 0;
        let mut k: usize = 0;
        while k < n
            invariant
                n == ls@.len(),
                ls@ == orig,
                n <= i32::MAX,
                i < n,
                zi == orig[i as int].z,
                k <= n,
                count == count_before(orig, i as int, k as int),
                count <= k,
            decreases n - k,
        {
            let zk = ls[k].z;
            if zk < zi || (zk == zi && k < i) {
                count += 1;
            }
            k += 1;
        }
        proof {
            lemma_count_bounds(orig, i as int, n as int);
        }
        out.push(Layer { id: ls[i].id, z: count as i32 });
        i += 1;
    }
    assert(out@ =~= normalized(orig));
    *ls = out;
}

/// Normalizing gives each shape a z-index in `0..n`, no two alike, and
/// keeps their order: a shape that sorted before another still does.
pub proof fn lemma_normalized_dense_and_ordered(ls: Seq<Layer>, i: int, j: int)
    requires
        ls.len() <= i32::MAX,
        0 <= i < ls.len(),
        0 <= j < ls.len(),
    ensures
        0 <= normalized(ls)[i].z < ls.len(),
        normalized(ls)[i].id == ls[i].id,
        sorts_before(ls, i, j) ==> normalized(ls)[i].z < normalized(ls)[j].z,
        i != j ==> normalized(ls)[i].z != normalized(ls)[j].z,
{
    let n = ls.len() as int;
    lemma_count_bounds(ls, i, n);
    lemma_count_bounds(ls, j, n);
    if sorts_before(ls, i, j) {
        lemma_count_mono(ls, i, j, n);
    }
    if i != j && !sorts_before(ls, i, j) {
        assert(sorts_before(ls, j, i));
        lemma_count_mono(ls, j, i, n);
    }
}

proof fn lemma_normalized_counts(ls: Seq<Layer>, i: int, k: int)
    requires
        ls.len() <= i32::MAX,
        0 <= i < ls.len(),
        0 <= k <= ls.len(),
    ensures
        count_before(normalized(ls), i, k) == count_before(ls, i, k),
    decreases k,
{
    if k > 0 {
        lemma_normalized_counts(ls, i, k - 1);
        let m = k - 1;
        let nl = normalized(ls);
        lemma_normalized_dense_and_ordered(ls, m, i);
        lemma_normalized_dense_and_ordered(ls, i, m);
        if m != i && !sorts_before(ls, m, i) {
            assert(sorts_before(ls, i, m));
        }
    }
}

/// Normalizing a stacking that is already normalized changes nothing, so
/// a document read back twice keeps the stacking of the first reading.
pub proof fn lemma_normalize_idempotent(ls: Seq<Layer>)
    requires
        ls.len() <= i32::MAX,
    ensures
        normalized(normalized(ls)) == normalized(ls),
{
    let nl = normalized(ls);
    assert forall|i: int| 0 <= i < ls.len() implies #[trigger] normalized(nl)[i] == nl[i] by {
        lemma_normalized_counts(ls, i, ls.len() as int);
    }
    assert(normalized(nl) =~= nl);
}

} // verus!
