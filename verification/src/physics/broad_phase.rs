//! Broad phase collision detection
//!
//! Both structures answer the same question cheaply: which pairs of shapes
//! may touch. They may name pairs that do not touch, which the narrow phase
//! then drops.

use super::collision::AABB;
use crate::math::fixed_point::FixedPoint;
use crate::math::vec2::Vec2;
use std::collections::HashMap;
use vstd::prelude::*;
use vstd::std_specs::hash::group_hash_axioms;

verus! {

broadcast use group_hash_axioms;

/// True when every entry is smaller than the one after it.
pub open spec fn strictly_increasing(s: Seq<usize>) -> bool {
    forall|i: int, j: int| 0 <= i < j < s.len() ==> s[i] < s[j]
}

/// The order of pairs: by the first entry, then by the second.
pub open spec fn pair_lt(a: (usize, usize), b: (usize, usize)) -> bool {
    a.0 < b.0 || (a.0 == b.0 && a.1 < b.1)
}

/// True when every pair is smaller than the one after it.
pub open spec fn pairs_strictly_increasing(s: Seq<(usize, usize)>) -> bool {
    forall|i: int, j: int| 0 <= i < j < s.len() ==> pair_lt(s[i], s[j])
}

/// The pair of `a` and `b` with the smaller one first.
pub open spec fn ordered_pair(a: usize, b: usize) -> (usize, usize) {
    if a <= b {
        (a, b)
    } else {
        (b, a)
    }
}

/// Puts `id` at its place in a list that is sorted and holds nothing
/// twice, unless the list holds it already.
fn insert_id(out: &mut Vec<usize>, id: usize)
    requires
        strictly_increasing(old(out)@),
    ensures
        strictly_increasing(final(out)@),
        forall|v: usize| #[trigger] final(out)@.contains(v) <==> (old(out)@.contains(v) || v == id),
{
    // binary search for the first entry that is not below `id`
    let mut i: usize = 0;
    let mut end: usize = out.len();
    while i < end
        invariant
            i <= end <= out.len(),
            out@ == old(out)@,
            strictly_increasing(out@),
            forall|j: int| 0 <= j < i ==> out@[j] < id,
            forall|j: int| end <= j < out@.len() ==> out@[j] >= id,
        decreases end - i,
    {
        let middle: usize = i + (end - i) / 2;
        if out[middle] < id {
            i = middle + 1;
        } else {
            end = middle;
        }
    }
    if i < out.len() && out[i] == id {
        assert(out@[i as int] == id);
        return ;
    }
    out.insert(i, id);
    proof {
        let before = old(out)@;
        let after = out@;
        assert(after == before.insert(i as int, id));
        assert forall|v: usize| after.contains(v) <==> (before.contains(v) || v == id) by {
            if after.contains(v) {
                let k = choose|k: int| 0 <= k < after.len() && after[k] == v;
                if k < i {
                    assert(before[k] == v);
                } else if k > i {
                    assert(before[k - 1] == v);
                }
            }
            if before.contains(v) {
                let k = choose|k: int| 0 <= k < before.len() && before[k] == v;
                if k < i {
                    assert(after[k] == v);
                } else {
                    assert(after[k + 1] == v);
                }
            }
            if v == id {
                assert(after[i as int] == v);
            }
        }
    }
}

/// Puts `pair` at its place in a list that is sorted and holds nothing
/// twice, unless the list holds it already.
fn insert_pair(out: &mut Vec<(usize, usize)>, pair: (usize, usize))
    requires
        pairs_strictly_increasing(old(out)@),
    ensures
        pairs_strictly_increasing(final(out)@),
        forall|v: (usize, usize)|
            #[trigger] final(out)@.contains(v) <==> (old(out)@.contains(v) || v == pair),
{
    // binary search for the first entry that is not below `pair`
    let mut i: usize = 0;
    let mut end: usize = out.len();
    while i < end
        invariant
            i <= end <= out.len(),
            out@ == old(out)@,
            pairs_strictly_increasing(out@),
            forall|j: int| 0 <= j < i ==> pair_lt(out@[j], pair),
            forall|j: int| end <= j < out@.len() ==> !pair_lt(out@[j], pair),
        decreases end - i,
    {
        let middle: usize = i + (end - i) / 2;
        if out[middle].0 < pair.0 || (out[middle].0 == pair.0 && out[middle].1 < pair.1) {
            proof {
                assert forall|j: int| 0 <= j < middle + 1 implies pair_lt(out@[j], pair) by {
                    if j < middle {
                        assert(pair_lt(out@[j], out@[middle as int]));
                    }
                }
            }
            i = middle + 1;
        } else {
            proof {
                assert forall|j: int| middle <= j < out@.len() implies !pair_lt(
                    out@[j],
                    pair,
                ) by {
                    if j > middle {
                        assert(pair_lt(out@[middle as int], out@[j]));
                    }
                }
            }
            end = middle;
        }
    }
    if i < out.len() && out[i].0 == pair.0 && out[i].1 == pair.1 {
        assert(out@[i as int] == pair);
        return ;
    }
    out.insert(i, pair);
    proof {
        let before = old(out)@;
        let after = out@;
        assert(after == before.insert(i as int, pair));
        assert forall|v: (usize, usize)| after.contains(v) <==> (before.contains(v) || v
            == pair) by {
            if after.contains(v) {
                let k = choose|k: int| 0 <= k < after.len() && after[k] == v;
                if k < i {
                    assert(before[k] == v);
                } else if k > i {
                    assert(before[k - 1] == v);
                }
            }
            if before.contains(v) {
                let k = choose|k: int| 0 <= k < before.len() && before[k] == v;
                if k < i {
                    assert(after[k] == v);
                } else {
                    assert(after[k + 1] == v);
                }
            }
            if v == pair {
                assert(after[i as int] == v);
            }
        }
        assert forall|a: int, b: int| 0 <= a < b < after.len() implies pair_lt(
            after[a],
            after[b],
        ) by {
            if b < i {
                assert(after[a] == before[a] && after[b] == before[b]);
            } else if b == i {
                assert(after[a] == before[a]);
            } else if a < i {
                assert(after[a] == before[a] && after[b] == before[b - 1]);
            } else if a == i {
                assert(after[b] == before[b - 1]);
                assert(!pair_lt(before[i as int], pair));
                assert(before[i as int] != pair);
                if b - 1 > i {
                    assert(pair_lt(before[i as int], before[b - 1]));
                }
            } else {
                assert(after[a] == before[a - 1] && after[b] == before[b - 1]);
            }
        }
    }
}

/// True for the numbers that a cell coordinate can be.
pub open spec fn is_cell_coordinate(v: int) -> bool {
    -0x8000_0000 <= v < 0x8000_0000
}

/// The number under which the cell `(x, y)` is stored; no two cells share
/// one.
pub open spec fn cell_key(x: int, y: int) -> u64 {
    ((x + 0x8000_0000) * 0x1_0000_0000 + (y + 0x8000_0000)) as u64
}

/// The cell that holds the point `pos` when cells have the raw size
/// `size`.
pub open spec fn cell_of(pos: Vec2, size: int) -> (int, int) {
    (pos.x@ / size, pos.y@ / size)
}

/// True when `(x, y)` is one of the cells that the box overlaps: those
/// from the cell of its `min` corner to the cell of its `max` corner.
pub open spec fn box_covers(aabb: AABB, size: int, x: int, y: int) -> bool {
    &&& cell_of(aabb.min, size).0 <= x <= cell_of(aabb.max, size).0
    &&& cell_of(aabb.min, size).1 <= y <= cell_of(aabb.max, size).1
}

/// Two cells with the same key are the same cell.
pub proof fn lemma_cell_key_is_injective(x1: int, y1: int, x2: int, y2: int)
    requires
        is_cell_coordinate(x1),
        is_cell_coordinate(y1),
        is_cell_coordinate(x2),
        is_cell_coordinate(y2),
        cell_key(x1, y1) == cell_key(x2, y2),
    ensures
        x1 == x2,
        y1 == y2,
{
}

/// The quotient of `n` by a positive `d`, rounded toward negative
/// infinity.
fn floor_div(n: i64, d: i64) -> (q: i64)
    requires
        d > 0,
        -0x8000_0000 <= n < 0x8000_0000,
        d < 0x8000_0000,
    ensures
        q == n / d,
        -0x8000_0000 <= q < 0x8000_0000,
{
    let q: i64 = if n >= 0 {
        n / d
    } else {
        -((-n + d - 1) / d)
    };
    proof {
        if n < 0 {
            let m = (-n + d - 1) as int;
            let k = m / (d as int);
            vstd::arithmetic::div_mod::lemma_fundamental_div_mod(m, d as int);
            // m == d * k + m % d, so n == d * (-k) + (d - 1 - m % d)
            assert(d * (-k) == -(d * k)) by (nonlinear_arith);
            assert((-k) * d == -(d * k)) by (nonlinear_arith);
            assert(n == (-k) * d + (d - 1 - m % (d as int)));
            vstd::arithmetic::div_mod::lemma_fundamental_div_mod_converse(
                n as int,
                d as int,
                -k,
                d - 1 - m % (d as int),
            );
        }
        vstd::arithmetic::div_mod::lemma_fundamental_div_mod(n as int, d as int);
        assert(-0x8000_0000 <= n / d < 0x8000_0000) by (nonlinear_arith)
            requires
                n == d * (n / d) + n % d,
                0 <= n % d < d,
                d > 0,
                -0x8000_0000 <= n < 0x8000_0000,
        ;
    }
    q
}

/// True when a walk over the cells from `(min_x, min_y)`, column by
/// column up to row `max_y`, has passed the cell `(cx, cy)` by the time it
/// stands at `(x, y)`.
pub open spec fn walk_passed(
    min_x: int,
    min_y: int,
    max_y: int,
    x: int,
    y: int,
    cx: int,
    cy: int,
) -> bool {
    ||| min_x <= cx < x && min_y <= cy <= max_y
    ||| cx == x && min_y <= cy < y
}

/// Simple grid-based spatial hash
pub struct SpatialHash {
    cell_size: FixedPoint,
    /// The keys of `cells`, in the order in which the cells were first used.
    keys: Vec<u64>,
    cells: HashMap<u64, Vec<usize>>,
}

impl SpatialHash {
    /// What every grid made by `new` satisfies: the cell size is positive
    /// and every cell in use is on record.
    pub closed spec fn well_formed(&self) -> bool {
        &&& self.cell_size.0 > 0
        &&& forall|k: u64| self.cells@.contains_key(k) ==> self.keys@.contains(k)
    }

    /// The raw size of a cell; always positive.
    pub closed spec fn size(&self) -> int {
        self.cell_size@
    }

    /// The ids registered in the cell `(x, y)`, in the order in which they
    /// were inserted.
    pub closed spec fn cell(&self, x: int, y: int) -> Seq<usize> {
        if is_cell_coordinate(x) && is_cell_coordinate(y) && self.cells@.contains_key(
            cell_key(x, y),
        ) {
            self.cells@[cell_key(x, y)]@
        } else {
            Seq::empty()
        }
    }

    /// An empty grid of square cells. A size that is not positive is
    /// raised to the smallest positive number.
    pub fn new(cell_size: FixedPoint) -> (r: Self)
        ensures
            r.well_formed(),
            r.size() == (if cell_size@ > 0 {
                cell_size@
            } else {
                1
            }),
            forall|x: int, y: int| r.cell(x, y) == Seq::<usize>::empty(),
    {
        let size: FixedPoint = if cell_size.0 > 0 {
            cell_size
        } else {
            FixedPoint::from_raw(1)
        };
        SpatialHash { cell_size: size, keys: Vec::new(), cells: HashMap::new() }
    }

    pub fn clear(&mut self)
        requires
            old(self).well_formed(),
        ensures
            final(self).well_formed(),
            final(self).size() == old(self).size(),
            forall|x: int, y: int| final(self).cell(x, y) == Seq::<usize>::empty(),
    {
        self.cells.clear();
        self.keys.clear();
    }

    /// The cell that holds `pos`.
    fn hash(&self, pos: Vec2) -> (r: (i32, i32))
        requires
            self.well_formed(),
        ensures
            (r.0 as int, r.1 as int) == cell_of(pos, self.size()),
    {
        let size: i64 = self.cell_size.0 as i64;
        (floor_div(pos.x.0 as i64, size) as i32, floor_div(pos.y.0 as i64, size) as i32)
    }

    /// Registers `id` in the cell `(x, y)`.
    fn add_to_cell(&mut self, x: i32, y: i32, id: usize)
        requires
            old(self).well_formed(),
        ensures
            final(self).well_formed(),
            final(self).size() == old(self).size(),
            final(self).cell(x as int, y as int) == old(self).cell(x as int, y as int).push(id),
            forall|cx: int, cy: int|
                (cx != x || cy != y) ==> #[trigger] final(self).cell(cx, cy) == old(self).cell(
                    cx,
                    cy,
                ),
    {
        let key: u64 = ((x as i64 + 0x8000_0000) as u64) * 0x1_0000_0000 + ((y as i64
            + 0x8000_0000) as u64);
        assert(key == cell_key(x as int, y as int));
        let ghost before = self.cells@;
        let mut list: Vec<usize> = match self.cells.remove(&key) {
            Some(list) => list,
            None => {
                self.keys.push(key);
                Vec::new()
            },
        };
        list.push(id);
        self.cells.insert(key, list);
        proof {
            assert forall|k: u64| self.cells@.contains_key(k) implies self.keys@.contains(k) by {
                if k == key {
                    if before.contains_key(key) {
                        assert(self.keys@ == old(self).keys@);
                    } else {
                        assert(self.keys@.last() == key);
                    }
                } else {
                    assert(before.contains_key(k));
                    assert(old(self).cells@.contains_key(k));
                    assert(old(self).keys@.contains(k));
                    let i = choose|i: int|
                        0 <= i < old(self).keys@.len() && old(self).keys@[i] == k;
                    assert(self.keys@[i] == k);
                }
            }
            assert forall|cx: int, cy: int| (cx != x || cy != y) implies #[trigger] self.cell(
                cx,
                cy,
            ) == old(self).cell(cx, cy) by {
                if is_cell_coordinate(cx) && is_cell_coordinate(cy) {
                    if cell_key(cx, cy) == key {
                        lemma_cell_key_is_injective(cx, cy, x as int, y as int);
                    }
                }
            }
        }
    }

    /// Registers `id` in every cell that the box overlaps. What was
    /// registered before stays registered.
    pub fn insert(&mut self, id: usize, aabb: &AABB)
        requires
            old(self).well_formed(),
        ensures
            final(self).well_formed(),
            final(self).size() == old(self).size(),
            final(self).registered(id, *aabb),
            forall|other: usize, place: AABB|
                #[trigger] old(self).registered(other, place) ==> final(self).registered(
                    other,
                    place,
                ),
            forall|cx: int, cy: int| #[trigger]
                final(self).cell(cx, cy) == (if box_covers(*aabb, old(self).size(), cx, cy) {
                    old(self).cell(cx, cy).push(id)
                } else {
                    old(self).cell(cx, cy)
                }),
    {
        let min_cell: (i32, i32) = self.hash(aabb.min);
        let max_cell: (i32, i32) = self.hash(aabb.max);
        let min_x: i64 = min_cell.0 as i64;
        let min_y: i64 = min_cell.1 as i64;
        let max_x: i64 = max_cell.0 as i64;
        let max_y: i64 = max_cell.1 as i64;

        let mut x: i64 = min_x;
        while x <= max_x
            invariant
                min_x <= x,
                x <= max_x + 1 || x == min_x,
                (min_x as int, min_y as int) == cell_of(aabb.min, old(self).size()),
                (max_x as int, max_y as int) == cell_of(aabb.max, old(self).size()),
                is_cell_coordinate(min_x as int),
                is_cell_coordinate(max_x as int),
                is_cell_coordinate(min_y as int),
                is_cell_coordinate(max_y as int),
                self.well_formed(),
                self.size() == old(self).size(),
                forall|cx: int, cy: int| #[trigger]
                    self.cell(cx, cy) == (if walk_passed(
                        min_x as int,
                        min_y as int,
                        max_y as int,
                        x as int,
                        min_y as int,
                        cx,
                        cy,
                    ) {
                        old(self).cell(cx, cy).push(id)
                    } else {
                        old(self).cell(cx, cy)
                    }),
            decreases max_x + 1 - x,
        {
            let mut y: i64 = min_y;
            while y <= max_y
                invariant
                    min_x <= x <= max_x,
                    min_y <= y,
                    y <= max_y + 1 || y == min_y,
                    is_cell_coordinate(min_x as int),
                    is_cell_coordinate(max_x as int),
                    is_cell_coordinate(min_y as int),
                    is_cell_coordinate(max_y as int),
                    self.well_formed(),
                    self.size() == old(self).size(),
                    forall|cx: int, cy: int| #[trigger]
                        self.cell(cx, cy) == (if walk_passed(
                            min_x as int,
                            min_y as int,
                            max_y as int,
                            x as int,
                            y as int,
                            cx,
                            cy,
                        ) {
                            old(self).cell(cx, cy).push(id)
                        } else {
                            old(self).cell(cx, cy)
                        }),
                decreases max_y + 1 - y,
            {
                self.add_to_cell(x as i32, y as i32, id);
                y += 1;
            }
            x += 1;
        }
        proof {
            assert forall|cx: int, cy: int| #[trigger]
                self.cell(cx, cy) == (if box_covers(*aabb, old(self).size(), cx, cy) {
                    old(self).cell(cx, cy).push(id)
                } else {
                    old(self).cell(cx, cy)
                }) by {}
            assert forall|cx: int, cy: int|
                box_covers(*aabb, self.size(), cx, cy) implies #[trigger] self.cell(
                cx,
                cy,
            ).contains(id) by {
                let before = old(self).cell(cx, cy);
                assert(before.push(id)[before.len() as int] == id);
            }
            assert forall|other: usize, place: AABB| #[trigger]
                old(self).registered(other, place) implies self.registered(other, place) by {
                assert forall|cx: int, cy: int|
                    box_covers(place, self.size(), cx, cy) implies #[trigger] self.cell(
                    cx,
                    cy,
                ).contains(other) by {
                    let before = old(self).cell(cx, cy);
                    assert(before.contains(other));
                    let k = choose|k: int| 0 <= k < before.len() && before[k] == other;
                    assert(before.push(id)[k] == other);
                }
            }
        }
    }

    /// True when `id` is registered in a cell that the box overlaps.
    pub open spec fn reaches(&self, aabb: AABB, id: usize) -> bool {
        exists|cx: int, cy: int|
            box_covers(aabb, self.size(), cx, cy) && #[trigger] self.cell(cx, cy).contains(id)
    }

    /// True when `id` is registered in a cell that a walk over the cells
    /// has passed.
    spec fn found_by_walk(
        &self,
        min_x: int,
        min_y: int,
        max_y: int,
        x: int,
        y: int,
        id: usize,
    ) -> bool {
        exists|cx: int, cy: int|
            walk_passed(min_x, min_y, max_y, x, y, cx, cy) && #[trigger] self.cell(cx, cy).contains(
                id,
            )
    }

    /// The ids registered in the cells that the box overlaps, each once,
    /// in ascending order.
    pub fn query(&self, aabb: &AABB) -> (result: Vec<usize>)
        requires
            self.well_formed(),
        ensures
            strictly_increasing(result@),
            forall|id: usize| #[trigger] result@.contains(id) <==> self.reaches(*aabb, id),
    {
        let mut result: Vec<usize> = Vec::new();
        let min_cell: (i32, i32) = self.hash(aabb.min);
        let max_cell: (i32, i32) = self.hash(aabb.max);
        let min_x: i64 = min_cell.0 as i64;
        let min_y: i64 = min_cell.1 as i64;
        let max_x: i64 = max_cell.0 as i64;
        let max_y: i64 = max_cell.1 as i64;

        let mut x: i64 = min_x;
        while x <= max_x
            invariant
                min_x <= x,
                x <= max_x + 1 || x == min_x,
                (min_x as int, min_y as int) == cell_of(aabb.min, self.size()),
                (max_x as int, max_y as int) == cell_of(aabb.max, self.size()),
                is_cell_coordinate(min_x as int),
                is_cell_coordinate(max_x as int),
                is_cell_coordinate(min_y as int),
                is_cell_coordinate(max_y as int),
                self.well_formed(),
                strictly_increasing(result@),
                forall|id: usize| #[trigger]
                    result@.contains(id) <==> self.found_by_walk(
                        min_x as int,
                        min_y as int,
                        max_y as int,
                        x as int,
                        min_y as int,
                        id,
                    ),
            decreases max_x + 1 - x,
        {
            let mut y: i64 = min_y;
            while y <= max_y
                invariant
                    min_x <= x <= max_x,
                    min_y <= y,
                    y <= max_y + 1 || y == min_y,
                    is_cell_coordinate(min_x as int),
                    is_cell_coordinate(max_x as int),
                    is_cell_coordinate(min_y as int),
                    is_cell_coordinate(max_y as int),
                    self.well_formed(),
                    strictly_increasing(result@),
                    forall|id: usize| #[trigger]
                        result@.contains(id) <==> self.found_by_walk(
                            min_x as int,
                            min_y as int,
                            max_y as int,
                            x as int,
                            y as int,
                            id,
                        ),
                decreases max_y + 1 - y,
            {
                let key: u64 = ((x + 0x8000_0000) as u64) * 0x1_0000_0000 + ((y
                    + 0x8000_0000) as u64);
                assert(key == cell_key(x as int, y as int));
                let ghost before = result@;
                let ghost ids = self.cell(x as int, y as int);
                if let Some(list) = self.cells.get(&key) {
                    let n: usize = list.len();
                    let mut k: usize = 0;
                    while k < n
                        invariant
                            k <= n,
                            n == list@.len(),
                            strictly_increasing(result@),
                            forall|id: usize| #[trigger]
                                result@.contains(id) <==> (before.contains(id) || list@.take(
                                    k as int,
                                ).contains(id)),
                        decreases n - k,
                    {
                        let ghost earlier = result@;
                        insert_id(&mut result, list[k]);
                        proof {
                            let head = list@.take(k as int);
                            let next = list@.take(k as int + 1);
                            assert forall|id: usize|
                                result@.contains(id) <==> (before.contains(id) || next.contains(
                                    id,
                                )) by {
                                assert(result@.contains(id) <==> (earlier.contains(id) || id
                                    == list@[k as int]));
                                assert(earlier.contains(id) <==> (before.contains(id)
                                    || head.contains(id)));
                                if next.contains(id) {
                                    let m = choose|m: int| 0 <= m < next.len() && next[m] == id;
                                    if m < k {
                                        assert(head[m] == id);
                                    }
                                }
                                if head.contains(id) {
                                    let m = choose|m: int| 0 <= m < head.len() && head[m] == id;
                                    assert(next[m] == id);
                                }
                                if id == list@[k as int] {
                                    assert(next[k as int] == id);
                                }
                            }
                        }
                        k += 1;
                    }
                    assert(list@.take(n as int) == list@);
                    assert(list@ == ids);
                } else {
                    assert(ids == Seq::<usize>::empty());
                }
                assert(forall|id: usize| #[trigger]
                    result@.contains(id) <==> (before.contains(id) || ids.contains(id)));
                proof {
                    let mx = min_x as int;
                    let my = min_y as int;
                    let top = max_y as int;
                    assert forall|id: usize|
                        result@.contains(id) <==> self.found_by_walk(
                            mx,
                            my,
                            top,
                            x as int,
                            y + 1,
                            id,
                        ) by {
                        assert(result@.contains(id) <==> (before.contains(id) || ids.contains(
                            id,
                        )));
                        assert(before.contains(id) <==> self.found_by_walk(
                            mx,
                            my,
                            top,
                            x as int,
                            y as int,
                            id,
                        ));
                        if self.found_by_walk(mx, my, top, x as int, y + 1, id) {
                            let (cx, cy) = choose|cx: int, cy: int|
                                walk_passed(mx, my, top, x as int, y + 1, cx, cy)
                                    && #[trigger] self.cell(cx, cy).contains(id);
                            if cx == x && cy == y {
                                assert(ids.contains(id));
                            } else {
                                assert(walk_passed(mx, my, top, x as int, y as int, cx, cy));
                                assert(self.found_by_walk(mx, my, top, x as int, y as int, id));
                            }
                        }
                        if self.found_by_walk(mx, my, top, x as int, y as int, id) {
                            let (cx, cy) = choose|cx: int, cy: int|
                                walk_passed(mx, my, top, x as int, y as int, cx, cy)
                                    && #[trigger] self.cell(cx, cy).contains(id);
                            assert(walk_passed(mx, my, top, x as int, y + 1, cx, cy));
                        }
                        if ids.contains(id) {
                            assert(walk_passed(mx, my, top, x as int, y + 1, x as int, y as int));
                            assert(self.cell(x as int, y as int).contains(id));
                        }
                    }
                }
                y += 1;
            }
            proof {
                let mx = min_x as int;
                let my = min_y as int;
                let top = max_y as int;
                assert forall|id: usize|
                    self.found_by_walk(mx, my, top, x as int, y as int, id)
                        <==> self.found_by_walk(mx, my, top, x + 1, my, id) by {
                    if self.found_by_walk(mx, my, top, x as int, y as int, id) {
                        let (cx, cy) = choose|cx: int, cy: int|
                            walk_passed(mx, my, top, x as int, y as int, cx, cy)
                                && #[trigger] self.cell(cx, cy).contains(id);
                        assert(walk_passed(mx, my, top, x + 1, my, cx, cy));
                    }
                    if self.found_by_walk(mx, my, top, x + 1, my, id) {
                        let (cx, cy) = choose|cx: int, cy: int|
                            walk_passed(mx, my, top, x + 1, my, cx, cy) && #[trigger] self.cell(
                                cx,
                                cy,
                            ).contains(id);
                        assert(walk_passed(mx, my, top, x as int, y as int, cx, cy));
                    }
                }
            }
            x += 1;
        }
        proof {
            let mx = min_x as int;
            let my = min_y as int;
            let top = max_y as int;
            assert forall|id: usize|
                self.found_by_walk(mx, my, top, x as int, my, id) <==> self.reaches(
                    *aabb,
                    id,
                ) by {
                if self.found_by_walk(mx, my, top, x as int, my, id) {
                    let (cx, cy) = choose|cx: int, cy: int|
                        walk_passed(mx, my, top, x as int, my, cx, cy) && #[trigger] self.cell(
                            cx,
                            cy,
                        ).contains(id);
                    assert(box_covers(*aabb, self.size(), cx, cy));
                }
                if self.reaches(*aabb, id) {
                    let (cx, cy) = choose|cx: int, cy: int|
                        box_covers(*aabb, self.size(), cx, cy) && #[trigger] self.cell(
                            cx,
                            cy,
                        ).contains(id);
                    assert(walk_passed(mx, my, top, x as int, my, cx, cy));
                }
            }
        }
        result
    }

    /// True when `pair` is made of the entries `i` and `j` of the cell
    /// `(cx, cy)`, the smaller id first.
    pub open spec fn pair_at(
        &self,
        cx: int,
        cy: int,
        i: int,
        j: int,
        pair: (usize, usize),
    ) -> bool {
        &&& 0 <= i < j < self.cell(cx, cy).len()
        &&& pair == ordered_pair(self.cell(cx, cy)[i], self.cell(cx, cy)[j])
    }

    /// True when the two ids of `pair`, the smaller first, are registered
    /// at two places of one cell.
    pub open spec fn shares_cell(&self, pair: (usize, usize)) -> bool {
        exists|cx: int, cy: int, i: int, j: int| #[trigger] self.pair_at(cx, cy, i, j, pair)
    }

    /// True when `id` is registered in every cell that the box overlaps,
    /// as it is once it has been inserted with that box.
    pub open spec fn registered(&self, id: usize, aabb: AABB) -> bool {
        forall|cx: int, cy: int|
            box_covers(aabb, self.size(), cx, cy) ==> #[trigger] self.cell(cx, cy).contains(id)
    }

    /// No pair of boxes that touch is missed.
    ///
    /// Two boxes that share a point, each with its corners in order and
    /// each registered under an id of its own, overlap a common cell, so
    /// `get_pairs` lists the pair of their ids.
    pub proof fn lemma_touching_boxes_share_a_cell(&self, i: usize, a: AABB, j: usize, b: AABB)
        requires
            self.well_formed(),
            i != j,
            a.spec_is_ordered(),
            b.spec_is_ordered(),
            a.spec_intersects(&b),
            self.registered(i, a),
            self.registered(j, b),
        ensures
            self.shares_cell(ordered_pair(i, j)),
    {
        let size = self.size();
        let px = if a.min.x@ >= b.min.x@ {
            a.min.x@
        } else {
            b.min.x@
        };
        let py = if a.min.y@ >= b.min.y@ {
            a.min.y@
        } else {
            b.min.y@
        };
        let cx = px / size;
        let cy = py / size;
        vstd::arithmetic::div_mod::lemma_div_is_ordered(a.min.x@, px, size);
        vstd::arithmetic::div_mod::lemma_div_is_ordered(px, a.max.x@, size);
        vstd::arithmetic::div_mod::lemma_div_is_ordered(b.min.x@, px, size);
        vstd::arithmetic::div_mod::lemma_div_is_ordered(px, b.max.x@, size);
        vstd::arithmetic::div_mod::lemma_div_is_ordered(a.min.y@, py, size);
        vstd::arithmetic::div_mod::lemma_div_is_ordered(py, a.max.y@, size);
        vstd::arithmetic::div_mod::lemma_div_is_ordered(b.min.y@, py, size);
        vstd::arithmetic::div_mod::lemma_div_is_ordered(py, b.max.y@, size);
        assert(box_covers(a, size, cx, cy));
        assert(box_covers(b, size, cx, cy));
        let ids = self.cell(cx, cy);
        assert(ids.contains(i));
        assert(ids.contains(j));
        let p = choose|p: int| 0 <= p < ids.len() && ids[p] == i;
        let q = choose|q: int| 0 <= q < ids.len() && ids[q] == j;
        if p < q {
            assert(self.pair_at(cx, cy, p, q, ordered_pair(i, j)));
        } else {
            assert(self.pair_at(cx, cy, q, p, ordered_pair(i, j)));
        }
    }

    /// True when `pair` is made of the entries `i` and `j` of the list
    /// stored under the key at place `t`.
    spec fn stored_pair_at(&self, t: int, i: int, j: int, pair: (usize, usize)) -> bool {
        &&& 0 <= t < self.keys@.len()
        &&& self.cells@.contains_key(self.keys@[t])
        &&& 0 <= i < j < self.cells@[self.keys@[t]]@.len()
        &&& pair == ordered_pair(self.cells@[self.keys@[t]]@[i], self.cells@[self.keys@[t]]@[j])
    }

    /// True when `pair` comes from a list stored under one of the first
    /// `t` keys.
    spec fn stored_pair_before(&self, t: int, pair: (usize, usize)) -> bool {
        exists|u: int, i: int, j: int| u < t && #[trigger] self.stored_pair_at(u, i, j, pair)
    }

    /// The pairs from the stored lists are the pairs that share a cell.
    proof fn lemma_stored_pairs_share_cells(&self, pair: (usize, usize))
        requires
            self.well_formed(),
        ensures
            self.stored_pair_before(self.keys@.len() as int, pair) <==> self.shares_cell(pair),
    {
        if self.stored_pair_before(self.keys@.len() as int, pair) {
            let (u, i, j) = choose|u: int, i: int, j: int|
                u < self.keys@.len() && #[trigger] self.stored_pair_at(u, i, j, pair);
            let key = self.keys@[u];
            let cx = (key / 0x1_0000_0000) as int - 0x8000_0000;
            let cy = (key % 0x1_0000_0000) as int - 0x8000_0000;
            assert(cell_key(cx, cy) == key);
            assert(self.pair_at(cx, cy, i, j, pair));
        }
        if self.shares_cell(pair) {
            let (cx, cy, i, j) = choose|cx: int, cy: int, i: int, j: int| #[trigger]
                self.pair_at(cx, cy, i, j, pair);
            let key = cell_key(cx, cy);
            assert(self.cells@.contains_key(key));
            assert(self.keys@.contains(key));
            let u = choose|u: int| 0 <= u < self.keys@.len() && self.keys@[u] == key;
            assert(self.stored_pair_at(u, i, j, pair));
        }
    }

    /// Get all potential collision pairs
    ///
    /// Every pair of ids that are registered in one cell, the smaller id
    /// first, each pair once, in ascending order.
    pub fn get_pairs(&self) -> (pairs: Vec<(usize, usize)>)
        requires
            self.well_formed(),
        ensures
            pairs_strictly_increasing(pairs@),
            forall|pair: (usize, usize)| #[trigger]
                pairs@.contains(pair) <==> self.shares_cell(pair),
    {
        let mut pairs: Vec<(usize, usize)> = Vec::new();
        let count: usize = self.keys.len();
        let mut t: usize = 0;
        while t < count
            invariant
                t <= count,
                count == self.keys@.len(),
                pairs_strictly_increasing(pairs@),
                forall|pair: (usize, usize)| #[trigger]
                    pairs@.contains(pair) <==> self.stored_pair_before(t as int, pair),
            decreases count - t,
        {
            let ghost before = pairs@;
            if let Some(ids) = self.cells.get(&self.keys[t]) {
                let n: usize = ids.len();
                let mut i: usize = 0;
                while i < n
                    invariant
                        i <= n,
                        n == ids@.len(),
                        pairs_strictly_increasing(pairs@),
                        forall|pair: (usize, usize)| #[trigger]
                            pairs@.contains(pair) <==> (before.contains(pair) || exists|
                                a: int,
                                b: int,
                            |
                                0 <= a < i && a < b < n && pair == #[trigger] ordered_pair(
                                    ids@[a],
                                    ids@[b],
                                )),
                    decreases n - i,
                {
                    let mut j: usize = i + 1;
                    while j < n
                        invariant
                            i < n,
                            i + 1 <= j <= n,
                            n == ids@.len(),
                            pairs_strictly_increasing(pairs@),
                            forall|pair: (usize, usize)| #[trigger]
                                pairs@.contains(pair) <==> (before.contains(pair) || exists|
                                    a: int,
                                    b: int,
                                |
                                    ((0 <= a < i && a < b < n) || (a == i && i < b < j)) && pair
                                        == #[trigger] ordered_pair(ids@[a], ids@[b])),
                        decreases n - j,
                    {
                        let a: usize = if ids[i] <= ids[j] { ids[i] } else { ids[j] };
                        let b: usize = if ids[i] <= ids[j] { ids[j] } else { ids[i] };
                        let ghost earlier = pairs@;
                        insert_pair(&mut pairs, (a, b));
                        proof {
                            assert((a, b) == ordered_pair(ids@[i as int], ids@[j as int]));
                            assert forall|pair: (usize, usize)| #[trigger]
                                pairs@.contains(pair) <==> (before.contains(pair) || exists|
                                    a: int,
                                    b: int,
                                |
                                    ((0 <= a < i && a < b < n) || (a == i && i < b < j + 1))
                                        && pair == #[trigger] ordered_pair(ids@[a], ids@[b])) by {
                                assert(pairs@.contains(pair) <==> (earlier.contains(pair) || pair
                                    == (a, b)));
                                if earlier.contains(pair) && !before.contains(pair) {
                                    let (a0, b0) = choose|a: int, b: int|
                                        ((0 <= a < i && a < b < n) || (a == i && i < b < j))
                                            && pair == #[trigger] ordered_pair(ids@[a], ids@[b]);
                                    assert(((0 <= a0 < i && a0 < b0 < n) || (a0 == i && i < b0 < j
                                        + 1)) && pair == ordered_pair(ids@[a0], ids@[b0]));
                                }
                                if pair == (a, b) {
                                    assert(pair == ordered_pair(ids@[i as int], ids@[j as int]));
                                }
                                if exists|a: int, b: int|
                                    ((0 <= a < i && a < b < n) || (a == i && i < b < j + 1))
                                        && pair == #[trigger] ordered_pair(ids@[a], ids@[b]) {
                                    let (a0, b0) = choose|a: int, b: int|
                                        ((0 <= a < i && a < b < n) || (a == i && i < b < j + 1))
                                            && pair == #[trigger] ordered_pair(ids@[a], ids@[b]);
                                    if a0 == i && b0 == j {
                                        assert(pair == (a, b));
                                    } else {
                                        assert(((0 <= a0 < i && a0 < b0 < n) || (a0 == i && i < b0
                                            < j)) && pair == ordered_pair(ids@[a0], ids@[b0]));
                                        assert(earlier.contains(pair));
                                    }
                                }
                            }
                        }
                        j += 1;
                    }
                    proof {
                        assert forall|pair: (usize, usize)| #[trigger]
                            pairs@.contains(pair) <==> (before.contains(pair) || exists|
                                a: int,
                                b: int,
                            |
                                0 <= a < i + 1 && a < b < n && pair == #[trigger] ordered_pair(
                                    ids@[a],
                                    ids@[b],
                                )) by {
                            if pairs@.contains(pair) && !before.contains(pair) {
                                let (a0, b0) = choose|a: int, b: int|
                                    ((0 <= a < i && a < b < n) || (a == i && i < b < j)) && pair
                                        == #[trigger] ordered_pair(ids@[a], ids@[b]);
                                assert(0 <= a0 < i + 1 && a0 < b0 < n && pair == ordered_pair(
                                    ids@[a0],
                                    ids@[b0],
                                ));
                            }
                            if exists|a: int, b: int|
                                0 <= a < i + 1 && a < b < n && pair == #[trigger] ordered_pair(
                                    ids@[a],
                                    ids@[b],
                                ) {
                                let (a0, b0) = choose|a: int, b: int|
                                    0 <= a < i + 1 && a < b < n && pair == #[trigger] ordered_pair(
                                        ids@[a],
                                        ids@[b],
                                    );
                                assert(((0 <= a0 < i && a0 < b0 < n) || (a0 == i && i < b0 < j))
                                    && pair == ordered_pair(ids@[a0], ids@[b0]));
                            }
                        }
                    }
                    i += 1;
                }
                proof {
                    assert forall|pair: (usize, usize)| #[trigger]
                        pairs@.contains(pair) <==> self.stored_pair_before(t + 1, pair) by {
                        assert(before.contains(pair) <==> self.stored_pair_before(t as int, pair));
                        if before.contains(pair) {
                            let (u, a0, b0) = choose|u: int, i: int, j: int|
                                u < t && #[trigger] self.stored_pair_at(u, i, j, pair);
                            assert(u < t + 1 && self.stored_pair_at(u, a0, b0, pair));
                        }
                        if pairs@.contains(pair) && !before.contains(pair) {
                            let (a0, b0) = choose|a: int, b: int|
                                0 <= a < i && a < b < n && pair == #[trigger] ordered_pair(
                                    ids@[a],
                                    ids@[b],
                                );
                            assert(self.stored_pair_at(t as int, a0, b0, pair));
                        }
                        if self.stored_pair_before(t + 1, pair) {
                            let (u, a0, b0) = choose|u: int, i: int, j: int|
                                u < t + 1 && #[trigger] self.stored_pair_at(u, i, j, pair);
                            if u < t {
                                assert(self.stored_pair_before(t as int, pair));
                            } else {
                                assert(0 <= a0 < i && a0 < b0 < n && pair == ordered_pair(
                                    ids@[a0],
                                    ids@[b0],
                                ));
                            }
                        }
                    }
                }
            } else {
                proof {
                    assert forall|pair: (usize, usize)| #[trigger]
                        pairs@.contains(pair) <==> self.stored_pair_before(t + 1, pair) by {
                        assert(before.contains(pair) <==> self.stored_pair_before(t as int, pair));
                        if before.contains(pair) {
                            let (u, a0, b0) = choose|u: int, i: int, j: int|
                                u < t && #[trigger] self.stored_pair_at(u, i, j, pair);
                            assert(u < t + 1 && self.stored_pair_at(u, a0, b0, pair));
                        }
                        if self.stored_pair_before(t + 1, pair) {
                            let (u, a0, b0) = choose|u: int, i: int, j: int|
                                u < t + 1 && #[trigger] self.stored_pair_at(u, i, j, pair);
                            assert(u < t);
                            assert(self.stored_pair_before(t as int, pair));
                        }
                    }
                }
            }
            t += 1;
        }
        proof {
            assert forall|pair: (usize, usize)| #[trigger]
                pairs@.contains(pair) <==> self.shares_cell(pair) by {
                self.lemma_stored_pairs_share_cells(pair);
            }
        }
        pairs
    }
}

/// One end of the interval that a box covers on the X axis.
#[derive(Clone, Copy, Debug)]
pub struct Endpoint {
    pub value: FixedPoint,
    pub id: usize,
    pub is_min: bool,
}

/// The two ends of every box, in the order of the boxes, the lower end of
/// a box before its upper end.
pub open spec fn endpoint_list(aabbs: Seq<(usize, AABB)>) -> Seq<Endpoint>
    decreases aabbs.len(),
{
    if aabbs.len() == 0 {
        Seq::empty()
    } else {
        endpoint_list(aabbs.drop_last()).push(
            Endpoint { value: aabbs.last().1.min.x, id: aabbs.last().0, is_min: true },
        ).push(Endpoint { value: aabbs.last().1.max.x, id: aabbs.last().0, is_min: false })
    }
}

/// The first place in `s` whose value is above `v`, or the length of `s`.
pub open spec fn first_above(s: Seq<Endpoint>, v: int) -> int
    decreases s.len(),
{
    if s.len() == 0 || s[0].value@ > v {
        0
    } else {
        1 + first_above(s.skip(1), v)
    }
}

/// The list with `e` put in before the first entry whose value is above
/// its own: in a sorted list, behind every entry of the same value.
pub open spec fn place_endpoint(s: Seq<Endpoint>, e: Endpoint) -> Seq<Endpoint> {
    s.insert(first_above(s, e.value@), e)
}

/// The list sorted by value, entries of equal value in the order in which
/// they stood.
pub open spec fn sort_endpoints(list: Seq<Endpoint>) -> Seq<Endpoint>
    decreases list.len(),
{
    if list.len() == 0 {
        Seq::empty()
    } else {
        place_endpoint(sort_endpoints(list.drop_last()), list.last())
    }
}

/// True when no entry has a smaller value than one before it.
pub open spec fn sorted_by_value(s: Seq<Endpoint>) -> bool {
    forall|i: int, j: int| 0 <= i < j < s.len() ==> s[i].value@ <= s[j].value@
}

/// A place that has only values up to `v` before it and a value above `v`
/// on it, or nothing on it, is the first place above `v`.
proof fn lemma_first_above(s: Seq<Endpoint>, v: int, i: int)
    requires
        0 <= i <= s.len(),
        forall|j: int| 0 <= j < i ==> s[j].value@ <= v,
        i < s.len() ==> s[i].value@ > v,
    ensures
        first_above(s, v) == i,
    decreases i,
{
    if i > 0 {
        let rest = s.skip(1);
        assert forall|j: int| 0 <= j < i - 1 implies rest[j].value@ <= v by {
            assert(rest[j] == s[j + 1]);
        }
        if i < s.len() {
            assert(rest[i - 1] == s[i]);
        }
        lemma_first_above(rest, v, i - 1);
    }
}

/// The first place above `v` lies within the list and has only values up
/// to `v` before it.
pub proof fn lemma_first_above_bounds(s: Seq<Endpoint>, v: int)
    ensures
        0 <= first_above(s, v) <= s.len(),
        forall|j: int| 0 <= j < first_above(s, v) ==> s[j].value@ <= v,
        first_above(s, v) < s.len() ==> s[first_above(s, v)].value@ > v,
    decreases s.len(),
{
    if s.len() > 0 && s[0].value@ <= v {
        let rest = s.skip(1);
        lemma_first_above_bounds(rest, v);
        assert forall|j: int| 0 <= j < first_above(s, v) implies s[j].value@ <= v by {
            if j > 0 {
                assert(rest[j - 1] == s[j]);
            }
        }
        if first_above(s, v) < s.len() {
            assert(rest[first_above(rest, v)] == s[first_above(s, v)]);
        }
    }
}

/// Putting an entry into a sorted list leaves a sorted list.
pub proof fn lemma_place_keeps_sorted(s: Seq<Endpoint>, e: Endpoint)
    requires
        sorted_by_value(s),
    ensures
        sorted_by_value(place_endpoint(s, e)),
        place_endpoint(s, e).len() == s.len() + 1,
{
    lemma_first_above_bounds(s, e.value@);
    let p = first_above(s, e.value@);
    let r = place_endpoint(s, e);
    assert forall|i: int, j: int| 0 <= i < j < r.len() implies r[i].value@ <= r[j].value@ by {
        if j < p {
            assert(r[i] == s[i] && r[j] == s[j]);
        } else if j == p {
            assert(r[i] == s[i]);
        } else if i < p {
            assert(r[i] == s[i] && r[j] == s[j - 1]);
        } else if i == p {
            assert(r[j] == s[j - 1]);
            assert(s[p].value@ <= s[j - 1].value@);
        } else {
            assert(r[i] == s[i - 1] && r[j] == s[j - 1]);
        }
    }
}

/// Sorting gives a sorted list of the same length.
pub proof fn lemma_sort_endpoints_sorted(list: Seq<Endpoint>)
    ensures
        sorted_by_value(sort_endpoints(list)),
        sort_endpoints(list).len() == list.len(),
    decreases list.len(),
{
    if list.len() > 0 {
        lemma_sort_endpoints_sorted(list.drop_last());
        lemma_place_keeps_sorted(sort_endpoints(list.drop_last()), list.last());
    }
}

/// The first place at which `id` stands in `s`, or the length of `s`.
pub open spec fn first_place(s: Seq<usize>, id: usize) -> int
    decreases s.len(),
{
    if s.len() == 0 || s[0] == id {
        0
    } else {
        1 + first_place(s.skip(1), id)
    }
}

/// A place that has `id` on it, or nothing, and not before it is the
/// first place of `id`.
proof fn lemma_first_place(s: Seq<usize>, id: usize, i: int)
    requires
        0 <= i <= s.len(),
        forall|j: int| 0 <= j < i ==> s[j] != id,
        i < s.len() ==> s[i] == id,
    ensures
        first_place(s, id) == i,
    decreases i,
{
    if i > 0 {
        let rest = s.skip(1);
        assert forall|j: int| 0 <= j < i - 1 implies rest[j] != id by {
            assert(rest[j] == s[j + 1]);
        }
        if i < s.len() {
            assert(rest[i - 1] == s[i]);
        }
        lemma_first_place(rest, id, i - 1);
    }
}

/// What a sweep holds between two endpoints.
pub struct SweepState {
    /// The ids of the intervals that have begun and not ended.
    pub active: Seq<usize>,
    /// The pairs reported so far.
    pub pairs: Seq<(usize, usize)>,
}

/// The sweep after the endpoint `e`.
///
/// A lower end reports its id with every active id, in the order in which
/// they stand, and then becomes active itself. An upper end takes the
/// first entry of its id out of the active ids, the last active id moving
/// into the gap; where its id is not active, nothing changes.
pub open spec fn sweep_step(state: SweepState, e: Endpoint) -> SweepState {
    let pos = first_place(state.active, e.id);
    if e.is_min {
        SweepState {
            active: state.active.push(e.id),
            pairs: state.pairs + Seq::new(
                state.active.len(),
                |m: int| ordered_pair(e.id, state.active[m]),
            ),
        }
    } else if pos < state.active.len() {
        SweepState { active: state.active.update(pos, state.active.last()).drop_last(), ..state }
    } else {
        state
    }
}

/// The sweep after all of `endpoints`, begun with nothing active.
pub open spec fn sweep(endpoints: Seq<Endpoint>) -> SweepState
    decreases endpoints.len(),
{
    if endpoints.len() == 0 {
        SweepState { active: Seq::empty(), pairs: Seq::empty() }
    } else {
        sweep_step(sweep(endpoints.drop_last()), endpoints.last())
    }
}

/// Sweep and prune for 1D broad phase
pub struct SweepAndPrune {
    endpoints: Vec<Endpoint>,
}

impl View for SweepAndPrune {
    type V = Seq<Endpoint>;

    /// The endpoints in the order in which the sweep meets them.
    closed spec fn view(&self) -> Seq<Endpoint> {
        self.endpoints@
    }
}

/// Puts `e` into the sorted list before the first entry whose value is
/// above its own.
fn insert_endpoint(endpoints: &mut Vec<Endpoint>, e: Endpoint)
    ensures
        final(endpoints)@ == place_endpoint(old(endpoints)@, e),
{
    let mut i: usize = 0;
    while i < endpoints.len() && endpoints[i].value.0 <= e.value.0
        invariant
            i <= endpoints.len(),
            endpoints@ == old(endpoints)@,
            forall|j: int| 0 <= j < i ==> endpoints@[j].value@ <= e.value@,
        decreases endpoints.len() - i,
    {
        i += 1;
    }
    proof {
        lemma_first_above(endpoints@, e.value@, i as int);
    }
    endpoints.insert(i, e);
}

impl SweepAndPrune {
    pub fn new() -> (r: Self)
        ensures
            r@ == Seq::<Endpoint>::empty(),
    {
        SweepAndPrune { endpoints: Vec::new() }
    }

    /// Replaces the endpoints by those of `aabbs`, sorted by value; ends
    /// of equal value keep the order of the boxes, the lower end of a box
    /// before its upper end.
    pub fn update(&mut self, aabbs: &[(usize, AABB)])
        ensures
            final(self)@ == sort_endpoints(endpoint_list(aabbs@)),
            sorted_by_value(final(self)@),
            final(self)@.len() == 2 * aabbs@.len(),
    {
        self.endpoints.clear();
        let n: usize = aabbs.len();
        let mut k: usize = 0;
        while k < n
            invariant
                k <= n,
                n == aabbs@.len(),
                self.endpoints@ == sort_endpoints(endpoint_list(aabbs@.take(k as int))),
                endpoint_list(aabbs@.take(k as int)).len() == 2 * k,
            decreases n - k,
        {
            let id: usize = aabbs[k].0;
            let aabb: AABB = aabbs[k].1;
            let low: Endpoint = Endpoint { value: aabb.min.x, id, is_min: true };
            let high: Endpoint = Endpoint { value: aabb.max.x, id, is_min: false };
            proof {
                let head = aabbs@.take(k as int);
                let next = aabbs@.take(k as int + 1);
                assert(next.drop_last() == head);
                assert(next.last() == aabbs@[k as int]);
                let list = endpoint_list(next);
                assert(list == endpoint_list(head).push(low).push(high));
                assert(list.drop_last() == endpoint_list(head).push(low));
                assert(list.drop_last().drop_last() == endpoint_list(head));
                assert(list.last() == high);
                assert(list.drop_last().last() == low);
                assert(sort_endpoints(list.drop_last()) == place_endpoint(
                    sort_endpoints(endpoint_list(head)),
                    low,
                ));
                assert(sort_endpoints(list) == place_endpoint(
                    sort_endpoints(list.drop_last()),
                    high,
                ));
            }
            insert_endpoint(&mut self.endpoints, low);
            insert_endpoint(&mut self.endpoints, high);
            k += 1;
        }
        proof {
            assert(aabbs@.take(n as int) == aabbs@);
            lemma_sort_endpoints_sorted(endpoint_list(aabbs@));
        }
    }

    /// The pairs that a sweep over the endpoints reports: a pair for every
    /// lower end that is met while another interval is active.
    pub fn get_pairs(&self) -> (pairs: Vec<(usize, usize)>)
        ensures
            pairs@ == sweep(self@).pairs,
    {
        let mut pairs: Vec<(usize, usize)> = Vec::new();
        let mut active: Vec<usize> = Vec::new();

        let n: usize = self.endpoints.len();
        let mut k: usize = 0;
        while k < n
            invariant
                k <= n,
                n == self.endpoints@.len(),
                (SweepState { active: active@, pairs: pairs@ }) == sweep(
                    self.endpoints@.take(k as int),
                ),
            decreases n - k,
        {
            let endpoint: Endpoint = self.endpoints[k];
            let ghost state = SweepState { active: active@, pairs: pairs@ };
            proof {
                let next = self.endpoints@.take(k as int + 1);
                assert(next.drop_last() == self.endpoints@.take(k as int));
                assert(next.last() == endpoint);
            }
            if endpoint.is_min {
                let count: usize = active.len();
                let mut m: usize = 0;
                while m < count
                    invariant
                        m <= count,
                        count == active@.len(),
                        active@ == state.active,
                        pairs@ == state.pairs + Seq::new(
                            m as nat,
                            |m: int| ordered_pair(endpoint.id, state.active[m]),
                        ),
                    decreases count - m,
                {
                    let other: usize = active[m];
                    let a: usize = if endpoint.id <= other { endpoint.id } else { other };
                    let b: usize = if endpoint.id <= other { other } else { endpoint.id };
                    pairs.push((a, b));
                    m += 1;
                }
                active.push(endpoint.id);
            } else {
                let count: usize = active.len();
                let mut pos: usize = 0;
                while pos < count && active[pos] != endpoint.id
                    invariant
                        pos <= count,
                        count == active@.len(),
                        forall|j: int| 0 <= j < pos ==> active@[j] != endpoint.id,
                    decreases count - pos,
                {
                    pos += 1;
                }
                proof {
                    lemma_first_place(active@, endpoint.id, pos as int);
                }
                if pos < count {
                    active.swap_remove(pos);
                }
            }
            k += 1;
        }
        assert(self.endpoints@.take(n as int) == self.endpoints@);
        pairs
    }
}

impl Default for SweepAndPrune {
    fn default() -> (r: SweepAndPrune)
        ensures
            r@ == Seq::<Endpoint>::empty(),
    {
        SweepAndPrune::new()
    }
}

} // verus!
