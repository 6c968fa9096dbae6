//! Collision detection through the broad phase.
//!
//! The bodies are registered in a grid by the boxes around their circles,
//! and only pairs that share a cell are handed to the exact test. The grid
//! misses no pair that touches and the exact test drops every pair that
//! does not, so the contacts are the same, in the same order, as those of
//! the test of all pairs.

use super::broad_phase::{
    box_covers, ordered_pair, pair_lt, pairs_strictly_increasing, strictly_increasing, SpatialHash,
};
use super::collision::{
    all_contacts, body_contact, body_radius, circle_vs_circle, row_contacts, Circle, AABB,
};
use super::{Body, Contact};
use crate::math::fixed_point::{clamp32, clamp_wide, FixedPoint};
use crate::math::vec2::{norm_sq, Vec2};
use vstd::prelude::*;

verus! {

/// The box around the circle of `body_radius()` at `position`, cut off at
/// the ends of the number range instead of wrapping.
pub open spec fn body_box(position: Vec2) -> AABB {
    AABB {
        min: Vec2 {
            x: FixedPoint(clamp32(position.x@ - body_radius()@) as i32),
            y: FixedPoint(clamp32(position.y@ - body_radius()@) as i32),
        },
        max: Vec2 {
            x: FixedPoint(clamp32(position.x@ + body_radius()@) as i32),
            y: FixedPoint(clamp32(position.y@ + body_radius()@) as i32),
        },
    }
}

/// The box around the circle of `body_radius()` at `position`.
fn box_around(position: Vec2) -> (r: AABB)
    ensures
        r == body_box(position),
{
    let radius: i64 = 655360;
    AABB {
        min: Vec2 {
            x: clamp_wide(position.x.0 as i64 - radius),
            y: clamp_wide(position.y.0 as i64 - radius),
        },
        max: Vec2 {
            x: clamp_wide(position.x.0 as i64 + radius),
            y: clamp_wide(position.y.0 as i64 + radius),
        },
    }
}

/// Bodies in contact have boxes that touch, each with its corners in
/// order.
pub proof fn lemma_contact_means_boxes_touch(bodies: Seq<Body>, i: int, j: int)
    requires
        body_contact(bodies, i, j) is Some,
    ensures
        body_box(bodies[i].position).spec_is_ordered(),
        body_box(bodies[j].position).spec_is_ordered(),
        body_box(bodies[i].position).spec_intersects(&body_box(bodies[j].position)),
{
    let a = bodies[i].position;
    let b = bodies[j].position;
    let dx = b.x@ - a.x@;
    let dy = b.y@ - a.y@;
    assert(norm_sq(dx, dy) < 1310720 * 1310720);
    assert(-1310720 < dx < 1310720 && -1310720 < dy < 1310720) by (nonlinear_arith)
        requires
            dx * dx + dy * dy < 1310720 * 1310720,
    ;
}

/// The contacts of all pairs of bodies that come before the pair `(i, j)`
/// in the order of the first index and then the second.
pub open spec fn contacts_before(bodies: Seq<Body>, i: int, j: int) -> Seq<Contact> {
    all_contacts(bodies, i) + row_contacts(bodies, i, j)
}

/// True when `(i, j)` is a pair of two of `n` bodies, the smaller index
/// first, or the end of row `i`.
pub open spec fn is_cursor(n: int, i: int, j: int) -> bool {
    0 <= i < n && i + 1 <= j <= n
}

/// True when the pair `(i, j)` does not come behind the pair `(k, l)`.
pub open spec fn not_behind(i: int, j: int, k: int, l: int) -> bool {
    i < k || (i == k && j <= l)
}

/// Pairs that are not in contact add nothing: where no pair from `(i, j)`
/// up to, not including, `(k, l)` is in contact, the contacts before the
/// two are the same.
pub proof fn lemma_no_contact_in_between(bodies: Seq<Body>, i: int, j: int, k: int, l: int)
    requires
        is_cursor(bodies.len() as int, i, j),
        is_cursor(bodies.len() as int, k, l),
        not_behind(i, j, k, l),
        forall|a: int, b: int|
            0 <= a < b < bodies.len() && not_behind(i, j, a, b) && !not_behind(k, l, a, b)
                ==> #[trigger] body_contact(bodies, a, b) is None,
    ensures
        contacts_before(bodies, i, j) == contacts_before(bodies, k, l),
    decreases bodies.len() - i, bodies.len() - j,
{
    let n = bodies.len() as int;
    if i == k && j == l {
    } else if j < n {
        assert(body_contact(bodies, i, j) is None);
        assert(row_contacts(bodies, i, j + 1) == row_contacts(bodies, i, j));
        lemma_no_contact_in_between(bodies, i, j + 1, k, l);
    } else {
        assert(all_contacts(bodies, i + 1) == all_contacts(bodies, i) + row_contacts(
            bodies,
            i,
            n,
        ));
        assert(row_contacts(bodies, i + 1, i + 2) == Seq::<Contact>::empty());
        assert(contacts_before(bodies, i + 1, i + 2) =~= contacts_before(bodies, i, j));
        lemma_no_contact_in_between(bodies, i + 1, i + 2, k, l);
    }
}

/// Detect collisions between the bodies whose boxes share a cell of a grid.
///
/// Appends to `contacts` what `detect_collisions` appends: the contact of
/// every pair of bodies whose circles of `body_radius()` touch, ordered by
/// the first index and then the second.
pub fn detect_collisions_broad(bodies: &[Body], contacts: &mut Vec<Contact>)
    ensures
        final(contacts)@ == old(contacts)@ + all_contacts(bodies@, bodies.len() as int),
{
    let n: usize = bodies.len();
    if n == 0 {
        assert(old(contacts)@ + all_contacts(bodies@, 0) =~= old(contacts)@);
        return ;
    }
    let radius: FixedPoint = FixedPoint::from_raw(655360);
    let mut grid: SpatialHash = SpatialHash::new(FixedPoint::from_raw(1310720));
    let ghost size = grid.size();

    let mut i: usize = 0;
    while i < n
        invariant
            i <= n,
            n == bodies.len(),
            grid.well_formed(),
            grid.size() == size,
            forall|k: int| 0 <= k < i ==> #[trigger] grid.registered(
                k as usize,
                body_box(bodies@[k].position),
            ),
            forall|cx: int, cy: int| strictly_increasing(#[trigger] grid.cell(cx, cy)),
            forall|cx: int, cy: int, p: int|
                0 <= p < grid.cell(cx, cy).len() ==> (#[trigger] grid.cell(cx, cy)[p]) < i,
        decreases n - i,
    {
        let around: AABB = box_around(bodies[i].position);
        let ghost before = grid;
        grid.insert(i, &around);
        proof {
            assert forall|cx: int, cy: int| strictly_increasing(#[trigger] grid.cell(cx, cy)) by {
                let old_ids = before.cell(cx, cy);
                assert(strictly_increasing(old_ids));
                if box_covers(around, size, cx, cy) {
                    assert(grid.cell(cx, cy) == old_ids.push(i));
                    assert forall|p: int, q: int|
                        0 <= p < q < old_ids.push(i).len() implies old_ids.push(i)[p]
                        < old_ids.push(i)[q] by {
                        if q == old_ids.len() {
                            assert(old_ids[p] < i);
                        }
                    }
                } else {
                    assert(grid.cell(cx, cy) == old_ids);
                }
            }
            assert forall|cx: int, cy: int, p: int|
                0 <= p < grid.cell(cx, cy).len() implies (#[trigger] grid.cell(cx, cy)[p]) < i
                + 1 by {
                let old_ids = before.cell(cx, cy);
                if box_covers(around, size, cx, cy) {
                    assert(grid.cell(cx, cy) == old_ids.push(i));
                    if p < old_ids.len() {
                        assert(old_ids[p] < i);
                    }
                } else {
                    assert(grid.cell(cx, cy) == old_ids);
                    assert(old_ids[p] < i);
                }
            }
            assert forall|k: int| 0 <= k < i + 1 implies #[trigger] grid.registered(
                k as usize,
                body_box(bodies@[k].position),
            ) by {
                if k < i {
                    assert(before.registered(k as usize, body_box(bodies@[k].position)));
                }
            }
        }
        i += 1;
    }

    let pairs: Vec<(usize, usize)> = grid.get_pairs();
    proof {
        // every candidate is a pair of two bodies, the smaller index first
        assert forall|t: int| 0 <= t < pairs@.len() implies (#[trigger] pairs@[t]).0 < pairs@[t].1
            && pairs@[t].1 < n by {
            let pair = pairs@[t];
            assert(pairs@.contains(pair));
            assert(grid.shares_cell(pair));
            let (cx, cy, p, q) = choose|cx: int, cy: int, p: int, q: int| #[trigger]
                grid.pair_at(cx, cy, p, q, pair);
            let ids = grid.cell(cx, cy);
            assert(strictly_increasing(ids));
            assert(ids[p] < ids[q]);
            assert(ids[q] < n);
        }
        // every pair in contact is a candidate
        assert forall|a: int, b: int|
            0 <= a < b < n && #[trigger] body_contact(
                bodies@,
                a,
                b,
            ) is Some implies pairs@.contains((a as usize, b as usize)) by {
            lemma_contact_means_boxes_touch(bodies@, a, b);
            assert(grid.registered(a as usize, body_box(bodies@[a].position)));
            assert(grid.registered(b as usize, body_box(bodies@[b].position)));
            grid.lemma_touching_boxes_share_a_cell(
                a as usize,
                body_box(bodies@[a].position),
                b as usize,
                body_box(bodies@[b].position),
            );
            assert(ordered_pair(a as usize, b as usize) == (a as usize, b as usize));
        }
    }

    let ghost mut ci: int = 0;
    let ghost mut cj: int = 1;
    proof {
        assert(all_contacts(bodies@, 0) =~= Seq::<Contact>::empty());
        assert(row_contacts(bodies@, 0, 1) =~= Seq::<Contact>::empty());
        assert(old(contacts)@ + contacts_before(bodies@, 0, 1) =~= old(contacts)@);
    }
    let count: usize = pairs.len();
    let mut k: usize = 0;
    while k < count
        invariant
            k <= count,
            count == pairs@.len(),
            n == bodies.len(),
            n > 0,
            radius == body_radius(),
            pairs_strictly_increasing(pairs@),
            forall|t: int| 0 <= t < pairs@.len() ==> (#[trigger] pairs@[t]).0 < pairs@[t].1
                && pairs@[t].1 < n,
            forall|a: int, b: int|
                0 <= a < b < n && #[trigger] body_contact(bodies@, a, b) is Some
                    ==> pairs@.contains((a as usize, b as usize)),
            is_cursor(n as int, ci, cj),
            forall|t: int|
                k <= t < pairs@.len() ==> not_behind(
                    ci,
                    cj,
                    (#[trigger] pairs@[t]).0 as int,
                    pairs@[t].1 as int,
                ),
            forall|t: int|
                0 <= t < k ==> !not_behind(
                    ci,
                    cj,
                    (#[trigger] pairs@[t]).0 as int,
                    pairs@[t].1 as int,
                ),
            contacts@ == old(contacts)@ + contacts_before(bodies@, ci, cj),
        decreases count - k,
    {
        let first: usize = pairs[k].0;
        let second: usize = pairs[k].1;
        proof {
            assert(pairs@[k as int].0 < pairs@[k as int].1 && pairs@[k as int].1 < n);
            assert forall|a: int, b: int|
                0 <= a < b < n && not_behind(ci, cj, a, b) && !not_behind(
                    first as int,
                    second as int,
                    a,
                    b,
                ) implies #[trigger] body_contact(bodies@, a, b) is None by {
                if body_contact(bodies@, a, b) is Some {
                    let pair = (a as usize, b as usize);
                    assert(pairs@.contains(pair));
                    let t = choose|t: int| 0 <= t < pairs@.len() && pairs@[t] == pair;
                    if t < k {
                        assert(!not_behind(ci, cj, pairs@[t].0 as int, pairs@[t].1 as int));
                    } else if t > k {
                        assert(pair_lt(pairs@[k as int], pairs@[t]));
                    }
                }
            }
            lemma_no_contact_in_between(bodies@, ci, cj, first as int, second as int);
        }
        let a: Circle = Circle::new(bodies[first].position, radius);
        let b: Circle = Circle::new(bodies[second].position, radius);
        if let Some(mut contact) = circle_vs_circle(&a, &b) {
            contact.body_a = first;
            contact.body_b = second;
            contacts.push(contact);
        }
        proof {
            assert(contacts@ =~= old(contacts)@ + contacts_before(
                bodies@,
                first as int,
                second + 1,
            ));
            ci = first as int;
            cj = second + 1;
            assert forall|t: int| k + 1 <= t < pairs@.len() implies not_behind(
                ci,
                cj,
                (#[trigger] pairs@[t]).0 as int,
                pairs@[t].1 as int,
            ) by {
                assert(pair_lt(pairs@[k as int], pairs@[t]));
            }
            assert forall|t: int| 0 <= t < k + 1 implies !not_behind(
                ci,
                cj,
                (#[trigger] pairs@[t]).0 as int,
                pairs@[t].1 as int,
            ) by {
                if t < k {
                    assert(pair_lt(pairs@[t], pairs@[k as int]));
                }
            }
        }
        k += 1;
    }
    proof {
        assert forall|a: int, b: int|
            0 <= a < b < n && not_behind(ci, cj, a, b) && !not_behind(
                n - 1,
                n as int,
                a,
                b,
            ) implies #[trigger] body_contact(bodies@, a, b) is None by {
            if body_contact(bodies@, a, b) is Some {
                let pair = (a as usize, b as usize);
                assert(pairs@.contains(pair));
                let t = choose|t: int| 0 <= t < pairs@.len() && pairs@[t] == pair;
                assert(!not_behind(ci, cj, pairs@[t].0 as int, pairs@[t].1 as int));
            }
        }
        lemma_no_contact_in_between(bodies@, ci, cj, n - 1, n as int);
        assert(all_contacts(bodies@, n as int) == all_contacts(bodies@, n - 1) + row_contacts(
            bodies@,
            n - 1,
            n as int,
        ));
    }
}

} // verus!
