//! Why the sweep misses no pair of intervals that overlap, and reports
//! none twice.
//!
//! The first argument has two halves. Sorting puts every endpoint at a
//! place that is decided by its value and, among equal values, by where it
//! stood. And in a sweep an interval is active from its lower end up to its
//! upper end, so of two overlapping intervals the one whose lower end comes
//! second finds the other active.

use super::broad_phase::{
    endpoint_list, first_above, first_place, lemma_first_above_bounds,
    lemma_sort_endpoints_sorted, ordered_pair, sort_endpoints, sweep, sweep_step, Endpoint,
    SweepState,
};
use super::collision::AABB;
use vstd::prelude::*;

verus! {

/// The place of each entry of `list` in the sorted list.
pub open spec fn sorted_places(list: Seq<Endpoint>) -> Seq<int>
    decreases list.len(),
{
    if list.len() == 0 {
        Seq::empty()
    } else {
        let before = sorted_places(list.drop_last());
        let p = first_above(sort_endpoints(list.drop_last()), list.last().value@);
        Seq::new(
            list.len(),
            |i: int|
                if i == list.len() - 1 {
                    p
                } else if before[i] >= p {
                    before[i] + 1
                } else {
                    before[i]
                },
        )
    }
}

/// True when the entry at `i` comes before the entry at `j` once the list
/// is sorted: its value is smaller, or the same and it stood first.
pub open spec fn sorts_before(list: Seq<Endpoint>, i: int, j: int) -> bool {
    list[i].value@ < list[j].value@ || (list[i].value@ == list[j].value@ && i < j)
}

/// True when one of the places is `t`.
pub open spec fn place_is_taken(places: Seq<int>, t: int) -> bool {
    exists|u: int| 0 <= u < places.len() && #[trigger] places[u] == t
}

/// Every entry is found at its place in the sorted list, the places follow
/// the order of the values, equal values keeping the order in which they
/// stood, and every place is taken.
pub proof fn lemma_sorted_places(list: Seq<Endpoint>)
    ensures
        sorted_places(list).len() == list.len(),
        sort_endpoints(list).len() == list.len(),
        forall|i: int|
            0 <= i < list.len() ==> 0 <= #[trigger] sorted_places(list)[i] < list.len()
                && sort_endpoints(list)[sorted_places(list)[i]] == list[i],
        forall|i: int, j: int|
            0 <= i < list.len() && 0 <= j < list.len() && sorts_before(list, i, j)
                ==> #[trigger] sorted_places(list)[i] < #[trigger] sorted_places(list)[j],
        forall|t: int|
            0 <= t < list.len() ==> #[trigger] place_is_taken(sorted_places(list), t),
    decreases list.len(),
{
    if list.len() > 0 {
        let n = list.len() - 1;
        let init = list.drop_last();
        let last = list.last();
        let v = last.value@;
        let s = sort_endpoints(init);
        let before = sorted_places(init);
        let places = sorted_places(list);
        let p = first_above(s, v);
        lemma_sorted_places(init);
        lemma_sort_endpoints_sorted(init);
        lemma_first_above_bounds(s, v);
        let sorted = sort_endpoints(list);
        assert(sorted == s.insert(p, last));
        assert(sorted.len() == list.len());
        assert forall|q: int| p <= q < s.len() implies (#[trigger] s[q]).value@ > v by {
            assert(s[p].value@ <= s[q].value@);
        }
        assert forall|i: int| 0 <= i < list.len() implies 0 <= #[trigger] places[i] < list.len()
            && sorted[places[i]] == list[i] by {
            if i < n {
                assert(init[i] == list[i]);
                assert(s[before[i]] == init[i]);
            }
        }
        assert forall|i: int, j: int|
            0 <= i < list.len() && 0 <= j < list.len() && sorts_before(
                list,
                i,
                j,
            ) implies #[trigger] places[i] < #[trigger] places[j] by {
            if i < n && j < n {
                assert(init[i] == list[i] && init[j] == list[j]);
                assert(sorts_before(init, i, j));
                assert(before[i] < before[j]);
            } else if j == n && i < n {
                // list[i] is not above the new value, so it stands before place p
                assert(init[i] == list[i]);
                assert(s[before[i]] == init[i]);
                if before[i] >= p {
                    assert(s[before[i]].value@ > v);
                }
            } else if i == n && j < n {
                // list[j] is above the new value, so it stands at or behind place p
                assert(init[j] == list[j]);
                assert(s[before[j]] == init[j]);
                if before[j] < p {
                    assert(s[before[j]].value@ <= v);
                }
            }
        }
        assert forall|t: int| 0 <= t < list.len() implies #[trigger] place_is_taken(
            places,
            t,
        ) by {
            if t == p {
                assert(places[n] == t);
            } else if t < p {
                assert(place_is_taken(before, t));
                let u = choose|u: int| 0 <= u < before.len() && #[trigger] before[u] == t;
                assert(places[u] == t);
            } else {
                assert(place_is_taken(before, t - 1));
                let u = choose|u: int| 0 <= u < before.len() && #[trigger] before[u] == t - 1;
                assert(places[u] == t);
            }
        }
    }
}

/// The first place of `id` lies within the list and carries `id` if it is
/// an entry.
pub proof fn lemma_first_place_bounds(s: Seq<usize>, id: usize)
    ensures
        0 <= first_place(s, id) <= s.len(),
        first_place(s, id) < s.len() ==> s[first_place(s, id)] == id,
    decreases s.len(),
{
    if s.len() > 0 && s[0] != id {
        let rest = s.skip(1);
        lemma_first_place_bounds(rest, id);
        if first_place(s, id) < s.len() {
            assert(rest[first_place(rest, id)] == s[first_place(s, id)]);
        }
    }
}

/// An id stays active over an endpoint that is not its own upper end.
pub proof fn lemma_step_keeps_active(state: SweepState, e: Endpoint, id: usize)
    requires
        state.active.contains(id),
        e.is_min || e.id != id,
    ensures
        sweep_step(state, e).active.contains(id),
{
    let active = state.active;
    let k = choose|k: int| 0 <= k < active.len() && active[k] == id;
    if e.is_min {
        assert(active.push(e.id)[k] == id);
    } else {
        let pos = first_place(active, e.id);
        lemma_first_place_bounds(active, e.id);
        if pos < active.len() {
            let after = active.update(pos, active.last()).drop_last();
            if k == active.len() - 1 {
                assert(after[pos] == id);
            } else {
                assert(after[k] == id);
            }
        }
    }
}

/// What has been reported stays reported.
pub proof fn lemma_step_keeps_pairs(state: SweepState, e: Endpoint, pair: (usize, usize))
    requires
        state.pairs.contains(pair),
    ensures
        sweep_step(state, e).pairs.contains(pair),
{
    let k = choose|k: int| 0 <= k < state.pairs.len() && state.pairs[k] == pair;
    if e.is_min {
        assert(sweep_step(state, e).pairs[k] == pair);
    }
}

/// A lower end is reported with every id that is active when it is met.
pub proof fn lemma_step_reports(state: SweepState, e: Endpoint, other: usize)
    requires
        e.is_min,
        state.active.contains(other),
    ensures
        sweep_step(state, e).pairs.contains(ordered_pair(e.id, other)),
{
    let k = choose|k: int| 0 <= k < state.active.len() && state.active[k] == other;
    let fresh = Seq::new(state.active.len(), |m: int| ordered_pair(e.id, state.active[m]));
    assert(fresh[k] == ordered_pair(e.id, other));
    assert(sweep_step(state, e).pairs[state.pairs.len() + k] == ordered_pair(e.id, other));
}

/// An interval is active from behind its lower end up to its upper end.
pub proof fn lemma_active_between_ends(endpoints: Seq<Endpoint>, low: int, m: int, id: usize)
    requires
        0 <= low < m <= endpoints.len(),
        endpoints[low].is_min,
        endpoints[low].id == id,
        forall|t: int| low < t < m ==> (#[trigger] endpoints[t]).is_min || endpoints[t].id != id,
    ensures
        sweep(endpoints.take(m)).active.contains(id),
    decreases m,
{
    let head = endpoints.take(m);
    assert(head.drop_last() == endpoints.take(m - 1));
    assert(head.last() == endpoints[m - 1]);
    let state = sweep(endpoints.take(m - 1));
    if m == low + 1 {
        assert(state.active.push(id)[state.active.len() as int] == id);
    } else {
        lemma_active_between_ends(endpoints, low, m - 1, id);
        lemma_step_keeps_active(state, endpoints[m - 1], id);
    }
}

/// What a sweep has reported by some endpoint it has reported at the end.
pub proof fn lemma_pairs_grow(endpoints: Seq<Endpoint>, m: int, pair: (usize, usize))
    requires
        0 <= m <= endpoints.len(),
        sweep(endpoints.take(m)).pairs.contains(pair),
    ensures
        sweep(endpoints).pairs.contains(pair),
    decreases endpoints.len() - m,
{
    if m < endpoints.len() {
        let head = endpoints.take(m + 1);
        assert(head.drop_last() == endpoints.take(m));
        assert(head.last() == endpoints[m]);
        lemma_step_keeps_pairs(sweep(endpoints.take(m)), endpoints[m], pair);
        lemma_pairs_grow(endpoints, m + 1, pair);
    } else {
        assert(endpoints.take(m) == endpoints);
    }
}

/// Of two intervals with different ids, the one whose lower end is met
/// while the other is active is reported with it.
pub proof fn lemma_met_while_active(
    endpoints: Seq<Endpoint>,
    low_a: int,
    low_b: int,
    a: usize,
    b: usize,
)
    requires
        0 <= low_a < low_b < endpoints.len(),
        endpoints[low_a].is_min,
        endpoints[low_a].id == a,
        endpoints[low_b].is_min,
        endpoints[low_b].id == b,
        forall|t: int|
            low_a < t < low_b ==> (#[trigger] endpoints[t]).is_min || endpoints[t].id != a,
    ensures
        sweep(endpoints).pairs.contains(ordered_pair(a, b)),
{
    lemma_active_between_ends(endpoints, low_a, low_b, a);
    let head = endpoints.take(low_b + 1);
    assert(head.drop_last() == endpoints.take(low_b));
    assert(head.last() == endpoints[low_b]);
    lemma_step_reports(sweep(endpoints.take(low_b)), endpoints[low_b], a);
    assert(ordered_pair(b, a) == ordered_pair(a, b));
    lemma_pairs_grow(endpoints, low_b + 1, ordered_pair(a, b));
}

/// The list of endpoints holds the two ends of box `k` at the places `2k`
/// and `2k + 1`.
pub proof fn lemma_endpoint_list(aabbs: Seq<(usize, AABB)>)
    ensures
        endpoint_list(aabbs).len() == 2 * aabbs.len(),
        forall|k: int|
            0 <= k < aabbs.len() ==> (#[trigger] endpoint_list(aabbs)[2 * k]) == (Endpoint {
                value: aabbs[k].1.min.x,
                id: aabbs[k].0,
                is_min: true,
            }) && endpoint_list(aabbs)[2 * k + 1] == (Endpoint {
                value: aabbs[k].1.max.x,
                id: aabbs[k].0,
                is_min: false,
            }),
    decreases aabbs.len(),
{
    if aabbs.len() > 0 {
        let init = aabbs.drop_last();
        lemma_endpoint_list(init);
        let list = endpoint_list(aabbs);
        assert forall|k: int| 0 <= k < aabbs.len() implies (#[trigger] list[2 * k]) == (Endpoint {
            value: aabbs[k].1.min.x,
            id: aabbs[k].0,
            is_min: true,
        }) && list[2 * k + 1] == (Endpoint {
            value: aabbs[k].1.max.x,
            id: aabbs[k].0,
            is_min: false,
        }) by {
            if k < init.len() {
                assert(init[k] == aabbs[k]);
                assert(list[2 * k] == endpoint_list(init)[2 * k]);
                assert(list[2 * k + 1] == endpoint_list(init)[2 * k + 1]);
            }
        }
    }
}

/// True when no two of the boxes carry the same id.
pub open spec fn ids_are_distinct(aabbs: Seq<(usize, AABB)>) -> bool {
    forall|m: int, n: int|
        0 <= m < aabbs.len() && 0 <= n < aabbs.len() && m != n ==> (#[trigger] aabbs[m]).0 != (
        #[trigger] aabbs[n]).0
}

/// True when the boxes at `k` and `l` have their ends in order on the X
/// axis and share more than a point of it.
pub open spec fn overlap_on_x(aabbs: Seq<(usize, AABB)>, k: int, l: int) -> bool {
    &&& aabbs[k].1.min.x@ <= aabbs[k].1.max.x@
    &&& aabbs[l].1.min.x@ <= aabbs[l].1.max.x@
    &&& aabbs[k].1.min.x@ < aabbs[l].1.max.x@
    &&& aabbs[l].1.min.x@ < aabbs[k].1.max.x@
}

/// The sweep misses no pair of boxes that overlap on the X axis.
///
/// Among boxes with ids of their own, any two whose intervals on the X
/// axis are in order and share more than a point are reported as a pair by
/// the sweep over the sorted endpoints. Intervals that only touch at an
/// end may or may not be reported, by the order of the boxes.
pub proof fn lemma_sweep_finds_overlaps(aabbs: Seq<(usize, AABB)>, k: int, l: int)
    requires
        0 <= k < l < aabbs.len(),
        ids_are_distinct(aabbs),
        overlap_on_x(aabbs, k, l),
    ensures
        sweep(sort_endpoints(endpoint_list(aabbs))).pairs.contains(
            ordered_pair(aabbs[k].0, aabbs[l].0),
        ),
{
    let list = endpoint_list(aabbs);
    let sorted = sort_endpoints(list);
    let places = sorted_places(list);
    lemma_endpoint_list(aabbs);
    lemma_sorted_places(list);
    let a = aabbs[k].0;
    let b = aabbs[l].0;
    assert(a != b);
    let low_a = places[2 * k];
    let high_a = places[2 * k + 1];
    let low_b = places[2 * l];
    let high_b = places[2 * l + 1];
    assert(list[2 * k].is_min && list[2 * k].id == a);
    assert(list[2 * l].is_min && list[2 * l].id == b);
    assert(!list[2 * k + 1].is_min && list[2 * k + 1].id == a);
    assert(!list[2 * l + 1].is_min && list[2 * l + 1].id == b);
    assert(sorted[low_a] == list[2 * k] && sorted[low_b] == list[2 * l]);
    assert(sorts_before(list, 2 * k, 2 * k + 1));
    assert(sorts_before(list, 2 * l, 2 * l + 1));
    assert(sorts_before(list, 2 * k, 2 * l + 1));
    assert(sorts_before(list, 2 * l, 2 * k + 1));
    assert(low_a < high_a && low_b < high_b && low_a < high_b && low_b < high_a);
    // an upper end that carries an id is the upper end of the box with that id
    assert forall|t: int| 0 <= t < sorted.len() && !(#[trigger] sorted[t]).is_min && sorted[t].id
        == a implies t == high_a by {
        assert(place_is_taken(places, t));
        let u = choose|u: int| 0 <= u < places.len() && #[trigger] places[u] == t;
        assert(sorted[places[u]] == list[u]);
        let m = u / 2;
        assert(list[2 * m].is_min);
        assert(u == 2 * m + 1);
        assert(list[2 * m + 1].id == aabbs[m].0);
        assert(m == k);
    }
    assert forall|t: int| 0 <= t < sorted.len() && !(#[trigger] sorted[t]).is_min && sorted[t].id
        == b implies t == high_b by {
        assert(place_is_taken(places, t));
        let u = choose|u: int| 0 <= u < places.len() && #[trigger] places[u] == t;
        assert(sorted[places[u]] == list[u]);
        let m = u / 2;
        assert(list[2 * m].is_min);
        assert(u == 2 * m + 1);
        assert(list[2 * m + 1].id == aabbs[m].0);
        assert(m == l);
    }
    if low_a < low_b {
        lemma_met_while_active(sorted, low_a, low_b, a, b);
    } else {
        assert(low_a != low_b) by {
            if sorts_before(list, 2 * k, 2 * l) {
                assert(places[2 * k] < places[2 * l]);
            } else {
                assert(sorts_before(list, 2 * l, 2 * k));
                assert(places[2 * l] < places[2 * k]);
            }
        }
        lemma_met_while_active(sorted, low_b, low_a, b, a);
        assert(ordered_pair(b, a) == ordered_pair(a, b));
    }
}

/// True when no two lower ends of the list belong to one id.
pub open spec fn lower_ends_differ(endpoints: Seq<Endpoint>) -> bool {
    forall|i: int, j: int|
        0 <= i < j < endpoints.len() && (#[trigger] endpoints[i]).is_min
            && (#[trigger] endpoints[j]).is_min ==> endpoints[i].id != endpoints[j].id
}

/// True when the lower end of `id` is among the endpoints.
pub open spec fn has_begun(endpoints: Seq<Endpoint>, id: usize) -> bool {
    exists|i: int|
        0 <= i < endpoints.len() && (#[trigger] endpoints[i]).is_min && endpoints[i].id == id
}

/// True when `pair` has its smaller id first, the two differ, and the
/// lower ends of both are among the endpoints.
pub open spec fn is_proper_pair(endpoints: Seq<Endpoint>, pair: (usize, usize)) -> bool {
    pair.0 < pair.1 && has_begun(endpoints, pair.0) && has_begun(endpoints, pair.1)
}

/// True when a sweep over the endpoints holds no id twice among the
/// active ones, has reported no pair twice, and holds and has reported
/// only ids whose lower end it has met, the smaller id of a pair first.
pub open spec fn sweep_is_tidy(endpoints: Seq<Endpoint>) -> bool {
    let state = sweep(endpoints);
    &&& state.active.no_duplicates()
    &&& state.pairs.no_duplicates()
    &&& forall|k: int|
        0 <= k < state.active.len() ==> has_begun(endpoints, #[trigger] state.active[k])
    &&& forall|k: int|
        0 <= k < state.pairs.len() ==> is_proper_pair(endpoints, #[trigger] state.pairs[k])
}

/// An id whose lower end is among the endpoints still has it there when
/// one more endpoint follows.
proof fn lemma_begun_stays(endpoints: Seq<Endpoint>, id: usize)
    requires
        endpoints.len() > 0,
        has_begun(endpoints.drop_last(), id),
    ensures
        has_begun(endpoints, id),
{
    let head = endpoints.drop_last();
    let i = choose|i: int| 0 <= i < head.len() && (#[trigger] head[i]).is_min && head[i].id == id;
    assert(endpoints[i] == head[i]);
}

/// The step of a tidy sweep over an upper end leaves it tidy.
proof fn lemma_upper_end_keeps_tidy(endpoints: Seq<Endpoint>)
    requires
        endpoints.len() > 0,
        !endpoints.last().is_min,
        sweep_is_tidy(endpoints.drop_last()),
    ensures
        sweep_is_tidy(endpoints),
{
    let head = endpoints.drop_last();
    let e = endpoints.last();
    let state = sweep(head);
    let after = sweep(endpoints);
    assert(after == sweep_step(state, e));
    let pos = first_place(state.active, e.id);
    lemma_first_place_bounds(state.active, e.id);
    assert forall|k: int| 0 <= k < after.pairs.len() implies is_proper_pair(
        endpoints,
        #[trigger] after.pairs[k],
    ) by {
        assert(is_proper_pair(head, state.pairs[k]));
        lemma_begun_stays(endpoints, state.pairs[k].0);
        lemma_begun_stays(endpoints, state.pairs[k].1);
    }
    if pos < state.active.len() {
        let last = state.active.len() - 1;
        assert forall|k: int| 0 <= k < after.active.len() implies has_begun(
            endpoints,
            #[trigger] after.active[k],
        ) by {
            if k == pos {
                assert(after.active[k] == state.active[last]);
                assert(has_begun(head, state.active[last]));
            } else {
                assert(after.active[k] == state.active[k]);
                assert(has_begun(head, state.active[k]));
            }
            lemma_begun_stays(endpoints, after.active[k]);
        }
        assert forall|i: int, j: int|
            0 <= i < after.active.len() && 0 <= j < after.active.len() && i != j implies after.active[i]
            != after.active[j] by {
            let from_i = if i == pos { last } else { i };
            let from_j = if j == pos { last } else { j };
            assert(after.active[i] == state.active[from_i]);
            assert(after.active[j] == state.active[from_j]);
            assert(from_i != from_j);
        }
    } else {
        assert forall|k: int| 0 <= k < after.active.len() implies has_begun(
            endpoints,
            #[trigger] after.active[k],
        ) by {
            assert(has_begun(head, state.active[k]));
            lemma_begun_stays(endpoints, state.active[k]);
        }
    }
}

/// The step of a tidy sweep over a lower end whose id has no lower end
/// before it leaves it tidy.
proof fn lemma_lower_end_keeps_tidy(endpoints: Seq<Endpoint>)
    requires
        endpoints.len() > 0,
        endpoints.last().is_min,
        !has_begun(endpoints.drop_last(), endpoints.last().id),
        sweep_is_tidy(endpoints.drop_last()),
    ensures
        sweep_is_tidy(endpoints),
{
    let head = endpoints.drop_last();
    let e = endpoints.last();
    let state = sweep(head);
    let after = sweep(endpoints);
    assert(after == sweep_step(state, e));
    let old_pairs = state.pairs.len();
    assert(has_begun(endpoints, e.id)) by {
        assert(endpoints[endpoints.len() - 1].is_min);
    }
    assert forall|k: int| 0 <= k < state.active.len() implies #[trigger] state.active[k]
        != e.id by {
        assert(has_begun(head, state.active[k]));
    }
    assert forall|k: int| 0 <= k < after.active.len() implies has_begun(
        endpoints,
        #[trigger] after.active[k],
    ) by {
        if k < state.active.len() {
            assert(after.active[k] == state.active[k]);
            assert(has_begun(head, state.active[k]));
            lemma_begun_stays(endpoints, state.active[k]);
        } else {
            assert(after.active[k] == e.id);
        }
    }
    assert forall|i: int, j: int|
        0 <= i < after.active.len() && 0 <= j < after.active.len() && i != j implies after.active[i]
        != after.active[j] by {
        if i < state.active.len() && j < state.active.len() {
            assert(after.active[i] == state.active[i]);
            assert(after.active[j] == state.active[j]);
        } else if i < state.active.len() {
            assert(after.active[i] == state.active[i]);
        } else {
            assert(after.active[j] == state.active[j]);
        }
    }
    assert forall|k: int| 0 <= k < after.pairs.len() implies is_proper_pair(
        endpoints,
        #[trigger] after.pairs[k],
    ) by {
        if k < old_pairs {
            assert(after.pairs[k] == state.pairs[k]);
            assert(is_proper_pair(head, state.pairs[k]));
            lemma_begun_stays(endpoints, state.pairs[k].0);
            lemma_begun_stays(endpoints, state.pairs[k].1);
        } else {
            let other = state.active[k - old_pairs];
            assert(after.pairs[k] == ordered_pair(e.id, other));
            assert(has_begun(head, other));
            lemma_begun_stays(endpoints, other);
        }
    }
    assert forall|i: int, j: int|
        0 <= i < after.pairs.len() && 0 <= j < after.pairs.len() && i != j implies after.pairs[i]
        != after.pairs[j] by {
        if i < old_pairs && j < old_pairs {
            assert(after.pairs[i] == state.pairs[i]);
            assert(after.pairs[j] == state.pairs[j]);
        } else if i >= old_pairs && j >= old_pairs {
            assert(after.pairs[i] == ordered_pair(e.id, state.active[i - old_pairs]));
            assert(after.pairs[j] == ordered_pair(e.id, state.active[j - old_pairs]));
            assert(state.active[i - old_pairs] != state.active[j - old_pairs]);
        } else {
            let early = if i < old_pairs { i } else { j };
            let late = if i < old_pairs { j } else { i };
            assert(after.pairs[early] == state.pairs[early]);
            assert(after.pairs[late] == ordered_pair(e.id, state.active[late - old_pairs]));
            assert(is_proper_pair(head, state.pairs[early]));
        }
    }
}

/// A sweep reports no pair twice.
///
/// Where no two lower ends belong to one id, as with the endpoints of
/// boxes whose ids are distinct, a sweep reports every pair once, with
/// the smaller id first and two different ids in it.
pub proof fn lemma_sweep_reports_each_pair_once(endpoints: Seq<Endpoint>)
    requires
        lower_ends_differ(endpoints),
    ensures
        sweep_is_tidy(endpoints),
        sweep(endpoints).pairs.no_duplicates(),
        forall|k: int|
            0 <= k < sweep(endpoints).pairs.len() ==> (#[trigger] sweep(endpoints).pairs[k]).0
                < sweep(endpoints).pairs[k].1,
    decreases endpoints.len(),
{
    if endpoints.len() > 0 {
        let head = endpoints.drop_last();
        let e = endpoints.last();
        let n = head.len() as int;
        assert forall|i: int, j: int|
            0 <= i < j < head.len() && (#[trigger] head[i]).is_min && (#[trigger] head[j]).is_min
            implies head[i].id != head[j].id by {
            assert(head[i] == endpoints[i]);
            assert(head[j] == endpoints[j]);
        }
        lemma_sweep_reports_each_pair_once(head);
        if e.is_min {
            if has_begun(head, e.id) {
                let i = choose|i: int|
                    0 <= i < head.len() && (#[trigger] head[i]).is_min && head[i].id == e.id;
                assert(head[i] == endpoints[i]);
                assert(endpoints[n] == e);
                assert(false);
            }
            lemma_lower_end_keeps_tidy(endpoints);
        } else {
            lemma_upper_end_keeps_tidy(endpoints);
        }
    }
    let pairs = sweep(endpoints).pairs;
    assert forall|k: int| 0 <= k < pairs.len() implies (#[trigger] pairs[k]).0 < pairs[k].1 by {
        assert(is_proper_pair(endpoints, pairs[k]));
    }
}

/// Among the sorted endpoints of boxes with ids of their own, no two
/// lower ends belong to one id.
pub proof fn lemma_boxes_begin_once(aabbs: Seq<(usize, AABB)>)
    requires
        ids_are_distinct(aabbs),
    ensures
        lower_ends_differ(sort_endpoints(endpoint_list(aabbs))),
{
    let list = endpoint_list(aabbs);
    let sorted = sort_endpoints(list);
    let places = sorted_places(list);
    lemma_endpoint_list(aabbs);
    lemma_sorted_places(list);
    assert forall|i: int, j: int|
        0 <= i < j < sorted.len() && (#[trigger] sorted[i]).is_min && (#[trigger] sorted[j]).is_min
        implies sorted[i].id != sorted[j].id by {
        assert(place_is_taken(places, i));
        assert(place_is_taken(places, j));
        let u = choose|u: int| 0 <= u < places.len() && #[trigger] places[u] == i;
        let w = choose|w: int| 0 <= w < places.len() && #[trigger] places[w] == j;
        assert(sorted[places[u]] == list[u]);
        assert(sorted[places[w]] == list[w]);
        let k = u / 2;
        let l = w / 2;
        assert(0 <= k < aabbs.len() && 0 <= l < aabbs.len());
        let low_k = list[2 * k];
        let low_l = list[2 * l];
        assert(low_k.id == aabbs[k].0 && !list[2 * k + 1].is_min);
        assert(low_l.id == aabbs[l].0 && !list[2 * l + 1].is_min);
        assert(u == 2 * k);
        assert(w == 2 * l);
        assert(k != l);
    }
}

/// The sweep over the boxes reports no pair twice.
///
/// Among boxes with ids of their own, the sweep over the sorted endpoints
/// reports every pair once, with the smaller id first and two different
/// ids in it.
pub proof fn lemma_sweep_reports_boxes_once(aabbs: Seq<(usize, AABB)>)
    requires
        ids_are_distinct(aabbs),
    ensures
        sweep(sort_endpoints(endpoint_list(aabbs))).pairs.no_duplicates(),
        forall|k: int|
            0 <= k < sweep(sort_endpoints(endpoint_list(aabbs))).pairs.len() ==> (#[trigger] sweep(
                sort_endpoints(endpoint_list(aabbs)),
            ).pairs[k]).0 < sweep(sort_endpoints(endpoint_list(aabbs))).pairs[k].1,
{
    lemma_boxes_begin_once(aabbs);
    lemma_sweep_reports_each_pair_once(sort_endpoints(endpoint_list(aabbs)));
}

} // verus!
