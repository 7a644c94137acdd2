//! The store's guarantees that relate several operations, stated and proved
//! over the mathematical model.
//!
//! The exec methods in [`crate::cache`] pin their outcome to spec functions
//! (`selected_index`, `CacheModel::removed`, ...); the laws here say what
//! those outcomes satisfy: which entry a lookup favours, that removal clears
//! the fast path, and that inserting and removing an entry round-trips.

use vstd::prelude::*;

use crate::cache::CacheModel;
use crate::cache::ItemModel;
use crate::cache::best_upto;
use crate::cache::fast_hit;
use crate::cache::first_hit_from;
use crate::cache::first_index_with_id;
use crate::cache::item_dist;
use crate::cache::lemma_first_hit_prefix;
use crate::cache::lemma_first_index_bounds;
use crate::cache::scan_hit;

verus! {

/// Exact-match precedence: when the entry at `k` matches the requested time
/// exactly and no earlier index stops the scan, the lookup selects that
/// entry whatever the threshold — even threshold zero, and even when an
/// entry whose fast-path condition holds stands at a later index.
pub proof fn lemma_exact_match_precedence(m: CacheModel, time: int, threshold: int, k: int)
    requires
        0 <= k < m.items.len(),
        m.items[k].resolved_pts == time,
        forall|j: int| 0 <= j < k ==> !scan_hit(m.items, m.last_frame, time, j),
    ensures
        m.selected(time, threshold) == Some(k),
{
    assert(scan_hit(m.items, m.last_frame, time, k));
    lemma_first_hit_prefix(m.items, m.last_frame, time, k);
    assert(first_hit_from(m.items, m.last_frame, time, k) == Some(k));
}

/// Sequential fast path: when the entry at `k` holds the current-frame role,
/// its presentation timestamp lies strictly before the requested time, and
/// no earlier index stops the scan, the lookup selects that entry whatever
/// the threshold — no entry within the threshold is needed.
pub proof fn lemma_sequential_fast_path(m: CacheModel, time: int, threshold: int, k: int)
    requires
        0 <= k < m.items.len(),
        m.last_frame == Some(m.items[k].id),
        m.items[k].resolved_pts < time,
        forall|j: int| 0 <= j < k ==> !scan_hit(m.items, m.last_frame, time, j),
    ensures
        m.selected(time, threshold) == Some(k),
{
    assert(fast_hit(m.items, m.last_frame, time, k));
    lemma_first_hit_prefix(m.items, m.last_frame, time, k);
    assert(first_hit_from(m.items, m.last_frame, time, k) == Some(k));
}

/// What the approximate scan's winner satisfies: among the first `n`
/// entries it minimizes the distance to the requested time, and every entry
/// after it lies strictly farther — so among equal distances the
/// latest-inserted entry wins.
pub proof fn lemma_best_upto_characterization(items: Seq<ItemModel>, time: int, n: int)
    requires
        0 < n <= items.len(),
    ensures
        ({
            let b = best_upto(items, time, n);
            &&& b is Some
            &&& 0 <= b->0 < n
            &&& forall|k: int| 0 <= k < n ==> #[trigger] item_dist(items[k], time)
                >= item_dist(items[b->0], time)
            &&& forall|k: int| b->0 < k < n ==> #[trigger] item_dist(items[k], time)
                > item_dist(items[b->0], time)
        }),
    decreases n,
{
    if n == 1 {
        assert(best_upto(items, time, 0) is None);
    } else {
        lemma_best_upto_characterization(items, time, n - 1);
    }
}

/// Threshold boundary: when no index stops the scan, the lookup succeeds
/// exactly when the best distance is at most the threshold — a distance
/// equal to the threshold still succeeds, one past it is a miss — and then
/// it selects the best candidate.
pub proof fn lemma_threshold_boundary(m: CacheModel, time: int, threshold: int)
    requires
        m.items.len() > 0,
        forall|j: int| 0 <= j < m.items.len() ==> !scan_hit(m.items, m.last_frame, time, j),
    ensures
        ({
            let b = best_upto(m.items, time, m.items.len() as int);
            &&& b is Some
            &&& (m.selected(time, threshold) is Some <==> item_dist(m.items[b->0], time)
                <= threshold)
            &&& (item_dist(m.items[b->0], time) <= threshold ==> m.selected(time, threshold) == b)
        }),
{
    lemma_first_hit_prefix(m.items, m.last_frame, time, m.items.len() as int);
    lemma_best_upto_characterization(m.items, time, m.items.len() as int);
}

/// Tie-break: when no index stops the scan and the entries at `i` and `j`
/// lie equally near the requested time, both as near as any entry and
/// within the threshold, the lookup selects an entry no earlier than `j` at
/// that same distance — never the earlier-inserted `i`.
pub proof fn lemma_tie_break(m: CacheModel, time: int, threshold: int, i: int, j: int)
    requires
        forall|k: int| 0 <= k < m.items.len() ==> !scan_hit(m.items, m.last_frame, time, k),
        0 <= i < j < m.items.len(),
        item_dist(m.items[i], time) == item_dist(m.items[j], time),
        item_dist(m.items[j], time) <= threshold,
        forall|k: int| 0 <= k < m.items.len() ==> item_dist(m.items[k], time) >= item_dist(
            m.items[j],
            time,
        ),
    ensures
        ({
            let s = m.selected(time, threshold);
            &&& s is Some
            &&& s != Some(i)
            &&& j <= s->0
            &&& item_dist(m.items[s->0], time) == item_dist(m.items[j], time)
        }),
{
    let n = m.items.len() as int;
    lemma_first_hit_prefix(m.items, m.last_frame, time, n);
    lemma_best_upto_characterization(m.items, time, n);
    let b = best_upto(m.items, time, n)->0;
    assert(item_dist(m.items[b], time) >= item_dist(m.items[j], time));
    assert(item_dist(m.items[b], time) <= item_dist(m.items[j], time));
    if b < j {
        assert(item_dist(m.items[j], time) > item_dist(m.items[b], time));
        assert(false);
    }
}

/// Removal clears the fast path: removing the entry that holds the
/// current-frame role clears the role in the same step, and with the role
/// cleared no later lookup can take the fast path until it is set again.
pub proof fn lemma_removal_clears_fast_path(m: CacheModel, id: int)
    requires
        m.wf(),
        m.last_frame == Some(id),
    ensures
        m.removed(id).last_frame is None,
        forall|time: int, i: int| 0 <= i < m.removed(id).items.len() ==> !fast_hit(
            m.removed(id).items,
            m.removed(id).last_frame,
            time,
            i,
        ),
{
    lemma_first_index_bounds(m.items, id, 0);
    if first_index_with_id(m.items, id, 0) is None {
        let w = choose|k: int| 0 <= k < m.items.len() && #[trigger] m.items[k].id == id;
        assert(false);
    }
}

/// After a fetch by id the entry's request anchor sits at zero, so its
/// distance to any later requested time is that time's own magnitude — the
/// entry no longer scores as near to the time it was first asked for.
pub proof fn lemma_fetch_moves_anchor(m: CacheModel, i: int, time: int)
    requires
        0 <= i < m.items.len(),
    ensures
        item_dist(m.with_item_fetched(i).items[i], time) == (if time >= 0 {
            time
        } else {
            -time
        }),
{
}

/// Hydration never disturbs the bookkeeping: forcing an entry's data, with
/// or without the anchor reset of a fetch, keeps ids unique and the
/// fast-path pointer valid.
pub proof fn lemma_hydration_keeps_wf(m: CacheModel, i: int)
    requires
        m.wf(),
        0 <= i < m.items.len(),
    ensures
        m.with_item_hydrated(i).wf(),
        m.with_item_fetched(i).wf(),
{
    let m2 = m.with_item_hydrated(i);
    let m3 = m.with_item_fetched(i);
    assert(forall|k: int| 0 <= k < m.items.len() ==> m2.items[k].id == #[trigger] m.items[k].id
        && m3.items[k].id == m.items[k].id);
    if m.last_frame is Some {
        let w = choose|k: int|
            0 <= k < m.items.len() && #[trigger] m.items[k].id == m.last_frame->0;
        assert(m2.items[w].id == m2.last_frame->0);
        assert(m3.items[w].id == m3.last_frame->0);
    }
}

/// Removal keeps the store well formed: ids stay unique, and the fast-path
/// pointer still names a present id (or was cleared in the same step).
pub proof fn lemma_removed_keeps_wf(m: CacheModel, id: int)
    requires
        m.wf(),
    ensures
        m.removed(id).wf(),
{
    lemma_first_index_bounds(m.items, id, 0);
    match first_index_with_id(m.items, id, 0) {
        None => {}
        Some(i) => {
            let m2 = m.removed(id);
            m.items.remove_ensures(i);
            assert forall|p: int, q: int|
                0 <= p < q < m2.items.len() implies m2.items[p].id != m2.items[q].id by {
                let p0: int = if p < i {
                    p
                } else {
                    p + 1
                };
                let q0: int = if q < i {
                    q
                } else {
                    q + 1
                };
                assert(m2.items[p] == m.items[p0]);
                assert(m2.items[q] == m.items[q0]);
            }
            if m2.last_frame is Some {
                let lfid = m2.last_frame->0;
                let w = choose|k: int| 0 <= k < m.items.len() && #[trigger] m.items[k].id == lfid;
                let w2: int = if w < i {
                    w
                } else {
                    w - 1
                };
                assert(m2.items[w2].id == lfid);
            }
        }
    }
}

/// Round trip: appending an entry with a fresh id and then removing that id
/// restores the store exactly — in particular, on an empty store the pair
/// of operations leaves it empty again.
pub proof fn lemma_insert_remove_round_trip(m: CacheModel, it: ItemModel)
    requires
        m.wf(),
        forall|i: int| 0 <= i < m.items.len() ==> m.items[i].id != it.id,
    ensures
        ({
            let grown = (CacheModel { items: m.items.push(it), last_frame: m.last_frame });
            grown.removed(it.id) == m
        }),
{
    let grown = (CacheModel { items: m.items.push(it), last_frame: m.last_frame });
    let n = m.items.len() as int;
    lemma_first_index_bounds(grown.items, it.id, 0);
    assert(grown.items[n] == it);
    match first_index_with_id(grown.items, it.id, 0) {
        None => {
            assert(grown.items[n].id != it.id);
            assert(false);
        }
        Some(k) => {
            assert forall|j: int| 0 <= j < n implies grown.items[j].id != it.id by {
                assert(grown.items[j] == m.items[j]);
            }
            assert(k == n);
            if m.last_frame is Some {
                let w = choose|p: int|
                    0 <= p < m.items.len() && #[trigger] m.items[p].id == m.last_frame->0;
                assert(m.items[w].id != it.id);
            }
            assert(grown.last_frame != Some(it.id));
            assert(grown.items.remove(n) =~= m.items);
            assert(grown.removed(it.id) =~= m);
        }
    }
}

} // verus!
