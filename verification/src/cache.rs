//! The frame store: a flat, insertion-ordered collection of cached frame
//! entries plus a fast-path pointer to the entry considered current for
//! sequential playback.
//!
//! Lookup reconciles three concerns over the one flat sequence: exact reuse
//! of a frame whose presentation timestamp equals the requested time,
//! approximate reuse bounded by a caller-supplied threshold, and a fast path
//! for monotone playback that must be invalidated when its entry is removed.

use vstd::prelude::*;

use crate::frame::{CacheError, Frame, FrameModel};

verus! {

/// One cached frame entry.
pub struct FrameCacheItem {
    /// The frame's true decoded presentation timestamp.
    pub resolved_pts: i64,
    /// The frame's decode timestamp; caller bookkeeping only.
    pub resolved_dts: i64,
    /// The timestamp originally requested when this entry was produced;
    /// the anchor for approximate-distance scoring.
    pub asked_time: i64,
    /// The frame payload, owned by the entry.
    pub frame: Frame,
    /// Process-unique identifier, the entry's sole external handle.
    pub id: usize,
    /// Insertion instant, in the caller's clock units; reported in
    /// snapshots, never used for matching.
    pub created_at: i64,
}

/// The mathematical model of one entry.
#[verifier::ext_equal]
pub ghost struct ItemModel {
    pub resolved_pts: int,
    pub resolved_dts: int,
    pub asked_time: int,
    pub frame: FrameModel,
    pub id: int,
    pub created_at: int,
}

impl View for FrameCacheItem {
    type V = ItemModel;

    open spec fn view(&self) -> ItemModel {
        ItemModel {
            resolved_pts: self.resolved_pts as int,
            resolved_dts: self.resolved_dts as int,
            asked_time: self.asked_time as int,
            frame: self.frame@,
            id: self.id as int,
            created_at: self.created_at as int,
        }
    }
}

/// The store of cached frame entries.
pub struct FrameCache {
    /// Entries in insertion order; the order is the tie-break rule of the
    /// approximate lookup.
    pub items: Vec<FrameCacheItem>,
    /// The id of the entry considered current for sequential playback.
    pub last_frame: Option<usize>,
}

/// The mathematical model of the store.
#[verifier::ext_equal]
pub ghost struct CacheModel {
    pub items: Seq<ItemModel>,
    pub last_frame: Option<int>,
}

impl View for FrameCache {
    type V = CacheModel;

    open spec fn view(&self) -> CacheModel {
        CacheModel {
            items: self.items@.map_values(|it: FrameCacheItem| it@),
            last_frame: match self.last_frame {
                Some(id) => Some(id as int),
                None => None,
            },
        }
    }
}

/// A point-in-time projection of one entry, produced for external eviction
/// decisions; never stored back.
#[derive(Clone)]
pub struct FrameCacheReference {
    /// The projected entry's id.
    pub id: usize,
    /// The entry's age at projection time, in the caller's clock units.
    pub created_at: i64,
    /// The source path of the video the cache belongs to; caller metadata.
    pub src: String,
    /// Whether that source carries transparency; caller metadata.
    pub transparent: bool,
}

/// The mathematical model of a reference.
#[verifier::ext_equal]
pub ghost struct RefModel {
    pub id: int,
    pub created_at: int,
    pub src: Seq<char>,
    pub transparent: bool,
}

impl View for FrameCacheReference {
    type V = RefModel;

    open spec fn view(&self) -> RefModel {
        RefModel {
            id: self.id as int,
            created_at: self.created_at as int,
            src: self.src@,
            transparent: self.transparent,
        }
    }
}

/// An entry's age at instant `now`, clamped to the reportable range.
pub open spec fn age_millis(now: int, created_at: int) -> int {
    let d = now - created_at;
    if d > i64::MAX as int {
        i64::MAX as int
    } else if d < i64::MIN as int {
        i64::MIN as int
    } else {
        d
    }
}

/// The distance between an entry's request anchor and a requested time.
pub open spec fn item_dist(it: ItemModel, time: int) -> int {
    if it.asked_time >= time {
        it.asked_time - time
    } else {
        time - it.asked_time
    }
}

/// Whether the scan takes the sequential fast path at index `i`: the entry
/// holds the current-frame role and its presentation timestamp lies strictly
/// before the requested time.
pub open spec fn fast_hit(items: Seq<ItemModel>, last_frame: Option<int>, time: int, i: int) -> bool {
    &&& last_frame is Some
    &&& items[i].id == last_frame->0
    &&& items[i].resolved_pts < time
}

/// Whether the entry at index `i` matches the requested time exactly.
pub open spec fn exact_hit(items: Seq<ItemModel>, time: int, i: int) -> bool {
    items[i].resolved_pts == time
}

/// Whether the scan stops at index `i` and returns that entry at once.
pub open spec fn scan_hit(items: Seq<ItemModel>, last_frame: Option<int>, time: int, i: int) -> bool {
    fast_hit(items, last_frame, time, i) || exact_hit(items, time, i)
}

/// The first index at or after `i` where the scan stops, if any.
pub open spec fn first_hit_from(
    items: Seq<ItemModel>,
    last_frame: Option<int>,
    time: int,
    i: int,
) -> Option<int>
    decreases items.len() - i,
{
    if i < 0 || i >= items.len() {
        None
    } else if scan_hit(items, last_frame, time, i) {
        Some(i)
    } else {
        first_hit_from(items, last_frame, time, i + 1)
    }
}

/// The index the approximate scan favours among the first `n` entries: the
/// one with the least distance, and among equal distances the latest.
pub open spec fn best_upto(items: Seq<ItemModel>, time: int, n: int) -> Option<int>
    decreases n,
{
    if n <= 0 {
        None
    } else {
        match best_upto(items, time, n - 1) {
            None => Some(n - 1),
            Some(b) => if item_dist(items[n - 1], time) <= item_dist(items[b], time) {
                Some(n - 1)
            } else {
                Some(b)
            },
        }
    }
}

/// The index of the entry a lookup returns, if any: the first fast-path or
/// exact hit, else the best approximate candidate when its distance is
/// within the threshold (inclusive).
pub open spec fn selected_index(
    items: Seq<ItemModel>,
    last_frame: Option<int>,
    time: int,
    threshold: int,
) -> Option<int> {
    match first_hit_from(items, last_frame, time, 0) {
        Some(i) => Some(i),
        None => match best_upto(items, time, items.len() as int) {
            Some(b) => if item_dist(items[b], time) <= threshold {
                Some(b)
            } else {
                None
            },
            None => None,
        },
    }
}

/// The first index at or after `i` whose entry carries `id`, if any.
pub open spec fn first_index_with_id(items: Seq<ItemModel>, id: int, i: int) -> Option<int>
    decreases items.len() - i,
{
    if i < 0 || i >= items.len() {
        None
    } else if items[i].id == id {
        Some(i)
    } else {
        first_index_with_id(items, id, i + 1)
    }
}

/// A scan that finds no hit before `i` stops at the same index whether it
/// starts at the front or at `i`.
pub proof fn lemma_first_hit_prefix(
    items: Seq<ItemModel>,
    last_frame: Option<int>,
    time: int,
    i: int,
)
    requires
        0 <= i <= items.len(),
        forall|j: int| 0 <= j < i ==> !scan_hit(items, last_frame, time, j),
    ensures
        first_hit_from(items, last_frame, time, 0) == first_hit_from(items, last_frame, time, i),
    decreases i,
{
    if i > 0 {
        lemma_first_hit_prefix(items, last_frame, time, i - 1);
        assert(!scan_hit(items, last_frame, time, i - 1));
    }
}

/// What the id search's result satisfies: starting at `i`, the result is the
/// least index at or after `i` whose entry carries the id.
pub proof fn lemma_first_index_bounds(items: Seq<ItemModel>, id: int, i: int)
    requires
        0 <= i <= items.len(),
    ensures
        match first_index_with_id(items, id, i) {
            Some(k) => i <= k < items.len() && items[k].id == id
                && (forall|j: int| i <= j < k ==> items[j].id != id),
            None => forall|j: int| i <= j < items.len() ==> items[j].id != id,
        },
    decreases items.len() - i,
{
    if i < items.len() && items[i].id != id {
        lemma_first_index_bounds(items, id, i + 1);
    }
}

/// An id search that finds no match before `i` stops at the same index
/// whether it starts at the front or at `i`.
pub proof fn lemma_first_index_prefix(items: Seq<ItemModel>, id: int, i: int)
    requires
        0 <= i <= items.len(),
        forall|j: int| 0 <= j < i ==> items[j].id != id,
    ensures
        first_index_with_id(items, id, 0) == first_index_with_id(items, id, i),
    decreases i,
{
    if i > 0 {
        lemma_first_index_prefix(items, id, i - 1);
        assert(items[i - 1].id != id);
    }
}

impl CacheModel {
    /// Well-formedness: each id occurs at most once, and the fast-path
    /// pointer, when set, names an id that is present.
    pub open spec fn wf(self) -> bool {
        &&& (forall|i: int, j: int|
            0 <= i < j < self.items.len() ==> self.items[i].id != self.items[j].id)
        &&& (self.last_frame is Some ==> exists|i: int|
            0 <= i < self.items.len() && #[trigger] self.items[i].id == self.last_frame->0)
    }

    /// Whether some entry carries `id`.
    pub open spec fn has_id(self, id: int) -> bool {
        exists|i: int| 0 <= i < self.items.len() && #[trigger] self.items[i].id == id
    }

    /// The index a lookup on this store selects, if any.
    pub open spec fn selected(self, time: int, threshold: int) -> Option<int> {
        selected_index(self.items, self.last_frame, time, threshold)
    }

    /// The store after removal by `id`: the first entry carrying the id is
    /// taken out, and the fast-path pointer is cleared in the same step when
    /// it named that id.
    pub open spec fn removed(self, id: int) -> CacheModel {
        match first_index_with_id(self.items, id, 0) {
            None => self,
            Some(i) => CacheModel {
                items: self.items.remove(i),
                last_frame: if self.last_frame == Some(id) {
                    None
                } else {
                    self.last_frame
                },
            },
        }
    }

    /// The store after the entry at `i` was hydrated by a lookup.
    pub open spec fn with_item_hydrated(self, i: int) -> CacheModel {
        CacheModel {
            items: self.items.update(i, (ItemModel {
                frame: self.items[i].frame.hydrated(),
                ..self.items[i]
            })),
            last_frame: self.last_frame,
        }
    }

    /// The store after the entry at `i` was fetched by id: hydrated, with
    /// its request anchor reset to zero.
    pub open spec fn with_item_fetched(self, i: int) -> CacheModel {
        CacheModel {
            items: self.items.update(i, (ItemModel {
                frame: self.items[i].frame.hydrated(),
                asked_time: 0,
                ..self.items[i]
            })),
            last_frame: self.last_frame,
        }
    }
}

impl FrameCache {
    /// Well-formedness of the store; see [`CacheModel::wf`].
    pub open spec fn wf(self) -> bool {
        self@.wf()
    }

    /// An empty store with no current frame.
    pub fn new() -> (r: FrameCache)
        ensures
            r@.items.len() == 0,
            r@.last_frame is None,
            r.wf(),
    {
        FrameCache { items: Vec::new(), last_frame: None }
    }

    /// Append an entry at the end of the sequence.  No deduplication is
    /// attempted and the fast-path pointer is untouched; keeping ids unique
    /// is the caller's concern.
    pub fn add_item(&mut self, item: FrameCacheItem)
        ensures
            final(self)@.items == old(self)@.items.push(item@),
            final(self)@.last_frame == old(self)@.last_frame,
            old(self).wf() && !old(self)@.has_id(item@.id) ==> final(self).wf(),
    {
        proof {
            assert(self@.items.push(item@) =~= self.items@.push(item).map_values(
                |it: FrameCacheItem| it@,
            ));
        }
        self.items.push(item);
        proof {
            let m0 = old(self)@;
            let m1 = self@;
            if m0.wf() && !m0.has_id(item@.id) {
                assert forall|i: int, j: int|
                    0 <= i < j < m1.items.len() implies m1.items[i].id != m1.items[j].id by {
                    if j < m1.items.len() - 1 {
                        assert(m1.items[i] == m0.items[i] && m1.items[j] == m0.items[j]);
                    } else {
                        assert(m1.items[i] == m0.items[i]);
                        assert(!(m0.items[i].id == item@.id));
                    }
                }
                if m1.last_frame is Some {
                    let w = choose|i: int|
                        0 <= i < m0.items.len() && #[trigger] m0.items[i].id == m0.last_frame->0;
                    assert(m1.items[w].id == m1.last_frame->0);
                }
            }
        }
    }

    /// Mark the entry with `id` as the current frame for sequential
    /// playback.  Presence of the id is the caller's concern.
    pub fn set_last_frame(&mut self, id: usize)
        ensures
            final(self)@.items == old(self)@.items,
            final(self)@.last_frame == Some(id as int),
            old(self).wf() && old(self)@.has_id(id as int) ==> final(self).wf(),
    {
        self.last_frame = Some(id);
        proof {
            let m0 = old(self)@;
            let m1 = self@;
            if m0.wf() && m0.has_id(id as int) {
                let w = choose|i: int|
                    0 <= i < m0.items.len() && #[trigger] m0.items[i].id == id as int;
                assert(m1.items[w].id == m1.last_frame->0);
            }
        }
    }

    /// Whether the store holds no entries.
    pub fn is_empty(&self) -> (r: bool)
        ensures
            r == (self@.items.len() == 0),
    {
        self.items.is_empty()
    }

    /// Force hydration of the entry at index `i`, leaving every other entry
    /// untouched; on failure the store is exactly as before.
    fn hydrate_entry(&mut self, i: usize) -> (r: Result<(), CacheError>)
        requires
            i < old(self)@.items.len(),
        ensures
            old(self)@.items[i as int].frame.hydratable ==> r == Ok::<(), CacheError>(())
                && final(self)@ == old(self)@.with_item_hydrated(i as int),
            !old(self)@.items[i as int].frame.hydratable ==> r == Err::<(), CacheError>(
                CacheError::HydrationFailure,
            ) && final(self)@ == old(self)@,
    {
        let ghost m = self@;
        let mut item = self.items.remove(i);
        let r = item.frame.ensure_data();
        self.items.insert(i, item);
        proof {
            if m.items[i as int].frame.hydratable {
                assert(self@.items =~= m.with_item_hydrated(i as int).items);
                assert(self@ =~= m.with_item_hydrated(i as int));
            } else {
                assert(self@.items =~= m.items);
                assert(self@ =~= m);
            }
        }
        r
    }

    /// Look up an entry for `time`, reusing a held frame when one is close
    /// enough.
    ///
    /// The scan walks the entries in insertion order and stops at the first
    /// index where either the sequential fast path applies (the entry holds
    /// the current-frame role and its presentation timestamp lies strictly
    /// before `time`) or the presentation timestamp equals `time` exactly.
    /// When no index stops the scan, the entry whose request anchor lies
    /// nearest to `time` wins — among ties the latest-inserted one — but
    /// only when its distance is within `threshold` (inclusive); otherwise
    /// the lookup reports a miss.  The returned entry is hydrated; a
    /// hydration failure propagates and leaves the store exactly as before.
    pub fn get_item_id(&mut self, time: i64, threshold: i64) -> (r: Result<
        Option<usize>,
        CacheError,
    >)
        ensures
            match old(self)@.selected(time as int, threshold as int) {
                None => r == Ok::<Option<usize>, CacheError>(None) && final(self)@ == old(self)@,
                Some(i) => if old(self)@.items[i].frame.hydratable {
                    &&& (r matches Ok(Some(rid)) && rid as int == old(self)@.items[i].id)
                    &&& final(self)@ == old(self)@.with_item_hydrated(i)
                } else {
                    &&& r == Err::<Option<usize>, CacheError>(CacheError::HydrationFailure)
                    &&& final(self)@ == old(self)@
                },
            },
    {
        let ghost m = self@;
        let n = self.items.len();
        let mut best: Option<usize> = None;
        let mut best_distance: i128 = 0;
        let mut i: usize = 0;
        while i < n
            invariant
                old(self)@ == m,
                self@ == m,
                n == self.items.len(),
                i <= n,
                m.items.len() == n as int,
                forall|j: int| 0 <= j < i ==> !scan_hit(m.items, m.last_frame, time as int, j),
                match best {
                    None => i == 0,
                    Some(b) => best_upto(m.items, time as int, i as int) == Some(b as int) && b < i
                        && best_distance == item_dist(m.items[b as int], time as int),
                },
            decreases n - i,
        {
            let is_fast = match self.last_frame {
                Some(last_id) => self.items[i].id == last_id && self.items[i].resolved_pts < time,
                None => false,
            };
            let is_exact = self.items[i].resolved_pts == time;
            if is_fast || is_exact {
                proof {
                    assert(scan_hit(m.items, m.last_frame, time as int, i as int));
                    lemma_first_hit_prefix(m.items, m.last_frame, time as int, i as int);
                    assert(m.selected(time as int, threshold as int) == Some(i as int));
                }
                let rid = self.items[i].id;
                return match self.hydrate_entry(i) {
                    Ok(()) => Ok(Some(rid)),
                    Err(e) => Err(e),
                };
            }
            let asked = self.items[i].asked_time;
            let diff: i128 = asked as i128 - time as i128;
            let d: i128 = if diff < 0 {
                -diff
            } else {
                diff
            };
            proof {
                assert(d as int == item_dist(m.items[i as int], time as int));
            }
            let take = match best {
                None => true,
                Some(_) => d <= best_distance,
            };
            if take {
                best = Some(i);
                best_distance = d;
            }
            i = i + 1;
        }
        proof {
            lemma_first_hit_prefix(m.items, m.last_frame, time as int, n as int);
            assert(first_hit_from(m.items, m.last_frame, time as int, 0) is None);
        }
        match best {
            None => Ok(None),
            Some(b) => {
                if best_distance > threshold as i128 {
                    Ok(None)
                } else {
                    let rid = self.items[b].id;
                    match self.hydrate_entry(b) {
                        Ok(()) => Ok(Some(rid)),
                        Err(e) => Err(e),
                    }
                }
            }
        }
    }

    /// Fetch the materialized data of the entry carrying `id`, hydrating it
    /// first and resetting its request anchor to zero; absence of the id is
    /// not an error.  On hydration failure nothing is reset.
    pub fn get_item_from_id(&mut self, id: usize) -> (r: Result<Option<Vec<u8>>, CacheError>)
        ensures
            match first_index_with_id(old(self)@.items, id as int, 0) {
                None => r == Ok::<Option<Vec<u8>>, CacheError>(None) && final(self)@ == old(
                    self,
                )@,
                Some(i) => if old(self)@.items[i].frame.hydratable {
                    &&& (r matches Ok(Some(data)) && data@ == old(self)@.items[i].frame.bytes)
                    &&& final(self)@ == old(self)@.with_item_fetched(i)
                } else {
                    &&& r == Err::<Option<Vec<u8>>, CacheError>(CacheError::HydrationFailure)
                    &&& final(self)@ == old(self)@
                },
            },
    {
        let ghost m = self@;
        let n = self.items.len();
        let mut i: usize = 0;
        while i < n
            invariant
                old(self)@ == m,
                self@ == m,
                n == self.items.len(),
                i <= n,
                m.items.len() == n as int,
                forall|j: int| 0 <= j < i ==> m.items[j].id != id as int,
            decreases n - i,
        {
            if self.items[i].id == id {
                proof {
                    lemma_first_index_prefix(m.items, id as int, i as int);
                    assert(first_index_with_id(m.items, id as int, 0) == Some(i as int));
                }
                let mut item = self.items.remove(i);
                match item.frame.ensure_data() {
                    Err(e) => {
                        self.items.insert(i, item);
                        proof {
                            assert(self@.items =~= m.items);
                            assert(self@ =~= m);
                        }
                        return Err(e);
                    }
                    Ok(()) => {
                        item.asked_time = 0;
                        let data_res = item.frame.get_data();
                        self.items.insert(i, item);
                        proof {
                            assert(self@.items =~= m.with_item_fetched(i as int).items);
                            assert(self@ =~= m.with_item_fetched(i as int));
                        }
                        return match data_res {
                            Ok(data) => Ok(Some(data)),
                            Err(e) => Err(e),
                        };
                    }
                }
            }
            i = i + 1;
        }
        proof {
            lemma_first_index_prefix(m.items, id as int, n as int);
        }
        Ok(None)
    }

    /// Remove the first entry carrying `id`; when that entry holds the
    /// current-frame role, the role is cleared in the same step.  Absence of
    /// the id is not an error.
    pub fn remove_item_by_id(&mut self, id: usize) -> (r: Result<(), CacheError>)
        ensures
            r == Ok::<(), CacheError>(()),
            final(self)@ == old(self)@.removed(id as int),
            old(self).wf() ==> final(self).wf(),
    {
        let ghost m = self@;
        let n = self.items.len();
        let mut i: usize = 0;
        while i < n
            invariant
                old(self)@ == m,
                self@ == m,
                n == self.items.len(),
                i <= n,
                m.items.len() == n as int,
                forall|j: int| 0 <= j < i ==> m.items[j].id != id as int,
            decreases n - i,
        {
            if self.items[i].id == id {
                proof {
                    lemma_first_index_prefix(m.items, id as int, i as int);
                    assert(first_index_with_id(m.items, id as int, 0) == Some(i as int));
                }
                let clear = match self.last_frame {
                    Some(lf) => lf == id,
                    None => false,
                };
                if clear {
                    self.last_frame = None;
                }
                self.items.remove(i);
                proof {
                    assert(self@.items =~= m.removed(id as int).items);
                    assert(self@ =~= m.removed(id as int));
                    if m.wf() {
                        crate::laws::lemma_removed_keeps_wf(m, id as int);
                    }
                }
                return Ok(());
            }
            i = i + 1;
        }
        proof {
            lemma_first_index_prefix(m.items, id as int, n as int);
            assert(m.removed(id as int) == m);
        }
        Ok(())
    }

    /// Remove the entry a reference points at; the reference carries no
    /// other removal semantics.
    pub fn remove_from_frame_reference(&mut self, frame_cache_reference: FrameCacheReference) -> (r:
        Result<(), CacheError>)
        ensures
            r == Ok::<(), CacheError>(()),
            final(self)@ == old(self)@.removed(frame_cache_reference@.id),
            old(self).wf() ==> final(self).wf(),
    {
        self.remove_item_by_id(frame_cache_reference.id)
    }

    /// Project every entry into a reference stamped with the shared source
    /// metadata and the entry's age at instant `now`.  Pure read.
    pub fn get_references(&self, src: String, transparent: bool, now: i64) -> (r: Result<
        Vec<FrameCacheReference>,
        CacheError,
    >)
        ensures
            r is Ok,
            r->Ok_0@.len() == self@.items.len(),
            forall|j: int| 0 <= j < self@.items.len() ==> #[trigger] r->Ok_0@[j]@ == (RefModel {
                id: self@.items[j].id,
                created_at: age_millis(now as int, self@.items[j].created_at),
                src: src@,
                transparent,
            }),
    {
        let mut references: Vec<FrameCacheReference> = Vec::new();
        let n = self.items.len();
        let mut i: usize = 0;
        while i < n
            invariant
                n == self.items.len(),
                i <= n,
                self@.items.len() == n as int,
                references@.len() == i as int,
                forall|j: int| 0 <= j < i ==> #[trigger] references@[j]@ == (RefModel {
                    id: self@.items[j].id,
                    created_at: age_millis(now as int, self@.items[j].created_at),
                    src: src@,
                    transparent,
                }),
            decreases n - i,
        {
            let diff: i128 = now as i128 - self.items[i].created_at as i128;
            let age: i64 = if diff > i64::MAX as i128 {
                i64::MAX
            } else if diff < i64::MIN as i128 {
                i64::MIN
            } else {
                diff as i64
            };
            references.push(FrameCacheReference {
                id: self.items[i].id,
                created_at: age,
                src: src.clone(),
                transparent,
            });
            i = i + 1;
        }
        Ok(references)
    }
}

} // verus!
