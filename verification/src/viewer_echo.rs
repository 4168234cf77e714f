//! Runtime-authored viewer reply echo for raw-tile portals.
//!
//! The windowed runtime queues a [`ViewerEchoAppend`] at submit time; the
//! compositor drains the queue into a per-tile bounded store whose entries are
//! rendered as kind-distinct lines just above the composer input strip.

use std::collections::{HashMap, VecDeque};
use vstd::prelude::*;
use vstd::std_specs::hash::group_hash_axioms;
use vstd::std_specs::iter::IteratorSpec;

use crate::scene_id::SceneId;

verus! {

broadcast use group_hash_axioms;

/// Maximum retained viewer echo entries per portal tile.
pub const MAX_VIEWER_ECHO_ENTRIES: usize = 8;

/// A runtime-authored viewer reply, addressed to a specific portal tile.
#[derive(Debug, Clone, PartialEq)]
pub struct ViewerEchoAppend {
    /// The portal tile whose transcript window receives the entry.
    pub tile_id: SceneId,
    /// The submitted reply text.
    pub text: String,
    /// Wall-clock submit time in microseconds (`0` when none was captured).
    pub submitted_at_wall_us: u64,
}

/// One retained viewer echo entry within a tile's transcript window.
#[derive(Debug, Clone, PartialEq)]
pub struct ViewerEchoEntry {
    /// The viewer-authored reply text.
    pub text: String,
    /// Wall-clock submit time in microseconds.
    pub submitted_at_wall_us: u64,
}

/// Abstract value of an entry: its text and its submit time.
pub type EchoRecord = (Seq<char>, u64);

impl View for ViewerEchoEntry {
    type V = EchoRecord;

    open spec fn view(&self) -> EchoRecord {
        (self.text@, self.submitted_at_wall_us)
    }
}

impl View for ViewerEchoAppend {
    type V = (u128, EchoRecord);

    open spec fn view(&self) -> (u128, EchoRecord) {
        (self.tile_id.raw, (self.text@, self.submitted_at_wall_us))
    }
}

/// The last `MAX_VIEWER_ECHO_ENTRIES` records of `s` (all of `s` when shorter).
pub open spec fn bounded_window(s: Seq<EchoRecord>) -> Seq<EchoRecord> {
    if s.len() > MAX_VIEWER_ECHO_ENTRIES {
        s.subrange(s.len() - MAX_VIEWER_ECHO_ENTRIES, s.len() as int)
    } else {
        s
    }
}

/// The records held for `tile` (empty when the tile has none).
pub open spec fn records_of(m: Map<u128, Seq<EchoRecord>>, tile: u128) -> Seq<EchoRecord> {
    if m.contains_key(tile) {
        m[tile]
    } else {
        Seq::empty()
    }
}

/// The store after appending `r` to `tile`'s window.
pub open spec fn appended(m: Map<u128, Seq<EchoRecord>>, tile: u128, r: EchoRecord) -> Map<
    u128,
    Seq<EchoRecord>,
> {
    m.insert(tile, bounded_window(records_of(m, tile).push(r)))
}

/// The store after appending every queued entry of `q`, in queue order.
pub open spec fn appended_all(m: Map<u128, Seq<EchoRecord>>, q: Seq<(u128, EchoRecord)>) -> Map<
    u128,
    Seq<EchoRecord>,
>
    decreases q.len(),
{
    if q.len() == 0 {
        m
    } else {
        let last = q.last();
        appended(appended_all(m, q.drop_last()), last.0, last.1)
    }
}

/// Every tile window of a store model is non-empty and bounded.
pub open spec fn windows_bounded(m: Map<u128, Seq<EchoRecord>>) -> bool {
    forall|k: u128|
        #[trigger] m.contains_key(k) ==> 0 < m[k].len() <= MAX_VIEWER_ECHO_ENTRIES
}

/// Appending keeps every tile window non-empty and within
/// `MAX_VIEWER_ECHO_ENTRIES` entries.
pub proof fn law_append_keeps_windows_bounded(
    m: Map<u128, Seq<EchoRecord>>,
    tile: u128,
    r: EchoRecord,
)
    requires
        windows_bounded(m),
    ensures
        windows_bounded(appended(m, tile, r)),
{
    let a = appended(m, tile, r);
    assert forall|k: u128| #[trigger] a.contains_key(k) implies 0 < a[k].len()
        <= MAX_VIEWER_ECHO_ENTRIES by {
        if k != tile {
            assert(m.contains_key(k));
        }
    }
}

/// Appending to a tile makes the new record its newest (last) entry, keeps
/// the earlier entries in order (oldest evicted first once the window is
/// full), and leaves every other tile untouched.
pub proof fn law_append_newest_last_oldest_evicted(
    m: Map<u128, Seq<EchoRecord>>,
    tile: u128,
    r: EchoRecord,
)
    requires
        windows_bounded(m),
    ensures
        appended(m, tile, r).contains_key(tile),
        appended(m, tile, r)[tile].last() == r,
        records_of(m, tile).len() < MAX_VIEWER_ECHO_ENTRIES ==> appended(m, tile, r)[tile]
            == records_of(m, tile).push(r),
        records_of(m, tile).len() == MAX_VIEWER_ECHO_ENTRIES ==> appended(m, tile, r)[tile]
            == records_of(m, tile).drop_first().push(r),
        forall|k: u128|
            k != tile ==> #[trigger] records_of(appended(m, tile, r), k) == records_of(m, k),
{
    let old_w = records_of(m, tile);
    if m.contains_key(tile) {
        assert(old_w.len() <= MAX_VIEWER_ECHO_ENTRIES);
    }
    if old_w.len() == MAX_VIEWER_ECHO_ENTRIES {
        assert(bounded_window(old_w.push(r)) =~= old_w.drop_first().push(r));
    }
}

/// Draining a queue into a bounded store keeps it bounded.
pub proof fn law_drain_keeps_windows_bounded(
    m: Map<u128, Seq<EchoRecord>>,
    q: Seq<(u128, EchoRecord)>,
)
    requires
        windows_bounded(m),
    ensures
        windows_bounded(appended_all(m, q)),
    decreases q.len(),
{
    if q.len() > 0 {
        law_drain_keeps_windows_bounded(m, q.drop_last());
        law_append_keeps_windows_bounded(appended_all(m, q.drop_last()), q.last().0, q.last().1);
    }
}

/// Per-tile bounded store of runtime-authored viewer echo entries.
///
/// Entries are retained oldest-first; appends beyond [`MAX_VIEWER_ECHO_ENTRIES`]
/// evict the oldest so the window stays bounded.
#[derive(Debug)]
pub struct ViewerEchoStore {
    by_tile: HashMap<u128, VecDeque<ViewerEchoEntry>>,
}

/// Abstract value of a tile queue.
pub open spec fn queue_records(q: VecDeque<ViewerEchoEntry>) -> Seq<EchoRecord> {
    q@.map_values(|e: ViewerEchoEntry| e@)
}

impl View for ViewerEchoStore {
    type V = Map<u128, Seq<EchoRecord>>;

    closed spec fn view(&self) -> Map<u128, Seq<EchoRecord>> {
        self.by_tile@.map_values(|q: VecDeque<ViewerEchoEntry>| queue_records(q))
    }
}

impl ViewerEchoStore {
    #[verifier::type_invariant]
    closed spec fn inv(self) -> bool {
        windows_bounded(self@)
    }

    /// Construct an empty store.
    pub fn new() -> (s: Self)
        ensures
            s@ == Map::<u128, Seq<EchoRecord>>::empty(),
            windows_bounded(s@),
    {
        let s = ViewerEchoStore { by_tile: HashMap::new() };
        assert(s@ =~= Map::<u128, Seq<EchoRecord>>::empty());
        s
    }

    /// Append a viewer entry for `tile_id`, evicting the oldest beyond the bound.
    pub fn append(&mut self, tile_id: SceneId, text: String, submitted_at_wall_us: u64)
        ensures
            final(self)@ == appended(old(self)@, tile_id.raw, (text@, submitted_at_wall_us)),
            windows_bounded(final(self)@),
    {
        proof {
            use_type_invariant(&*self);
            law_append_keeps_windows_bounded(self@, tile_id.raw, (text@, submitted_at_wall_us));
        }
        let ghost r: EchoRecord = (text@, submitted_at_wall_us);
        let ghost old_m = self@;
        let mut map: HashMap<u128, VecDeque<ViewerEchoEntry>> = HashMap::new();
        std::mem::swap(&mut map, &mut self.by_tile);
        let mut queue = match map.remove(&tile_id.raw) {
            Some(q) => q,
            None => VecDeque::new(),
        };
        proof {
            assert(queue_records(queue) =~= records_of(old_m, tile_id.raw));
        }
        let ghost full = queue_records(queue).push(r);
        queue.push_back(ViewerEchoEntry { text, submitted_at_wall_us });
        assert(queue_records(queue) =~= full);
        while queue.len() > MAX_VIEWER_ECHO_ENTRIES
            invariant
                full.len() <= MAX_VIEWER_ECHO_ENTRIES + 1,
                queue@.len() <= full.len(),
                queue@.len() == full.len() || queue@.len() >= MAX_VIEWER_ECHO_ENTRIES,
                forall|i: int|
                    0 <= i < queue@.len() ==> #[trigger] queue@[i]@ == full[full.len()
                        - queue@.len() + i],
            decreases queue@.len(),
        {
            let ghost before = queue@;
            let _ = queue.pop_front();
            assert forall|i: int| 0 <= i < queue@.len() implies #[trigger] queue@[i]@ == full[full.len()
                - queue@.len() + i] by {
                assert(queue@[i] == before[i + 1]);
            }
        }
        assert(queue_records(queue) =~= bounded_window(full));
        map.insert(tile_id.raw, queue);
        assert(map@.map_values(|q: VecDeque<ViewerEchoEntry>| queue_records(q)) =~= appended(
            old_m,
            tile_id.raw,
            r,
        ));
        self.by_tile = map;
    }

    /// Drain a pending append queue into this store (called once per frame).
    ///
    /// Every queued append is applied in queue order and the queue is left
    /// empty.
    pub fn drain_queue(&mut self, queue: &mut Vec<ViewerEchoAppend>)
        ensures
            final(self)@ == appended_all(
                old(self)@,
                old(queue)@.map_values(|a: ViewerEchoAppend| a@),
            ),
            final(queue)@ == Seq::<ViewerEchoAppend>::empty(),
            windows_bounded(final(self)@),
    {
        proof {
            use_type_invariant(&*self);
            law_drain_keeps_windows_bounded(
                self@,
                queue@.map_values(|a: ViewerEchoAppend| a@),
            );
        }
        let mut pending: Vec<ViewerEchoAppend> = Vec::new();
        std::mem::swap(&mut pending, queue);
        let ghost all = pending@.map_values(|a: ViewerEchoAppend| a@);
        let ghost start = self@;
        let total = pending.len();
        let ghost n = total as nat;
        let mut done: usize = 0;
        while pending.len() > 0
            invariant
                0 <= done <= n,
                n <= usize::MAX,
                all.len() == n,
                pending@.len() == n - done,
                forall|i: int|
                    0 <= i < pending@.len() ==> #[trigger] pending@[i]@ == all[done + i],
                self@ == appended_all(start, all.take(done as int)),
            decreases pending@.len(),
        {
            let ghost before = pending@;
            let a = pending.remove(0);
            assert(a@ == all[done as int]);
            assert forall|i: int| 0 <= i < pending@.len() implies #[trigger] pending@[i]@ == all[done
                + 1 + i] by {
                assert(pending@[i] == before[i + 1]);
            }
            self.append(a.tile_id, a.text, a.submitted_at_wall_us);
            assert(all.take(done + 1).drop_last() =~= all.take(done as int));
            done = done + 1;
        }
        assert(all.take(n as int) =~= all);
    }

    /// Drop entries for tiles for which `is_alive` returns `false`.
    ///
    /// `is_alive` is asked once per tile holding entries; a tile is kept
    /// exactly when it answered `true`, with its entries unchanged.
    pub fn retain_tiles<F: Fn(SceneId) -> bool>(&mut self, is_alive: F)
        requires
            forall|id: SceneId| #[trigger] is_alive.requires((id,)),
        ensures
            final(self)@.dom().subset_of(old(self)@.dom()),
            forall|k: u128| #[trigger]
                final(self)@.contains_key(k) ==> final(self)@[k] == old(self)@[k]
                    && is_alive.ensures((SceneId { raw: k },), true),
            forall|k: u128|
                #[trigger] old(self)@.contains_key(k) && !final(self)@.contains_key(k)
                    ==> is_alive.ensures((SceneId { raw: k },), false),
            windows_bounded(final(self)@),
    {
        proof {
            use_type_invariant(&*self);
        }
        let ghost old_m = self@;
        let mut map: HashMap<u128, VecDeque<ViewerEchoEntry>> = HashMap::new();
        std::mem::swap(&mut map, &mut self.by_tile);
        let ghost orig = map@;
        let mut keys: Vec<u128> = Vec::new();
        let ghost ks = vstd::std_specs::hash::spec_keys_iter(&map).remaining();
        for k in it: map.keys()
            invariant
                it.seq() == ks,
                keys@.len() == it.index(),
                forall|i: int| 0 <= i < keys@.len() ==> keys@[i] == *it.seq()[i],
        {
            keys.push(*k);
        }
        assert(keys@ =~= ks.unref());
        assert(keys@.to_set() =~= orig.dom());
        assert(keys@.no_duplicates());
        let mut idx: usize = 0;
        while idx < keys.len()
            invariant
                0 <= idx <= keys@.len(),
                keys@.to_set() == orig.dom(),
                keys@.no_duplicates(),
                map@.dom().subset_of(orig.dom()),
                forall|k: u128| #[trigger] map@.contains_key(k) ==> map@[k] == orig[k],
                forall|j: int|
                    idx <= j < keys@.len() ==> #[trigger] map@.contains_key(keys@[j]),
                forall|j: int|
                    0 <= j < idx && #[trigger] map@.contains_key(keys@[j])
                        ==> is_alive.ensures((SceneId { raw: keys@[j] },), true),
                forall|k: u128|
                    #[trigger] orig.contains_key(k) && !map@.contains_key(k)
                        ==> is_alive.ensures((SceneId { raw: k },), false),
                forall|id: SceneId| #[trigger] is_alive.requires((id,)),
            decreases keys@.len() - idx,
        {
            let k = keys[idx];
            let keep = is_alive(SceneId { raw: k });
            if !keep {
                let _ = map.remove(&k);
            }
            idx = idx + 1;
        }
        assert forall|k: u128| #[trigger] map@.contains_key(k) implies is_alive.ensures(
            (SceneId { raw: k },),
            true,
        ) by {
            assert(keys@.to_set().contains(k));
            let j = choose|j: int| 0 <= j < keys@.len() && keys@[j] == k;
            assert(map@.contains_key(keys@[j]));
        }
        let ghost new_view = map@.map_values(|q: VecDeque<ViewerEchoEntry>| queue_records(q));
        assert forall|k: u128| #[trigger] new_view.contains_key(k) implies 0 < new_view[k].len()
            <= MAX_VIEWER_ECHO_ENTRIES by {
            assert(old_m.contains_key(k));
        }
        self.by_tile = map;
        assert(self@.dom().subset_of(old_m.dom()));
        assert(windows_bounded(self@));
    }

    /// Retained entries for a tile (oldest first), or `None` when the tile has
    /// no viewer echoes.
    pub fn entries_for(&self, tile_id: SceneId) -> (r: Option<&VecDeque<ViewerEchoEntry>>)
        ensures
            match r {
                Some(q) => self@.contains_key(tile_id.raw) && queue_records(*q)
                    == self@[tile_id.raw] && q@.len() > 0,
                None => !self@.contains_key(tile_id.raw),
            },
    {
        proof {
            use_type_invariant(self);
        }
        match self.by_tile.get(&tile_id.raw) {
            Some(q) => {
                if q.len() == 0 {
                    None
                } else {
                    Some(q)
                }
            },
            None => None,
        }
    }

    /// True when no tile has any retained entries.
    pub fn is_empty(&self) -> (r: bool)
        ensures
            r == (forall|k: u128| #[trigger] self@.contains_key(k) ==> self@[k].len() == 0),
            r == (self@.dom() == Set::<u128>::empty()),
    {
        proof {
            use_type_invariant(self);
        }
        let r = self.by_tile.is_empty();
        proof {
            assert(self@.dom() =~= self.by_tile@.dom());
            if !r {
                let k = self@.dom().choose();
                assert(self@.contains_key(k));
            }
        }
        r
    }
}

} // verus!
