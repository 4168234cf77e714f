//! Canonical snapshots of the retained headless lane: the single-tile text
//! change that a retained redraw may serve, and the planner over snapshots.

use vstd::prelude::*;
use crate::retained::{
    byte_inventory,
    CANONICAL_TILE_COUNT,
    plan_headless,
    retained_plan,
    same_ascii_glyph_inventory,
    RetainedPlan,
    RetainedRenderState,
};
use crate::scene_id::SceneId;

verus! {

/// A tile's bounds in a canonical encoding: two bounds are equal exactly when
/// their four fields are.
#[derive(Clone, Copy, Debug, PartialEq, Eq, Structural)]
pub struct TileBoundsKey {
    pub x: u32,
    pub y: u32,
    pub width: u32,
    pub height: u32,
}

/// One tile of a canonical scene: a single markdown text node inside it.
pub struct CanonicalTextTile {
    pub tile_id: SceneId,
    pub node_id: SceneId,
    pub tile_bounds: TileBoundsKey,
    /// The node's markdown text.
    pub content: String,
    /// The node's other text attributes, in a canonical encoding: two
    /// attribute sets are equal exactly when their encodings are.
    pub style: String,
}

impl CanonicalTextTile {
    /// A field-by-field copy.
    pub fn copy_tile(&self) -> (t: Self)
        ensures
            t == *self,
    {
        CanonicalTextTile {
            tile_id: self.tile_id,
            node_id: self.node_id,
            tile_bounds: self.tile_bounds,
            content: self.content.clone(),
            style: self.style.clone(),
        }
    }
}

/// The canonical snapshot of a scene at a viewport size, tiles ordered by id.
pub struct CanonicalSceneSnapshot {
    pub viewport_width: u32,
    pub viewport_height: u32,
    pub tiles: Vec<CanonicalTextTile>,
}

/// A retained redraw: the changed tile and the snapshot it leads to.
pub struct CanonicalTextChange {
    pub changed: CanonicalTextTile,
    pub next_snapshot: CanonicalSceneSnapshot,
}

/// Same tile, same node, same bounds.
pub open spec fn same_place(a: CanonicalTextTile, b: CanonicalTextTile) -> bool {
    a.tile_id == b.tile_id && a.node_id == b.node_id && a.tile_bounds == b.tile_bounds
}

/// Equal tiles: same place, same text, same attributes.
pub open spec fn same_text_tile(a: CanonicalTextTile, b: CanonicalTextTile) -> bool {
    same_place(a, b) && a.content@ == b.content@ && a.style@ == b.style@
}

/// Equal snapshots: same viewport and pairwise equal tiles.
pub open spec fn same_snapshot(a: CanonicalSceneSnapshot, b: CanonicalSceneSnapshot) -> bool {
    &&& a.viewport_width == b.viewport_width
    &&& a.viewport_height == b.viewport_height
    &&& a.tiles@.len() == b.tiles@.len()
    &&& forall|i: int| 0 <= i < a.tiles@.len() ==> #[trigger] same_text_tile(a.tiles@[i], b.tiles@[i])
}

/// The text of tile `before` may turn into `after` by a retained redraw: the
/// place and attributes are unchanged, and a changed text keeps its glyph
/// inventory.
pub open spec fn retained_compatible(before: CanonicalTextTile, after: CanonicalTextTile) -> bool {
    &&& same_place(before, after)
    &&& before.style@ == after.style@
    &&& before.content@ != after.content@ ==> byte_inventory(before.content@) == byte_inventory(
        after.content@,
    )
}

/// The text of the tile changed.
pub open spec fn content_changed(before: CanonicalTextTile, after: CanonicalTextTile) -> bool {
    before.content@ != after.content@
}

/// The index of the one tile whose text changed from `prev` to `cur`, when
/// every tile is retained-compatible and exactly one text changed.
pub open spec fn single_changed_index(
    prev: Seq<CanonicalTextTile>,
    cur: Seq<CanonicalTextTile>,
) -> Option<int> {
    if prev.len() == cur.len() && (forall|i: int|
        0 <= i < prev.len() ==> #[trigger] retained_compatible(prev[i], cur[i])) && (exists|i: int|
        0 <= i < prev.len() && #[trigger] content_changed(prev[i], cur[i])) && (forall|i: int, j: int|
        0 <= i < prev.len() && 0 <= j < prev.len() && #[trigger] content_changed(prev[i], cur[i])
            && #[trigger] content_changed(prev[j], cur[j]) ==> i == j) {
        Some(choose|i: int| 0 <= i < prev.len() && #[trigger] content_changed(prev[i], cur[i]))
    } else {
        None
    }
}

/// The tile of `current` whose text is the only change from `previous`,
/// when the change is one a retained redraw serves.
pub fn changed_canonical_tile(
    previous: &CanonicalSceneSnapshot,
    current: &CanonicalSceneSnapshot,
) -> (r: Option<CanonicalTextTile>)
    ensures
        match r {
            Some(t) => single_changed_index(previous.tiles@, current.tiles@) matches Some(i) && t
                == current.tiles@[i],
            None => single_changed_index(previous.tiles@, current.tiles@) is None,
        },
{
    let ghost prev = previous.tiles@;
    let ghost cur = current.tiles@;
    let n = previous.tiles.len();
    if n != current.tiles.len() {
        return None;
    }
    let mut changed: Option<usize> = None;
    let mut i: usize = 0;
    while i < n
        invariant
            prev == previous.tiles@,
            cur == current.tiles@,
            n == prev.len(),
            n == cur.len(),
            0 <= i <= n,
            forall|k: int| 0 <= k < i ==> #[trigger] retained_compatible(prev[k], cur[k]),
            match changed {
                Some(c) => c < i && content_changed(prev[c as int], cur[c as int]) && forall|k: int|
                    0 <= k < i && #[trigger] content_changed(prev[k], cur[k]) ==> k == c,
                None => forall|k: int| 0 <= k < i ==> !#[trigger] content_changed(prev[k], cur[k]),
            },
        decreases n - i,
    {
        let before = &previous.tiles[i];
        let after = &current.tiles[i];
        if before.tile_id != after.tile_id || before.node_id != after.node_id || before.tile_bounds
            != after.tile_bounds {
            assert(!retained_compatible(prev[i as int], cur[i as int]));
            return None;
        }
        if before.content == after.content {
            if before.style != after.style {
                assert(!retained_compatible(prev[i as int], cur[i as int]));
                return None;
            }
        } else {
            if before.style != after.style {
                assert(!retained_compatible(prev[i as int], cur[i as int]));
                return None;
            }
            if !same_ascii_glyph_inventory(before.content.as_str(), after.content.as_str()) {
                assert(!retained_compatible(prev[i as int], cur[i as int]));
                return None;
            }
            if let Some(c) = changed {
                assert(content_changed(prev[c as int], cur[c as int]));
                assert(content_changed(prev[i as int], cur[i as int]));
                return None;
            }
            changed = Some(i);
        }
        i = i + 1;
    }
    match changed {
        Some(c) => {
            proof {
                assert(content_changed(prev[c as int], cur[c as int]));
                let j = choose|j: int| 0 <= j < prev.len() && #[trigger] content_changed(prev[j], cur[j]);
                assert(j == c);
            }
            Some(current.tiles[c].copy_tile())
        },
        None => None,
    }
}

/// Whether two snapshots are equal (see [`same_snapshot`]).
pub fn snapshots_equal(a: &CanonicalSceneSnapshot, b: &CanonicalSceneSnapshot) -> (eq: bool)
    ensures
        eq == same_snapshot(*a, *b),
{
    if a.viewport_width != b.viewport_width || a.viewport_height != b.viewport_height {
        return false;
    }
    let n = a.tiles.len();
    if n != b.tiles.len() {
        return false;
    }
    let mut i: usize = 0;
    while i < n
        invariant
            n == a.tiles@.len(),
            n == b.tiles@.len(),
            0 <= i <= n,
            forall|k: int| 0 <= k < i ==> #[trigger] same_text_tile(a.tiles@[k], b.tiles@[k]),
        decreases n - i,
    {
        let x = &a.tiles[i];
        let y = &b.tiles[i];
        if x.tile_id != y.tile_id || x.node_id != y.node_id || x.tile_bounds != y.tile_bounds
            || x.content != y.content || x.style != y.style {
            assert(!same_text_tile(a.tiles@[i as int], b.tiles@[i as int]));
            return false;
        }
        i = i + 1;
    }
    true
}

/// Both snapshots exist and their viewports differ.
pub open spec fn viewport_changed(
    previous: Option<CanonicalSceneSnapshot>,
    next: Option<CanonicalSceneSnapshot>,
) -> bool {
    match (previous, next) {
        (Some(p), Some(n)) => p.viewport_width != n.viewport_width || p.viewport_height
            != n.viewport_height,
        _ => false,
    }
}

/// Both snapshots exist and are equal.
pub open spec fn snapshot_unchanged(
    previous: Option<CanonicalSceneSnapshot>,
    next: Option<CanonicalSceneSnapshot>,
) -> bool {
    match (previous, next) {
        (Some(p), Some(n)) => same_snapshot(p, n),
        _ => false,
    }
}

/// The retained redraw from `previous` to `next`, when exactly one tile's
/// text changed in a retained-compatible way.
pub open spec fn single_change(
    previous: Option<CanonicalSceneSnapshot>,
    next: Option<CanonicalSceneSnapshot>,
) -> Option<CanonicalTextChange> {
    match (previous, next) {
        (Some(p), Some(n)) => match single_changed_index(p.tiles@, n.tiles@) {
            Some(i) => Some(CanonicalTextChange { changed: n.tiles@[i], next_snapshot: n }),
            None => None,
        },
        _ => None,
    }
}

/// A retained partial redraw is planned only when the baseline and the next
/// snapshot share their viewport and every tile but one is unchanged; that
/// one tile keeps its place and attributes, and its text keeps its glyph
/// inventory.
pub proof fn law_partial_redraw_changes_one_tile(
    device_recovery_pending: bool,
    previous: Option<CanonicalSceneSnapshot>,
    next: Option<CanonicalSceneSnapshot>,
)
    ensures
        match retained_plan(
            device_recovery_pending,
            previous is Some,
            next is Some,
            viewport_changed(previous, next),
            snapshot_unchanged(previous, next),
            single_change(previous, next),
        ) {
            RetainedPlan::Partial(ch) => {
                &&& previous matches Some(p)
                &&& next == Some(ch.next_snapshot)
                &&& p.viewport_width == ch.next_snapshot.viewport_width
                &&& p.viewport_height == ch.next_snapshot.viewport_height
                &&& p.tiles@.len() == ch.next_snapshot.tiles@.len()
                &&& exists|i: int|
                    0 <= i < p.tiles@.len() && ch.changed == ch.next_snapshot.tiles@[i]
                        && #[trigger] content_changed(p.tiles@[i], ch.changed)
                        && retained_compatible(p.tiles@[i], ch.changed) && forall|j: int|
                        0 <= j < p.tiles@.len() && j != i ==> #[trigger] same_text_tile(
                            p.tiles@[j],
                            ch.next_snapshot.tiles@[j],
                        )
            },
            _ => true,
        },
{
    let plan = retained_plan(
        device_recovery_pending,
        previous is Some,
        next is Some,
        viewport_changed(previous, next),
        snapshot_unchanged(previous, next),
        single_change(previous, next),
    );
    if let RetainedPlan::Partial(ch) = plan {
        let p = previous->0;
        let n = next->0;
        let i = single_changed_index(p.tiles@, n.tiles@)->0;
        assert(content_changed(p.tiles@[i], n.tiles@[i]));
        assert(retained_compatible(p.tiles@[i], n.tiles@[i]));
        assert forall|j: int| 0 <= j < p.tiles@.len() && j != i implies #[trigger] same_text_tile(
            p.tiles@[j],
            n.tiles@[j],
        ) by {
            assert(retained_compatible(p.tiles@[j], n.tiles@[j]));
            if content_changed(p.tiles@[j], n.tiles@[j]) {
                assert(content_changed(p.tiles@[i], n.tiles@[i]));
            }
        }
        assert(ch.next_snapshot == n);
        assert(ch.changed == n.tiles@[i]);
        assert(0 <= i < p.tiles@.len() && ch.changed == ch.next_snapshot.tiles@[i] && content_changed(
            p.tiles@[i],
            ch.changed,
        ) && retained_compatible(p.tiles@[i], ch.changed) && forall|j: int|
            0 <= j < p.tiles@.len() && j != i ==> #[trigger] same_text_tile(
                p.tiles@[j],
                ch.next_snapshot.tiles@[j],
            ));
    }
}

/// What admission to the canonical lane reads of one visible tile and its
/// root node. The floating-point facts (opacity, bounds containment) arrive
/// already decided.
pub struct CanonicalTileCandidate {
    pub tile_id: SceneId,
    pub tile_bounds: TileBoundsKey,
    /// The tile is fully opaque and its bounds lie inside the viewport.
    pub opaque_inside_viewport: bool,
    /// The tile's root node, if it has one.
    pub root_node: Option<SceneId>,
    /// The root node exists in the scene.
    pub root_found: bool,
    /// The root node has children.
    pub root_has_children: bool,
    /// The root node is a markdown text node.
    pub is_markdown_text: bool,
    /// The node's markdown text.
    pub content: String,
    /// The node's other text attributes, in a canonical encoding.
    pub style: String,
    /// The text node has a background.
    pub has_background: bool,
    /// The text node has explicit colour runs.
    pub has_color_runs: bool,
    /// The text node clips its overflow.
    pub overflow_clip: bool,
    /// The text node's bounds lie inside the tile.
    pub text_inside_tile: bool,
}

/// The tile qualifies for the canonical lane.
pub open spec fn admissible_tile(c: CanonicalTileCandidate) -> bool {
    &&& c.opaque_inside_viewport
    &&& c.root_node is Some
    &&& c.root_found
    &&& !c.root_has_children
    &&& c.is_markdown_text
    &&& c.content@.len() > 0
    &&& forall|i: int| 0 <= i < c.content@.len() ==> (#[trigger] c.content@[i] as u32) < 0x80
    &&& !c.has_background
    &&& !c.has_color_runs
    &&& c.overflow_clip
    &&& c.text_inside_tile
}

/// The canonical tile of an admissible candidate.
pub open spec fn canonical_tile_of(c: CanonicalTileCandidate) -> CanonicalTextTile {
    CanonicalTextTile {
        tile_id: c.tile_id,
        node_id: c.root_node.unwrap(),
        tile_bounds: c.tile_bounds,
        content: c.content,
        style: c.style,
    }
}

/// Candidate `a` comes before `b` (indices into `cs`): smaller tile id
/// first, ties kept in their original order.
pub open spec fn id_before(cs: Seq<CanonicalTileCandidate>, a: int, b: int) -> bool {
    cs[a].tile_id.raw < cs[b].tile_id.raw || (cs[a].tile_id.raw == cs[b].tile_id.raw && a < b)
}

/// `order` lists every index of `cs` once, by tile id.
pub open spec fn is_id_order(cs: Seq<CanonicalTileCandidate>, order: Seq<usize>) -> bool {
    &&& order.len() == cs.len()
    &&& order.no_duplicates()
    &&& forall|i: int| 0 <= i < order.len() ==> #[trigger] order[i] < cs.len()
    &&& forall|i: int, j: int|
        0 <= i < j < order.len() ==> id_before(cs, #[trigger] order[i] as int, #[trigger] order[j] as int)
}

/// Whether a scene is admitted to the canonical lane: a non-empty viewport,
/// no active zone, widget or overlay state, exactly the canonical number of
/// visible tiles and of nodes, every tile admissible, and no two tiles
/// overlapping.
pub open spec fn canonical_admitted(
    width: u32,
    height: u32,
    scene_quiet: bool,
    node_count: usize,
    candidates: Seq<CanonicalTileCandidate>,
    tiles_overlap: bool,
) -> bool {
    &&& width != 0
    &&& height != 0
    &&& scene_quiet
    &&& candidates.len() == CANONICAL_TILE_COUNT
    &&& node_count == CANONICAL_TILE_COUNT
    &&& forall|i: int| 0 <= i < candidates.len() ==> admissible_tile(#[trigger] candidates[i])
    &&& !tiles_overlap
}

fn admissible(c: &CanonicalTileCandidate) -> (ok: bool)
    ensures
        ok == admissible_tile(*c),
{
    if !c.opaque_inside_viewport || c.root_node.is_none() || !c.root_found || c.root_has_children
        || !c.is_markdown_text || c.has_background || c.has_color_runs || !c.overflow_clip
        || !c.text_inside_tile {
        return false;
    }
    let n = c.content.as_str().unicode_len();
    if n == 0 {
        return false;
    }
    let mut i: usize = 0;
    while i < n
        invariant
            n == c.content@.len(),
            0 <= i <= n,
            forall|j: int| 0 <= j < i ==> (#[trigger] c.content@[j] as u32) < 0x80,
        decreases n - i,
    {
        if (c.content.as_str().get_char(i) as u32) >= 0x80 {
            return false;
        }
        i = i + 1;
    }
    true
}

fn sort_by_tile_id(cs: &Vec<CanonicalTileCandidate>) -> (order: Vec<usize>)
    ensures
        is_id_order(cs@, order@),
{
    let n = cs.len();
    let mut order: Vec<usize> = Vec::new();
    let mut k: usize = 0;
    while k < n
        invariant
            n == cs@.len(),
            0 <= k <= n,
            order@.len() == k,
            order@.no_duplicates(),
            forall|i: int| 0 <= i < order@.len() ==> #[trigger] order@[i] < k,
            forall|i: int, j: int|
                0 <= i < j < order@.len() ==> id_before(
                    cs@,
                    #[trigger] order@[i] as int,
                    #[trigger] order@[j] as int,
                ),
        decreases n - k,
    {
        let key = cs[k].tile_id.raw;
        let mut pos: usize = order.len();
        while pos > 0 && key < cs[order[pos - 1]].tile_id.raw
            invariant
                n == cs@.len(),
                k < n,
                0 <= pos <= order@.len(),
                key == cs@[k as int].tile_id.raw,
                forall|i: int| 0 <= i < order@.len() ==> #[trigger] order@[i] < k,
                forall|i: int|
                    pos <= i < order@.len() ==> key < cs@[#[trigger] order@[i] as int].tile_id.raw,
            decreases pos,
        {
            pos = pos - 1;
        }
        let ghost before = order@;
        proof {
            assert forall|i: int| 0 <= i < pos implies id_before(
                cs@,
                #[trigger] before[i] as int,
                k as int,
            ) by {
                let p = pos as int - 1;
                assert(!(key < cs@[before[p] as int].tile_id.raw));
                if i < p {
                    assert(id_before(cs@, before[i] as int, before[p] as int));
                }
            }
        }
        order.insert(pos, k);
        assert forall|i: int, j: int|
            0 <= i < j < order@.len() implies id_before(
            cs@,
            #[trigger] order@[i] as int,
            #[trigger] order@[j] as int,
        ) by {
            let p = pos as int;
            if j < p {
                assert(order@[i] == before[i] && order@[j] == before[j]);
            } else if j == p {
                assert(order@[i] == before[i]);
            } else if i < p {
                assert(order@[i] == before[i] && order@[j] == before[j - 1]);
            } else if i == p {
                assert(order@[j] == before[j - 1]);
            } else {
                assert(order@[i] == before[i - 1] && order@[j] == before[j - 1]);
            }
        }
        assert(order@.no_duplicates()) by {
            assert forall|i: int, j: int|
                0 <= i < j < order@.len() implies order@[i] != order@[j] by {
                let p = pos as int;
                if i == p || j == p {
                } else {
                    let bi = if i < p { i } else { i - 1 };
                    let bj = if j < p { j } else { j - 1 };
                    assert(order@[i] == before[bi] && order@[j] == before[bj]);
                }
            }
        }
        k = k + 1;
    }
    order
}

/// The canonical snapshot of a scene at a viewport size, when the scene is
/// admitted (see [`canonical_admitted`]): its tiles in ascending tile id.
/// The candidates are the scene's visible tiles, each once (distinct ids).
/// `scene_quiet` says that no zone or widget publication, scroll, unread,
/// accent, composer, drag, context-menu, portal or font-scale state is
/// active; `tiles_overlap` that two visible tiles' bounds intersect.
pub fn canonical_snapshot(
    width: u32,
    height: u32,
    scene_quiet: bool,
    node_count: usize,
    candidates: Vec<CanonicalTileCandidate>,
    tiles_overlap: bool,
) -> (snapshot: Option<CanonicalSceneSnapshot>)
    requires
        forall|i: int, j: int|
            0 <= i < j < candidates@.len() ==> #[trigger] candidates@[i].tile_id
                != #[trigger] candidates@[j].tile_id,
    ensures
        match snapshot {
            Some(s) => {
                &&& canonical_admitted(width, height, scene_quiet, node_count, candidates@, tiles_overlap)
                &&& s.viewport_width == width
                &&& s.viewport_height == height
                &&& forall|i: int, j: int|
                    0 <= i < j < s.tiles@.len() ==> (#[trigger] s.tiles@[i]).tile_id.raw
                        < (#[trigger] s.tiles@[j]).tile_id.raw
                &&& exists|order: Seq<usize>|
                    #[trigger] is_id_order(candidates@, order) && s.tiles@.len() == order.len()
                        && forall|i: int|
                        0 <= i < order.len() ==> s.tiles@[i] == canonical_tile_of(
                            #[trigger] candidates@[order[i] as int],
                        )
            },
            None => !canonical_admitted(
                width,
                height,
                scene_quiet,
                node_count,
                candidates@,
                tiles_overlap,
            ),
        },
{
    if width == 0 || height == 0 || !scene_quiet || candidates.len() != CANONICAL_TILE_COUNT
        || node_count != CANONICAL_TILE_COUNT || tiles_overlap {
        return None;
    }
    let n = candidates.len();
    let mut i: usize = 0;
    while i < n
        invariant
            n == candidates@.len(),
            0 <= i <= n,
            forall|j: int| 0 <= j < i ==> admissible_tile(#[trigger] candidates@[j]),
        decreases n - i,
    {
        if !admissible(&candidates[i]) {
            return None;
        }
        i = i + 1;
    }
    let order = sort_by_tile_id(&candidates);
    let mut tiles: Vec<CanonicalTextTile> = Vec::new();
    let mut k: usize = 0;
    while k < n
        invariant
            n == candidates@.len(),
            is_id_order(candidates@, order@),
            forall|j: int| 0 <= j < n ==> admissible_tile(#[trigger] candidates@[j]),
            0 <= k <= n,
            tiles@.len() == k,
            forall|j: int|
                0 <= j < k ==> tiles@[j] == canonical_tile_of(
                    #[trigger] candidates@[order@[j] as int],
                ),
        decreases n - k,
    {
        let c = &candidates[order[k]];
        proof {
            assert(order@[k as int] < n);
            assert(admissible_tile(candidates@[order@[k as int] as int]));
        }
        let node_id = match c.root_node {
            Some(id) => id,
            None => {
                return None;
            },
        };
        tiles.push(
            CanonicalTextTile {
                tile_id: c.tile_id,
                node_id,
                tile_bounds: c.tile_bounds,
                content: c.content.clone(),
                style: c.style.clone(),
            },
        );
        k = k + 1;
    }
    let snapshot = CanonicalSceneSnapshot { viewport_width: width, viewport_height: height, tiles };
    assert(is_id_order(candidates@, order@));
    proof {
        let ts = snapshot.tiles@;
        assert forall|i: int, j: int| 0 <= i < j < ts.len() implies (#[trigger] ts[i]).tile_id.raw
            < (#[trigger] ts[j]).tile_id.raw by {
            let a = order@[i] as int;
            let b = order@[j] as int;
            assert(id_before(candidates@, a, b));
            assert(a != b);
            if a < b {
                assert(candidates@[a].tile_id != candidates@[b].tile_id);
            } else {
                assert(candidates@[b].tile_id != candidates@[a].tile_id);
            }
            assert(ts[i].tile_id == candidates@[a].tile_id);
            assert(ts[j].tile_id == candidates@[b].tile_id);
        }
    }
    Some(snapshot)
}

impl<C, A> RetainedRenderState<CanonicalSceneSnapshot, C, A> {
    /// Plan one headless frame from the private baseline and the canonical
    /// snapshot of the scene about to be rendered (`None` when that scene is
    /// not canonical); see [`retained_plan`].
    pub fn plan_headless(&self, next: Option<CanonicalSceneSnapshot>) -> (plan: RetainedPlan<
        CanonicalTextChange,
    >)
        ensures
            plan == retained_plan(
                self.device_recovery_pending,
                self.snapshot is Some,
                next is Some,
                viewport_changed(self.snapshot, next),
                snapshot_unchanged(self.snapshot, next),
                single_change(self.snapshot, next),
            ),
    {
        let has_baseline = self.snapshot.is_some();
        let next_is_canonical = next.is_some();
        let mut viewport_differs = false;
        let mut unchanged = false;
        let mut changed_tile: Option<CanonicalTextTile> = None;
        if let Some(previous) = &self.snapshot {
            if let Some(n) = &next {
                viewport_differs = previous.viewport_width != n.viewport_width
                    || previous.viewport_height != n.viewport_height;
                unchanged = snapshots_equal(previous, n);
                changed_tile = changed_canonical_tile(previous, n);
            }
        }
        let change = match (changed_tile, next) {
            (Some(changed), Some(next_snapshot)) => Some(
                CanonicalTextChange { changed, next_snapshot },
            ),
            _ => None,
        };
        plan_headless(
            self.device_recovery_pending,
            has_baseline,
            next_is_canonical,
            viewport_differs,
            unchanged,
            change,
        )
    }
}

} // verus!
