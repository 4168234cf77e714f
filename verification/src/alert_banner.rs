//! Alert-banner display order: severity first, then recency.

use vstd::prelude::*;

use crate::text_util::str_equal;

verus! {

/// What the alert-banner ordering reads of a zone publication: the urgency of
/// its notification content (`None` for non-notification content) and its
/// wall-clock publish time.
#[derive(Clone, Copy, Debug, PartialEq, Eq, Structural)]
pub struct ZonePublishRecord {
    /// Urgency of notification content; `None` for other content.
    pub notification_urgency: Option<u32>,
    /// Wall-clock publish time in microseconds.
    pub published_at_wall_us: u64,
}

/// Urgency used for ordering: the notification urgency, `0` otherwise.
pub open spec fn urgency_of(r: ZonePublishRecord) -> u32 {
    match r.notification_urgency {
        Some(u) => u,
        None => 0,
    }
}

/// Returns `true` if the zone name is the alert-banner zone.
pub fn is_alert_banner_zone(zone_name: &str) -> (r: bool)
    ensures
        r == (zone_name@ == "alert-banner"@),
{
    str_equal(zone_name, "alert-banner")
}

/// The urgency of a publication: its notification urgency, `0` for other
/// content (lowest severity for ordering).
pub fn publish_urgency(record: &ZonePublishRecord) -> (u: u32)
    ensures
        u == urgency_of(*record),
{
    match record.notification_urgency {
        Some(u) => u,
        None => 0,
    }
}

/// Display precedence of publication `a` over `b` (indices into `ps`):
/// higher urgency first, then newer publish time, then later index.
pub open spec fn shown_before(ps: Seq<ZonePublishRecord>, a: int, b: int) -> bool {
    let ua = urgency_of(ps[a]);
    let ub = urgency_of(ps[b]);
    ||| ua > ub
    ||| ua == ub && ps[a].published_at_wall_us > ps[b].published_at_wall_us
    ||| ua == ub && ps[a].published_at_wall_us == ps[b].published_at_wall_us && a > b
}

fn precedes(ps: &[ZonePublishRecord], a: usize, b: usize) -> (r: bool)
    requires
        a < ps@.len(),
        b < ps@.len(),
    ensures
        r == shown_before(ps@, a as int, b as int),
{
    let ua = publish_urgency(&ps[a]);
    let ub = publish_urgency(&ps[b]);
    if ua != ub {
        return ua > ub;
    }
    let ta = ps[a].published_at_wall_us;
    let tb = ps[b].published_at_wall_us;
    if ta != tb {
        return ta > tb;
    }
    a > b
}

/// `order` lists every index of `ps` exactly once, in display order.
pub open spec fn is_display_order(ps: Seq<ZonePublishRecord>, order: Seq<usize>) -> bool {
    &&& order.len() == ps.len()
    &&& order.no_duplicates()
    &&& forall|i: int| 0 <= i < order.len() ==> #[trigger] order[i] < ps.len()
    &&& forall|i: int, j: int|
        0 <= i < j < order.len() ==> shown_before(ps, #[trigger] order[i] as int, #[trigger] order[j] as int)
}

/// Sort alert-banner publications into display order: severity-descending
/// (critical first), then recency-descending (newer first), then newer
/// insertion first on exact timestamp ties.
///
/// Returns indices into `publishes` in the order they occupy slots 0, 1, 2, …
pub fn sort_alert_banner_indices(publishes: &[ZonePublishRecord]) -> (order: Vec<usize>)
    ensures
        is_display_order(publishes@, order@),
{
    let n = publishes.len();
    let mut order: Vec<usize> = Vec::new();
    let mut k: usize = 0;
    while k < n
        invariant
            n == publishes@.len(),
            0 <= k <= n,
            order@.len() == k,
            order@.no_duplicates(),
            forall|i: int| 0 <= i < order@.len() ==> #[trigger] order@[i] < k,
            forall|i: int, j: int|
                0 <= i < j < order@.len() ==> shown_before(
                    publishes@,
                    #[trigger] order@[i] as int,
                    #[trigger] order@[j] as int,
                ),
        decreases n - k,
    {
        let mut pos: usize = 0;
        while pos < order.len() && precedes(publishes, order[pos], k)
            invariant
                n == publishes@.len(),
                k < n,
                0 <= pos <= order@.len(),
                forall|i: int| 0 <= i < order@.len() ==> #[trigger] order@[i] < k,
                forall|i: int|
                    0 <= i < pos ==> shown_before(publishes@, #[trigger] order@[i] as int, k as int),
            decreases order@.len() - pos,
        {
            pos = pos + 1;
        }
        let ghost before = order@;
        proof {
            assert forall|i: int| pos <= i < before.len() implies shown_before(
                publishes@,
                k as int,
                #[trigger] before[i] as int,
            ) by {
                let p = pos as int;
                assert(!shown_before(publishes@, before[p] as int, k as int));
                if i > p {
                    assert(shown_before(publishes@, before[p] as int, before[i] as int));
                }
            }
        }
        order.insert(pos, k);
        assert forall|i: int, j: int|
            0 <= i < j < order@.len() implies shown_before(
            publishes@,
            #[trigger] order@[i] as int,
            #[trigger] order@[j] as int,
        ) by {
            let p = pos as int;
            if j < p {
                assert(order@[i] == before[i] && order@[j] == before[j]);
            } else if j == p {
                assert(order@[i] == before[i]);
            } else if i < p {
                assert(order@[i] == before[i] && order@[j] == before[j - 1]);
            } else if i == p {
                assert(order@[j] == before[j - 1]);
            } else {
                assert(order@[i] == before[i - 1] && order@[j] == before[j - 1]);
            }
        }
        assert(order@.no_duplicates()) by {
            assert forall|i: int, j: int|
                0 <= i < j < order@.len() implies order@[i] != order@[j] by {
                let p = pos as int;
                if i == p || j == p {
                } else {
                    let bi = if i < p { i } else { i - 1 };
                    let bj = if j < p { j } else { j - 1 };
                    assert(order@[i] == before[bi] && order@[j] == before[bj]);
                }
            }
        }
        k = k + 1;
    }
    order
}

/// The indices below `n`.
pub open spec fn indices_below(n: int) -> Set<usize> {
    Set::new(|x: usize| (x as int) < n)
}

proof fn lemma_indices_below_len(n: int)
    requires
        0 <= n <= usize::MAX + 1,
    ensures
        indices_below(n).finite(),
        indices_below(n).len() == n,
    decreases n,
{
    if n == 0 {
        assert(indices_below(n) =~= Set::<usize>::empty());
    } else {
        lemma_indices_below_len(n - 1);
        assert(indices_below(n - 1).insert((n - 1) as usize) =~= indices_below(n));
    }
}

/// A duplicate-free sequence of `n` indices below `n` lists every index
/// below `n`.
proof fn lemma_order_covers_all(s: Seq<usize>, n: int)
    requires
        s.len() == n,
        n <= usize::MAX,
        s.no_duplicates(),
        forall|i: int| 0 <= i < s.len() ==> #[trigger] s[i] < n,
    ensures
        s.to_set() == indices_below(n),
{
    s.unique_seq_to_set();
    vstd::seq_lib::seq_to_set_is_finite(s);
    lemma_indices_below_len(n);
    assert(s.to_set().subset_of(indices_below(n)));
    vstd::set_lib::lemma_subset_equality(s.to_set(), indices_below(n));
}

/// The display order is unique: any two display orders of the same
/// publications are equal, so the slots are fully determined by severity,
/// recency and insertion order.
pub proof fn law_display_order_unique(
    ps: Seq<ZonePublishRecord>,
    a: Seq<usize>,
    b: Seq<usize>,
)
    requires
        ps.len() <= usize::MAX,
        is_display_order(ps, a),
        is_display_order(ps, b),
    ensures
        a == b,
{
    let n = ps.len() as int;
    lemma_order_covers_all(a, n);
    lemma_order_covers_all(b, n);
    assert forall|i: int| 0 <= i < n implies a[i] == b[i] by {
        lemma_orders_agree_at(ps, a, b, i);
    }
    assert(a =~= b);
}

proof fn lemma_orders_agree_at(ps: Seq<ZonePublishRecord>, a: Seq<usize>, b: Seq<usize>, i: int)
    requires
        is_display_order(ps, a),
        is_display_order(ps, b),
        a.to_set() == b.to_set(),
        0 <= i < a.len(),
    ensures
        a[i] == b[i],
    decreases i,
{
    assert forall|k: int| 0 <= k < i implies a[k] == b[k] by {
        lemma_orders_agree_at(ps, a, b, k);
    }
    if a[i] != b[i] {
        assert(b.to_set().contains(a[i]));
        let j = choose|j: int| 0 <= j < b.len() && b[j] == a[i];
        assert(a.to_set().contains(b[i]));
        let k = choose|k: int| 0 <= k < a.len() && a[k] == b[i];
        if j < i {
            assert(a[j] == b[j]);
        }
        if k < i {
            assert(a[k] == b[k]);
        }
        assert(j > i && k > i);
        assert(shown_before(ps, b[i] as int, b[j] as int));
        assert(shown_before(ps, a[i] as int, a[k] as int));
    }
}

} // verus!
