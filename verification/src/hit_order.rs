//! The order of the interactive notification affordances of Stack zones:
//! zones by name, slots in display order, and a keyboard tab order that
//! numbers each dismiss button and action button in turn.

use vstd::prelude::*;

use crate::alert_banner::{is_display_order, sort_alert_banner_indices, ZonePublishRecord};
use crate::zone_text::{compare_keys, key_less, lemma_key_less_transitive};

verus! {

/// Slot order of a Stack zone's publications: the alert banner by severity
/// then recency, any other zone newest (last published) first.
pub fn zone_slot_order(publishes: &[ZonePublishRecord], alert_banner: bool) -> (order: Vec<usize>)
    ensures
        alert_banner ==> is_display_order(publishes@, order@),
        !alert_banner ==> order@ == Seq::new(
            publishes@.len(),
            |i: int| (publishes@.len() - 1 - i) as usize,
        ),
{
    if alert_banner {
        return sort_alert_banner_indices(publishes);
    }
    let n = publishes.len();
    let mut order: Vec<usize> = Vec::new();
    let mut k: usize = 0;
    while k < n
        invariant
            n == publishes@.len(),
            0 <= k <= n,
            order@ == Seq::new(k as nat, |i: int| (n - 1 - i) as usize),
        decreases n - k,
    {
        order.push(n - 1 - k);
        assert(order@ =~= Seq::new((k + 1) as nat, |i: int| (n - 1 - i) as usize));
        k = k + 1;
    }
    order
}

/// `order` lists every index of `names` once, names ascending.
pub open spec fn is_name_order(names: Seq<Seq<char>>, order: Seq<usize>) -> bool {
    &&& order.len() == names.len()
    &&& order.no_duplicates()
    &&& forall|i: int| 0 <= i < order.len() ==> #[trigger] order[i] < names.len()
    &&& forall|i: int, j: int|
        0 <= i < j < order.len() ==> !key_less(
            names[#[trigger] order[j] as int],
            names[#[trigger] order[i] as int],
        )
}

/// Zone names in ascending order (indices into `names`), so that tab order
/// is the same on every frame whatever order the zones are held in.
pub fn zone_name_order(names: &[String]) -> (order: Vec<usize>)
    ensures
        is_name_order(names@.map_values(|s: String| s@), order@),
{
    let ghost ns = names@.map_values(|s: String| s@);
    let n = names.len();
    let mut order: Vec<usize> = Vec::new();
    let mut k: usize = 0;
    while k < n
        invariant
            n == names@.len(),
            ns == names@.map_values(|s: String| s@),
            0 <= k <= n,
            order@.len() == k,
            order@.no_duplicates(),
            forall|i: int| 0 <= i < order@.len() ==> #[trigger] order@[i] < k,
            forall|i: int, j: int|
                0 <= i < j < order@.len() ==> !key_less(
                    ns[#[trigger] order@[j] as int],
                    ns[#[trigger] order@[i] as int],
                ),
        decreases n - k,
    {
        let mut pos: usize = order.len();
        while pos > 0 && compare_keys(names[k].as_str(), names[order[pos - 1]].as_str()) < 0
            invariant
                n == names@.len(),
                ns == names@.map_values(|s: String| s@),
                k < n,
                0 <= pos <= order@.len(),
                forall|i: int| 0 <= i < order@.len() ==> #[trigger] order@[i] < k,
                forall|i: int|
                    pos <= i < order@.len() ==> key_less(ns[k as int], ns[#[trigger] order@[i] as int]),
            decreases pos,
        {
            pos = pos - 1;
        }
        let ghost before = order@;
        proof {
            if pos > 0 {
                let p = pos as int - 1;
                assert(!key_less(ns[k as int], ns[before[p] as int]));
            }
            assert forall|i: int| 0 <= i < pos implies !key_less(
                ns[k as int],
                #[trigger] ns[before[i] as int],
            ) by {
                let p = pos as int - 1;
                if i < p && key_less(ns[k as int], ns[before[i] as int]) {
                    lemma_before_carries_over(ns[k as int], ns[before[i] as int], ns[before[p] as int]);
                }
            }
        }
        order.insert(pos, k);
        assert forall|i: int, j: int|
            0 <= i < j < order@.len() implies !key_less(
            ns[#[trigger] order@[j] as int],
            ns[#[trigger] order@[i] as int],
        ) by {
            let p = pos as int;
            if j < p {
                assert(order@[i] == before[i] && order@[j] == before[j]);
            } else if j == p {
                assert(order@[i] == before[i]);
            } else if i < p {
                assert(order@[i] == before[i] && order@[j] == before[j - 1]);
                assert(!key_less(ns[k as int], ns[before[i] as int]));
                assert(key_less(ns[k as int], ns[before[j - 1] as int]));
                if key_less(ns[before[j - 1] as int], ns[before[i] as int]) {
                    lemma_key_less_transitive(
                        ns[k as int],
                        ns[before[j - 1] as int],
                        ns[before[i] as int],
                    );
                }
            } else if i == p {
                assert(order@[j] == before[j - 1]);
                assert(key_less(ns[k as int], ns[before[j - 1] as int]));
                lemma_key_less_asymmetric(ns[k as int], ns[before[j - 1] as int]);
            } else {
                assert(order@[i] == before[i - 1] && order@[j] == before[j - 1]);
            }
        }
        assert(order@.no_duplicates()) by {
            assert forall|i: int, j: int|
                0 <= i < j < order@.len() implies order@[i] != order@[j] by {
                let p = pos as int;
                if i == p || j == p {
                } else {
                    let bi = if i < p { i } else { i - 1 };
                    let bj = if j < p { j } else { j - 1 };
                    assert(order@[i] == before[bi] && order@[j] == before[bj]);
                }
            }
        }
        k = k + 1;
    }
    order
}

/// No two keys are each before the other.
pub proof fn lemma_key_less_asymmetric(a: Seq<char>, b: Seq<char>)
    requires
        key_less(a, b),
    ensures
        !key_less(b, a),
    decreases a.len(),
{
    if a.len() > 0 && b.len() > 0 && a[0] == b[0] {
        lemma_key_less_asymmetric(a.drop_first(), b.drop_first());
    }
}

/// The key order is total.
proof fn lemma_key_less_total(a: Seq<char>, b: Seq<char>)
    ensures
        key_less(a, b) || key_less(b, a) || a == b,
    decreases a.len(),
{
    if a.len() > 0 && b.len() > 0 && a[0] == b[0] {
        lemma_key_less_total(a.drop_first(), b.drop_first());
        if a.drop_first() == b.drop_first() {
            assert(a =~= seq![a[0]] + a.drop_first());
            assert(b =~= seq![b[0]] + b.drop_first());
            assert(a =~= b);
        }
    } else if a.len() == 0 && b.len() == 0 {
        assert(a =~= b);
    }
}

/// A key `p` not after `k` is before everything `k` is before.
proof fn lemma_before_carries_over(k: Seq<char>, x: Seq<char>, p: Seq<char>)
    ensures
        key_less(k, x) && !key_less(k, p) ==> key_less(p, x),
{
    lemma_key_less_total(k, p);
    if key_less(p, k) && key_less(k, x) {
        lemma_key_less_transitive(p, k, x);
    }
}

/// The affordance an interaction region serves.
#[derive(Clone, Copy, Debug, PartialEq, Eq, Structural)]
pub enum HitRegionKind {
    /// The notification's dismiss (×) button.
    Dismiss,
    /// The notification's action button with this index.
    Action(usize),
}

/// One interaction region: which zone (in name order) and slot (in display
/// order) it belongs to, what it serves, and its keyboard tab order.
#[derive(Clone, Copy, Debug, PartialEq, Eq, Structural)]
pub struct HitRegionTarget {
    pub zone: usize,
    pub slot: usize,
    pub kind: HitRegionKind,
    pub tab_order: u32,
}

/// The regions of one visible slot: none for non-notification content,
/// otherwise the dismiss button then one button per action, at most
/// `max_actions`.
pub open spec fn slot_regions(zone: int, slot: int, actions: Option<usize>, max_actions: usize) -> Seq<
    (int, int, HitRegionKind),
> {
    match actions {
        None => Seq::empty(),
        Some(a) => {
            let shown: usize = if a < max_actions {
                a
            } else {
                max_actions
            };
            seq![(zone, slot, HitRegionKind::Dismiss)] + Seq::new(
                shown as nat,
                |i: int| (zone, slot, HitRegionKind::Action(i as usize)),
            )
        },
    }
}

/// The regions of the first `s` visible slots of a zone, in slot order.
pub open spec fn zone_regions(zone: int, slots: Seq<Option<usize>>, s: int, max_actions: usize) -> Seq<
    (int, int, HitRegionKind),
>
    decreases s,
{
    if s <= 0 {
        Seq::empty()
    } else {
        zone_regions(zone, slots, s - 1, max_actions) + slot_regions(
            zone,
            s - 1,
            slots[s - 1],
            max_actions,
        )
    }
}

/// The regions of the first `z` zones, in zone order.
pub open spec fn all_regions(zones: Seq<Seq<Option<usize>>>, z: int, max_actions: usize) -> Seq<
    (int, int, HitRegionKind),
>
    decreases z,
{
    if z <= 0 {
        Seq::empty()
    } else {
        all_regions(zones, z - 1, max_actions) + zone_regions(
            z - 1,
            zones[z - 1],
            zones[z - 1].len() as int,
            max_actions,
        )
    }
}

/// The interaction regions as plain values.
pub open spec fn targets_view(ts: Seq<HitRegionTarget>) -> Seq<(int, int, HitRegionKind)> {
    ts.map_values(|t: HitRegionTarget| (t.zone as int, t.slot as int, t.kind))
}

/// The slot contents of each zone as plain values.
pub open spec fn zones_view(zones: Seq<Vec<Option<usize>>>) -> Seq<Seq<Option<usize>>> {
    zones.map_values(|v: Vec<Option<usize>>| v@)
}

/// Number the interaction regions of the interactive zones' visible slots.
///
/// `zones` lists, zone by zone in name order, the visible slots in display
/// order: `Some(n)` for a notification with `n` actions, `None` for other
/// content. Each notification gets a dismiss region then one region per
/// action (at most `max_actions`); tab order counts the regions from zero.
/// The regions must be numberable in `u32`.
pub fn zone_hit_region_order(zones: &[Vec<Option<usize>>], max_actions: usize) -> (regions: Vec<
    HitRegionTarget,
>)
    requires
        all_regions(zones_view(zones@), zones@.len() as int, max_actions).len() <= u32::MAX,
    ensures
        targets_view(regions@) == all_regions(zones_view(zones@), zones@.len() as int, max_actions),
        forall|i: int| 0 <= i < regions@.len() ==> #[trigger] regions@[i].tab_order == i,
{
    let ghost zs = zones_view(zones@);
    let ghost total = all_regions(zs, zones@.len() as int, max_actions);
    let mut regions: Vec<HitRegionTarget> = Vec::new();
    let mut tab_order: u32 = 0;
    let nz = zones.len();
    let mut z: usize = 0;
    while z < nz
        invariant
            nz == zones@.len(),
            zs == zones_view(zones@),
            total == all_regions(zs, nz as int, max_actions),
            total.len() <= u32::MAX,
            0 <= z <= nz,
            targets_view(regions@) == all_regions(zs, z as int, max_actions),
            tab_order == regions@.len(),
            forall|i: int| 0 <= i < regions@.len() ==> #[trigger] regions@[i].tab_order == i,
        decreases nz - z,
    {
        proof {
            lemma_all_regions_prefix(zs, z as int + 1, nz as int, max_actions);
        }
        let slots = &zones[z];
        let ghost zone_slots = zs[z as int];
        assert(zone_slots == slots@);
        let ns = slots.len();
        let mut s: usize = 0;
        while s < ns
            invariant
                ns == slots@.len(),
                zone_slots == slots@,
                0 <= s <= ns,
                all_regions(zs, z + 1, max_actions).len() <= u32::MAX,
                all_regions(zs, z + 1, max_actions) == all_regions(zs, z as int, max_actions)
                    + zone_regions(z as int, zone_slots, ns as int, max_actions),
                targets_view(regions@) == all_regions(zs, z as int, max_actions) + zone_regions(
                    z as int,
                    zone_slots,
                    s as int,
                    max_actions,
                ),
                tab_order == regions@.len(),
                forall|i: int| 0 <= i < regions@.len() ==> #[trigger] regions@[i].tab_order == i,
            decreases ns - s,
        {
            proof {
                lemma_zone_regions_prefix(z as int, zone_slots, s as int + 1, ns as int, max_actions);
            }
            let ghost base = targets_view(regions@);
            let ghost slot_seq = slot_regions(z as int, s as int, zone_slots[s as int], max_actions);
            assert(zone_regions(z as int, zone_slots, s + 1, max_actions) == zone_regions(
                z as int,
                zone_slots,
                s as int,
                max_actions,
            ) + slot_seq);
            assert(base.len() + slot_seq.len() <= u32::MAX);
            if let Some(a) = slots[s] {
                let shown: usize = if a < max_actions {
                    a
                } else {
                    max_actions
                };
                assert(regions@.len() < u32::MAX);
                regions.push(
                    HitRegionTarget { zone: z, slot: s, kind: HitRegionKind::Dismiss, tab_order },
                );
                tab_order = tab_order + 1;
                assert(targets_view(regions@) =~= base + slot_seq.take(1));
                let mut b: usize = 0;
                while b < shown
                    invariant
                        0 <= b <= shown,
                        slot_seq.len() == shown + 1,
                        slot_seq == slot_regions(z as int, s as int, Some(a), max_actions),
                        shown == (if a < max_actions { a } else { max_actions }),
                        base.len() + slot_seq.len() <= u32::MAX,
                        targets_view(regions@) == base + slot_seq.take(b + 1),
                        tab_order == regions@.len(),
                        forall|i: int|
                            0 <= i < regions@.len() ==> #[trigger] regions@[i].tab_order == i,
                    decreases shown - b,
                {
                    assert(targets_view(regions@).len() == regions@.len());
                    assert(regions@.len() == base.len() + b + 1);
                    let ghost prev = regions@;
                    regions.push(
                        HitRegionTarget {
                            zone: z,
                            slot: s,
                            kind: HitRegionKind::Action(b),
                            tab_order,
                        },
                    );
                    tab_order = tab_order + 1;
                    assert(slot_seq[b + 1] == (z as int, s as int, HitRegionKind::Action(b)));
                    assert(targets_view(regions@) =~= targets_view(prev).push(
                        (z as int, s as int, HitRegionKind::Action(b)),
                    ));
                    assert(base + slot_seq.take(b + 2) =~= (base + slot_seq.take(b + 1)).push(
                        slot_seq[b + 1],
                    ));
                    assert(targets_view(regions@) =~= base + slot_seq.take(b + 2));
                    b = b + 1;
                }
                assert(slot_seq.take(shown + 1) =~= slot_seq);
            } else {
                assert(slot_seq =~= Seq::<(int, int, HitRegionKind)>::empty());
                assert(base + slot_seq =~= base);
            }
            assert(zone_regions(z as int, zone_slots, s + 1, max_actions) == zone_regions(
                z as int,
                zone_slots,
                s as int,
                max_actions,
            ) + slot_seq);
            assert(targets_view(regions@) =~= all_regions(zs, z as int, max_actions)
                + zone_regions(z as int, zone_slots, s + 1, max_actions));
            s = s + 1;
        }
        assert(targets_view(regions@) =~= all_regions(zs, z + 1, max_actions));
        z = z + 1;
    }
    regions
}

proof fn lemma_zone_regions_prefix(zone: int, slots: Seq<Option<usize>>, s: int, t: int, max_actions: usize)
    requires
        0 <= s <= t,
    ensures
        zone_regions(zone, slots, s, max_actions).len() <= zone_regions(zone, slots, t, max_actions).len(),
    decreases t - s,
{
    if s < t {
        lemma_zone_regions_prefix(zone, slots, s, t - 1, max_actions);
    }
}

proof fn lemma_all_regions_prefix(zones: Seq<Seq<Option<usize>>>, z: int, w: int, max_actions: usize)
    requires
        0 <= z <= w,
    ensures
        all_regions(zones, z, max_actions).len() <= all_regions(zones, w, max_actions).len(),
    decreases w - z,
{
    if z < w {
        lemma_all_regions_prefix(zones, z, w - 1, max_actions);
    }
}

} // verus!
