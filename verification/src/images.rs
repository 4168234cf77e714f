//! CPU-side validation of registered RGBA image bytes.

use vstd::prelude::*;

verus! {

/// Dimensions a registration accepts: both non-zero and the RGBA byte count
/// `width * height * 4` representable in `usize`.
pub open spec fn image_dims_ok(width: u32, height: u32) -> bool {
    width != 0 && height != 0 && width * height * 4 <= usize::MAX
}

/// Whether `register_image_bytes` admits an image of these dimensions:
/// zero-sized images and images whose RGBA byte count overflows are refused.
pub fn image_dims_admissible(width: u32, height: u32) -> (ok: bool)
    ensures
        ok == image_dims_ok(width, height),
{
    if width == 0 || height == 0 {
        return false;
    }
    match (width as usize).checked_mul(height as usize) {
        None => {
            assert(width * height * 4 > usize::MAX) by (nonlinear_arith)
                requires
                    width * height > usize::MAX,
            ;
            false
        },
        Some(px) => px.checked_mul(4).is_some(),
    }
}

/// Whether registered RGBA bytes of length `len` hold exactly
/// `width * height` RGBA8 pixels.
pub fn rgba_len_matches(len: usize, width: u32, height: u32) -> (ok: bool)
    requires
        (width as int) * (height as int) * 4 <= usize::MAX,
    ensures
        ok == (len as int == (width as int) * (height as int) * 4),
{
    let expected = (width as usize) * (height as usize) * 4;
    len == expected
}

/// A content-addressed resource identity (a 32-byte digest).
#[derive(Clone, Copy, Debug, PartialEq, Eq, Hash)]
pub struct ResourceId {
    pub bytes: [u8; 32],
}

/// Byte-wise identity comparison.
pub fn same_resource(a: &ResourceId, b: &ResourceId) -> (same: bool)
    ensures
        same == (a.bytes@ == b.bytes@),
{
    let mut i: usize = 0;
    while i < 32
        invariant
            0 <= i <= 32,
            a.bytes@.len() == 32,
            b.bytes@.len() == 32,
            forall|j: int| 0 <= j < i ==> a.bytes@[j] == b.bytes@[j],
        decreases 32 - i,
    {
        if a.bytes[i] != b.bytes[i] {
            return false;
        }
        i = i + 1;
    }
    assert(a.bytes@ =~= b.bytes@);
    true
}

/// Decoded RGBA bytes registered for a resource, with their dimensions.
pub struct RegisteredImage {
    pub id: ResourceId,
    pub rgba: Vec<u8>,
    pub width: u32,
    pub height: u32,
}

/// Abstract value of a registration: identity bytes, pixel bytes, width,
/// height.
pub type ImageRecord = (Seq<u8>, Seq<u8>, u32, u32);

/// The registered images, first registration of each resource only, in
/// registration order. The 32-byte identities are compared byte-wise: no
/// integer type holds them whole, so they key a list rather than a hash map.
pub struct ImageRegistry {
    entries: Vec<RegisteredImage>,
}

/// No resource is registered twice.
pub open spec fn unique_ids(rs: Seq<ImageRecord>) -> bool {
    forall|i: int, j: int| 0 <= i < j < rs.len() ==> #[trigger] rs[i].0 != #[trigger] rs[j].0
}

/// The registration of resource `id` in `rs`, if any.
pub open spec fn lookup(rs: Seq<ImageRecord>, id: Seq<u8>) -> Option<ImageRecord> {
    if exists|i: int| 0 <= i < rs.len() && #[trigger] rs[i].0 == id {
        let i = choose|i: int| 0 <= i < rs.len() && #[trigger] rs[i].0 == id;
        Some(rs[i])
    } else {
        None
    }
}

/// Whether resource identity `id` occurs among `ids`.
pub open spec fn is_referenced(ids: Seq<ResourceId>, id: Seq<u8>) -> bool {
    exists|k: int| 0 <= k < ids.len() && #[trigger] ids[k].bytes@ == id
}

/// Abstract values of a list of registrations.
pub open spec fn image_records(v: Seq<RegisteredImage>) -> Seq<ImageRecord> {
    v.map_values(|e: RegisteredImage| (e.id.bytes@, e.rgba@, e.width, e.height))
}

/// A registration is found again by its identity, and registering one
/// resource leaves every other resource's lookup unchanged.
pub proof fn law_registered_image_is_found(rs: Seq<ImageRecord>, rec: ImageRecord, other: Seq<u8>)
    requires
        unique_ids(rs),
        lookup(rs, rec.0) is None,
        other != rec.0,
    ensures
        lookup(rs.push(rec), rec.0) == Some(rec),
        lookup(rs.push(rec), other) == lookup(rs, other),
{
    let pushed = rs.push(rec);
    let last = rs.len() as int;
    assert(pushed[last].0 == rec.0);
    let i = choose|i: int| 0 <= i < pushed.len() && #[trigger] pushed[i].0 == rec.0;
    if i < last {
        assert(rs[i].0 == rec.0);
    }
    if exists|j: int| 0 <= j < rs.len() && #[trigger] rs[j].0 == other {
        let j = choose|j: int| 0 <= j < rs.len() && #[trigger] rs[j].0 == other;
        assert(pushed[j].0 == other);
        let k = choose|k: int| 0 <= k < pushed.len() && #[trigger] pushed[k].0 == other;
        assert(k != last);
        assert(rs[k].0 == other);
        if k != j {
            if k < j {
                assert(rs[k].0 != rs[j].0);
            } else {
                assert(rs[j].0 != rs[k].0);
            }
        }
    } else {
        assert forall|k: int| 0 <= k < pushed.len() implies #[trigger] pushed[k].0 != other by {
            if k < last {
                assert(rs[k].0 != other);
            }
        }
    }
}

impl View for ImageRegistry {
    type V = Seq<ImageRecord>;

    closed spec fn view(&self) -> Seq<ImageRecord> {
        image_records(self.entries@)
    }
}

impl ImageRegistry {
    #[verifier::type_invariant]
    closed spec fn inv(self) -> bool {
        unique_ids(self@)
    }

    /// No registered images.
    pub fn new() -> (r: Self)
        ensures
            r@ == Seq::<ImageRecord>::empty(),
    {
        let r = ImageRegistry { entries: Vec::new() };
        assert(r@ =~= Seq::<ImageRecord>::empty());
        r
    }

    fn position(&self, id: &ResourceId) -> (pos: Option<usize>)
        ensures
            match pos {
                Some(i) => i < self@.len() && self@[i as int].0 == id.bytes@,
                None => forall|i: int| 0 <= i < self@.len() ==> #[trigger] self@[i].0 != id.bytes@,
            },
    {
        let n = self.entries.len();
        let mut i: usize = 0;
        while i < n
            invariant
                n == self@.len(),
                n == self.entries@.len(),
                self@ == image_records(self.entries@),
                0 <= i <= n,
                forall|j: int| 0 <= j < i ==> #[trigger] self@[j].0 != id.bytes@,
            decreases n - i,
        {
            if same_resource(&self.entries[i].id, id) {
                return Some(i);
            }
            i = i + 1;
        }
        None
    }

    /// Register decoded RGBA bytes for a resource. Zero-sized images, images
    /// whose byte count overflows, and resources already registered are
    /// ignored (content addressing makes the bytes identical).
    pub fn register_image_bytes(&mut self, resource_id: ResourceId, rgba_data: Vec<u8>, width: u32, height: u32)
        ensures
            (!image_dims_ok(width, height) || lookup(old(self)@, resource_id.bytes@) is Some)
                ==> final(self)@ == old(self)@,
            (image_dims_ok(width, height) && lookup(old(self)@, resource_id.bytes@) is None)
                ==> final(self)@ == old(self)@.push(
                (resource_id.bytes@, rgba_data@, width, height),
            ),
    {
        proof {
            use_type_invariant(&*self);
        }
        if !image_dims_admissible(width, height) {
            return;
        }
        match self.position(&resource_id) {
            Some(i) => {
                assert(self@[i as int].0 == resource_id.bytes@);
            },
            None => {
                let ghost before = self@;
                let mut entries: Vec<RegisteredImage> = Vec::new();
                std::mem::swap(&mut entries, &mut self.entries);
                entries.push(RegisteredImage { id: resource_id, rgba: rgba_data, width, height });
                let ghost after = image_records(entries@);
                assert(after =~= before.push((resource_id.bytes@, rgba_data@, width, height)));
                self.entries = entries;
            },
        }
    }

    /// The registered bytes and dimensions of a resource.
    pub fn get(&self, id: &ResourceId) -> (r: Option<&RegisteredImage>)
        ensures
            match r {
                Some(e) => lookup(self@, id.bytes@) == Some(
                    (e.id.bytes@, e.rgba@, e.width, e.height),
                ),
                None => lookup(self@, id.bytes@) is None,
            },
    {
        proof {
            use_type_invariant(self);
        }
        match self.position(id) {
            Some(i) => {
                let e = &self.entries[i];
                proof {
                    let k = choose|k: int| 0 <= k < self@.len() && #[trigger] self@[k].0 == id.bytes@;
                    assert(k == i);
                }
                Some(e)
            },
            None => None,
        }
    }

    /// Drop the registrations of resources that are not in `referenced`.
    pub fn evict_unused(&mut self, referenced: &[ResourceId])
        ensures
            final(self)@ == old(self)@.filter(|r: ImageRecord| is_referenced(referenced@, r.0)),
    {
        proof {
            use_type_invariant(&*self);
        }
        let ghost keep = |r: ImageRecord| is_referenced(referenced@, r.0);
        let ghost orig = self@;
        let mut old_entries: Vec<RegisteredImage> = Vec::new();
        std::mem::swap(&mut old_entries, &mut self.entries);
        let original_len = old_entries.len();
        let mut kept: Vec<RegisteredImage> = Vec::new();
        let mut taken: usize = 0;
        assert(image_records(kept@) =~= orig.take(0).filter(keep)) by {
            reveal(Seq::filter);
            assert(orig.take(0) =~= Seq::<ImageRecord>::empty());
        }
        assert(orig.skip(0) =~= orig);
        while old_entries.len() > 0
            invariant
                image_records(kept@) == orig.take(taken as int).filter(keep),
                image_records(old_entries@) == orig.skip(taken as int),
                taken <= orig.len(),
                orig.len() == original_len,
                keep == (|r: ImageRecord| is_referenced(referenced@, r.0)),
                old_entries@.len() == orig.len() - taken,
                unique_ids(orig),
                unique_ids(image_records(kept@)),
                forall|i: int|
                    0 <= i < kept@.len() ==> exists|j: int|
                        0 <= j < taken && #[trigger] image_records(kept@)[i] == orig[j],
            decreases old_entries@.len(),
        {
            let ghost rest = old_entries@;
            let e = old_entries.remove(0);
            let mut referenced_now = false;
            let mut k: usize = 0;
            while k < referenced.len()
                invariant
                    0 <= k <= referenced@.len(),
                    referenced_now == exists|j: int| 0 <= j < k && #[trigger] referenced@[j].bytes@ == e.id.bytes@,
                decreases referenced@.len() - k,
            {
                if same_resource(&referenced[k], &e.id) {
                    referenced_now = true;
                }
                k = k + 1;
            }
            let ghost rec = (e.id.bytes@, e.rgba@, e.width, e.height);
            assert(referenced_now == is_referenced(referenced@, rec.0)) by {
                assert(k == referenced@.len());
                if referenced_now {
                    let j = choose|j: int| 0 <= j < k && #[trigger] referenced@[j].bytes@ == e.id.bytes@;
                    assert(referenced@[j].bytes@ == rec.0);
                } else {
                    assert forall|j: int| 0 <= j < referenced@.len() implies #[trigger] referenced@[j].bytes@ != rec.0 by {
                        assert(referenced@[j].bytes@ != e.id.bytes@);
                    }
                }
            }
            assert(rec == orig[taken as int]) by {
                assert(e == rest[0]);
                assert(image_records(rest)[0] == rec);
                assert(image_records(rest)[0] == orig.skip(taken as int)[0]);
            }
            assert(keep(rec) == referenced_now);
            let ghost t = taken as int;
            assert(orig.take(taken + 1) =~= orig.take(taken as int).push(rec));
            assert(orig.take(taken as int).push(rec).filter(keep) == if keep(rec) {
                orig.take(taken as int).filter(keep).push(rec)
            } else {
                orig.take(taken as int).filter(keep)
            }) by {
                reveal(Seq::filter);
                assert(orig.take(taken as int).push(rec).drop_last() =~= orig.take(taken as int));
            }
            let ghost kept_before = image_records(kept@);
            if referenced_now {
                kept.push(e);
                assert(image_records(kept@) =~= kept_before.push(rec));
                assert forall|i: int, j: int| 0 <= i < j < image_records(kept@).len() implies #[trigger] image_records(kept@)[i].0 != #[trigger] image_records(kept@)[j].0 by {
                    if j == kept_before.len() {
                        let m = choose|m: int| 0 <= m < taken && #[trigger] kept_before[i] == orig[m];
                        assert(orig[m].0 != orig[taken as int].0);
                    } else {
                        assert(kept_before[i].0 != kept_before[j].0);
                    }
                }
                assert forall|i: int| 0 <= i < kept@.len() implies exists|j: int|
                    0 <= j < taken + 1 && #[trigger] image_records(kept@)[i] == orig[j] by {
                    if i == kept_before.len() {
                        assert(image_records(kept@)[i] == orig[taken as int]);
                    } else {
                        let m = choose|m: int| 0 <= m < taken && #[trigger] kept_before[i] == orig[m];
                        assert(image_records(kept@)[i] == orig[m]);
                    }
                }
            } else {
                assert forall|i: int| 0 <= i < kept@.len() implies exists|j: int|
                    0 <= j < taken + 1 && #[trigger] image_records(kept@)[i] == orig[j] by {
                    let m = choose|m: int| 0 <= m < taken && #[trigger] kept_before[i] == orig[m];
                    assert(image_records(kept@)[i] == orig[m]);
                }
            }
            assert(image_records(old_entries@) =~= orig.skip(taken + 1)) by {
                assert(old_entries@ =~= rest.subrange(1, rest.len() as int));
                assert forall|i: int| 0 <= i < old_entries@.len() implies
                    #[trigger] image_records(old_entries@)[i] == orig.skip(taken + 1)[i] by {
                    assert(old_entries@[i] == rest[i + 1]);
                    assert(image_records(rest)[i + 1] == orig.skip(taken as int)[i + 1]);
                }
            }
            assert(image_records(kept@) == orig.take(t + 1).filter(keep)) by {
                if referenced_now {
                    assert(image_records(kept@) =~= kept_before.push(rec));
                } else {
                    assert(image_records(kept@) =~= kept_before);
                }
            }
            taken = taken + 1;
        }
        assert(orig.take(orig.len() as int) =~= orig);
        self.entries = kept;
    }
}

} // verus!
