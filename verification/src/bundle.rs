use vstd::prelude::*;

verus! {

use vstd::string::StringSliceAdditionalSpecFns;
use crate::bytes::dec_rep;
use crate::images::{Image, ImageV, jpeg_of};
use crate::scanner::{Directory, DirectoryV, image_views};

/// How many members a bundle may hold.
pub const BUNDLE_CAPACITY: usize = 8;

/// A back-reference from a bundle to one image of the directory: its
/// position in the directory's image list plus the fields the sidecar needs.
pub struct BundleMember {
    pub index: usize,
    pub image_id: u32,
    pub width: u32,
    pub file_name: Vec<u8>,
    pub file_size: u64,
}

/// The mathematical value of a `BundleMember`.
pub ghost struct BundleMemberV {
    pub index: int,
    pub image_id: u32,
    pub width: u32,
    pub file_name: Seq<u8>,
    pub file_size: u64,
}

impl View for BundleMember {
    type V = BundleMemberV;

    open spec fn view(&self) -> BundleMemberV {
        BundleMemberV {
            index: self.index as int,
            image_id: self.image_id,
            width: self.width,
            file_name: self.file_name@,
            file_size: self.file_size,
        }
    }
}

/// A capacity-limited group of same-height thumbnails destined for one
/// composite sprite image.
pub struct ImageBundle {
    pub id: u32,
    pub absolute_path: Vec<u8>,
    pub relative_path: Vec<u8>,
    pub file_name: Vec<u8>,
    pub height: u32,
    pub images: Vec<BundleMember>,
}

/// The mathematical value of an `ImageBundle`.
pub ghost struct ImageBundleV {
    pub id: u32,
    pub absolute_path: Seq<u8>,
    pub relative_path: Seq<u8>,
    pub file_name: Seq<u8>,
    pub height: u32,
    pub images: Seq<BundleMemberV>,
}

impl View for ImageBundle {
    type V = ImageBundleV;

    open spec fn view(&self) -> ImageBundleV {
        ImageBundleV {
            id: self.id,
            absolute_path: self.absolute_path@,
            relative_path: self.relative_path@,
            file_name: self.file_name@,
            height: self.height,
            images: self.images@.map_values(|m: BundleMember| m@),
        }
    }
}

/// The values of a sequence of bundles.
pub open spec fn bundle_views(s: Seq<ImageBundle>) -> Seq<ImageBundleV> {
    s.map_values(|b: ImageBundle| b@)
}

/// One sidecar entry: where one thumbnail sits inside its bundle's composite
/// image, plus the original file's name and size.
#[derive(Debug)]
pub struct Thumbnail {
    pub relative_base_path: Vec<u8>,
    pub absolute_base_path: Vec<u8>,
    pub thumbnail_name: Vec<u8>,
    pub position_x: u32,
    pub width: u32,
    pub height: u32,
    pub original_name: Vec<u8>,
    pub file_size: u32,
}

/// The mathematical value of a `Thumbnail`.
pub ghost struct ThumbnailV {
    pub relative_base_path: Seq<u8>,
    pub absolute_base_path: Seq<u8>,
    pub thumbnail_name: Seq<u8>,
    pub position_x: u32,
    pub width: u32,
    pub height: u32,
    pub original_name: Seq<u8>,
    pub file_size: u32,
}

impl View for Thumbnail {
    type V = ThumbnailV;

    open spec fn view(&self) -> ThumbnailV {
        ThumbnailV {
            relative_base_path: self.relative_base_path@,
            absolute_base_path: self.absolute_base_path@,
            thumbnail_name: self.thumbnail_name@,
            position_x: self.position_x,
            width: self.width,
            height: self.height,
            original_name: self.original_name@,
            file_size: self.file_size,
        }
    }
}

/// The generated file name of bundle `id`: `thumbs_<id>.jpg`.
pub open spec fn spec_thumbs_name(id: u32) -> Seq<u8> {
    "thumbs_".spec_bytes() + dec_rep(id as nat) + ".jpg".spec_bytes()
}

/// The member entry referencing image `idx` of `images`.
pub open spec fn member_of(images: Seq<ImageV>, idx: int) -> BundleMemberV {
    BundleMemberV {
        index: idx,
        image_id: images[idx].id,
        width: images[idx].width,
        file_name: images[idx].file_name,
        file_size: images[idx].size,
    }
}

impl ImageBundleV {
    /// A well-formed bundle: a bounded, non-empty member list, bounded
    /// positive dimensions.
    pub open spec fn wf(self) -> bool {
        &&& 1 <= self.images.len() <= BUNDLE_CAPACITY
        &&& 1 <= self.height <= crate::images::THUMBNAIL_BOUND
        &&& forall|j: int|
            0 <= j < self.images.len() ==> 1 <= (#[trigger] self.images[j]).width
                <= crate::images::THUMBNAIL_BOUND
    }

    /// The bundle's members correctly reference `images`: each back-reference
    /// is in range, carries that image's fields, and the image has the
    /// bundle's common height.
    pub open spec fn linked(self, images: Seq<ImageV>) -> bool {
        forall|j: int|
            0 <= j < self.images.len() ==> {
                let m = #[trigger] self.images[j];
                &&& 0 <= m.index < images.len()
                &&& m == member_of(images, m.index)
                &&& images[m.index].height == self.height
            }
    }
}

/// Whether `b` can take one more image of height `h`: equal height and room
/// below the capacity bound.
pub open spec fn bundle_fits(b: ImageBundleV, h: u32) -> bool {
    b.height == h && b.images.len() < BUNDLE_CAPACITY
}

/// The first bundle (in creation order) that fits height `h`, or `-1`.
pub open spec fn ff_slot(bs: Seq<ImageBundleV>, h: u32) -> int
    decreases bs.len(),
{
    if bs.len() == 0 {
        -1
    } else if bundle_fits(bs[0], h) {
        0
    } else {
        let s = ff_slot(bs.skip(1), h);
        if s < 0 {
            -1
        } else {
            s + 1
        }
    }
}

proof fn lemma_ff_slot_range(bs: Seq<ImageBundleV>, h: u32)
    ensures
        -1 <= ff_slot(bs, h) < bs.len(),
        ff_slot(bs, h) >= 0 ==> bundle_fits(bs[ff_slot(bs, h)], h),
    decreases bs.len(),
{
    if bs.len() > 0 && !bundle_fits(bs[0], h) {
        lemma_ff_slot_range(bs.skip(1), h);
    }
}

proof fn lemma_ff_slot_at(bs: Seq<ImageBundleV>, h: u32, j: int)
    requires
        0 <= j <= bs.len(),
        forall|k: int| 0 <= k < j ==> !bundle_fits(#[trigger] bs[k], h),
        j < bs.len() ==> bundle_fits(bs[j], h),
    ensures
        ff_slot(bs, h) == if j == bs.len() {
            -1int
        } else {
            j
        },
    decreases j,
{
    if j > 0 {
        let rest = bs.skip(1);
        assert(forall|k: int|
            0 <= k < j - 1 ==> rest[k] == bs[k + 1] && !bundle_fits(#[trigger] rest[k], h));
        lemma_ff_slot_at(rest, h, j - 1);
    }
}

/// The bundle opened for image `idx`, as bundle number `id`.
pub open spec fn new_bundle_of(
    images: Seq<ImageV>,
    idx: int,
    id: u32,
    abs: Seq<u8>,
    rel: Seq<u8>,
) -> ImageBundleV {
    ImageBundleV {
        id: id,
        absolute_path: abs,
        relative_path: rel,
        file_name: spec_thumbs_name(id),
        height: images[idx].height,
        images: seq![member_of(images, idx)],
    }
}

/// One first-fit step: image `i` joins the first bundle with its height and
/// spare room, or opens a new bundle at the end.
pub open spec fn ff_step(
    bs: Seq<ImageBundleV>,
    images: Seq<ImageV>,
    i: int,
    abs: Seq<u8>,
    rel: Seq<u8>,
) -> Seq<ImageBundleV> {
    let h = images[i].height;
    let s = ff_slot(bs, h);
    if s >= 0 {
        bs.update(
            s,
            ImageBundleV {
                id: bs[s].id,
                absolute_path: bs[s].absolute_path,
                relative_path: bs[s].relative_path,
                file_name: bs[s].file_name,
                height: bs[s].height,
                images: bs[s].images.push(member_of(images, i)),
            },
        )
    } else {
        bs.push(new_bundle_of(images, i, (bs.len() + 1) as u32, abs, rel))
    }
}

/// The bundles after the first `n` images have been placed, in creation
/// order.
pub open spec fn spec_bundles(
    images: Seq<ImageV>,
    n: int,
    abs: Seq<u8>,
    rel: Seq<u8>,
) -> Seq<ImageBundleV>
    decreases n,
{
    if n <= 0 {
        Seq::empty()
    } else {
        ff_step(spec_bundles(images, n - 1, abs, rel), images, n - 1, abs, rel)
    }
}

/// The bundles built for a whole directory.
pub open spec fn spec_bundles_of(dir: DirectoryV) -> Seq<ImageBundleV> {
    spec_bundles(dir.images, dir.images.len() as int, dir.absolute_path, dir.relative_path)
}

/// Some bundle of `bs` references image `idx`.
pub open spec fn covered(bs: Seq<ImageBundleV>, idx: int) -> bool {
    exists|k: int, j: int|
        0 <= k < bs.len() && 0 <= j < bs[k].images.len() && #[trigger] bs[k].images[j].index
            == idx
}

/// Everything first-fit placement guarantees of the bundles for the first
/// `n` images: dense ids and generated file names, the directory's paths,
/// well-formed linked bundles, and the members a partition of the images:
/// each of the first `n` images referenced by exactly one member.
pub open spec fn bundles_wf(
    bs: Seq<ImageBundleV>,
    images: Seq<ImageV>,
    n: int,
    abs: Seq<u8>,
    rel: Seq<u8>,
) -> bool {
    &&& forall|k: int|
        0 <= k < bs.len() ==> (#[trigger] bs[k]).id == k + 1 && bs[k].file_name
            == spec_thumbs_name((k + 1) as u32) && bs[k].absolute_path == abs
            && bs[k].relative_path == rel && bs[k].wf() && bs[k].linked(images)
    &&& forall|k: int, j: int|
        0 <= k < bs.len() && 0 <= j < bs[k].images.len() ==> 0 <= (#[trigger] bs[k].images[
            j
        ]).index < n
    &&& forall|k1: int, j1: int, k2: int, j2: int|
        #![trigger bs[k1].images[j1], bs[k2].images[j2]]
        0 <= k1 < bs.len() && 0 <= j1 < bs[k1].images.len() && 0 <= k2 < bs.len() && 0 <= j2
            < bs[k2].images.len() && (k1 != k2 || j1 != j2) ==> bs[k1].images[j1].index
            != bs[k2].images[j2].index
    &&& forall|idx: int| 0 <= idx < n ==> covered(bs, idx)
}

/// First-fit placement builds well-formed bundles: ids dense from 1, file
/// names `thumbs_<id>.jpg`, at most `BUNDLE_CAPACITY` members each, every
/// member of a bundle an image of the bundle's height, and every image in
/// exactly one bundle.
pub proof fn lemma_bundles_wf(images: Seq<ImageV>, n: int, abs: Seq<u8>, rel: Seq<u8>)
    requires
        0 <= n <= images.len(),
        images.len() <= u32::MAX,
        forall|i: int|
            0 <= i < images.len() ==> (#[trigger] images[i]).wf() && images[i].id == i + 1,
    ensures
        bundles_wf(spec_bundles(images, n, abs, rel), images, n, abs, rel),
        spec_bundles(images, n, abs, rel).len() <= n,
    decreases n,
{
    if n > 0 {
        lemma_bundles_wf(images, n - 1, abs, rel);
        let bs = spec_bundles(images, n - 1, abs, rel);
        let bs2 = spec_bundles(images, n, abs, rel);
        let i = n - 1;
        let h = images[i].height;
        let s = ff_slot(bs, h);
        lemma_ff_slot_range(bs, h);
        if s >= 0 {
            let m = member_of(images, i);
            let old_b = bs[s];
            let new_b = ImageBundleV {
                id: old_b.id,
                absolute_path: old_b.absolute_path,
                relative_path: old_b.relative_path,
                file_name: old_b.file_name,
                height: old_b.height,
                images: old_b.images.push(m),
            };
            assert(bs2 == bs.update(s, new_b));
            // every previously covered image stays covered in place
            assert forall|idx: int| 0 <= idx < n implies covered(bs2, idx) by {
                if idx < n - 1 {
                    assert(covered(bs, idx));
                    let (k, j): (int, int) = choose|k: int, j: int|
                        0 <= k < bs.len() && 0 <= j < bs[k].images.len() && #[trigger] bs[
                            k
                        ].images[j].index == idx;
                    assert(bs2[k].images[j].index == idx);
                } else {
                    assert(bs2[s].images[old_b.images.len() as int].index == i);
                }
            }
        } else {
            let nb = new_bundle_of(images, i, (bs.len() + 1) as u32, abs, rel);
            assert(bs2 == bs.push(nb));
            assert(nb.wf());
            assert(nb.linked(images));
            assert forall|idx: int| 0 <= idx < n implies covered(bs2, idx) by {
                if idx < n - 1 {
                    assert(covered(bs, idx));
                    let (k, j): (int, int) = choose|k: int, j: int|
                        0 <= k < bs.len() && 0 <= j < bs[k].images.len() && #[trigger] bs[
                            k
                        ].images[j].index == idx;
                    assert(bs2[k].images[j].index == idx);
                } else {
                    assert(bs2[bs.len() as int].images[0].index == i);
                }
            }
        }
    }
}

fn find_slot(bundles: &Vec<ImageBundle>, h: u32) -> (slot: usize)
    ensures
        slot <= bundles@.len(),
        forall|k: int| 0 <= k < slot ==> !bundle_fits(#[trigger] bundle_views(bundles@)[k], h),
        slot < bundles@.len() ==> bundle_fits(bundle_views(bundles@)[slot as int], h),
{
    let n = bundles.len();
    let mut j: usize = 0;
    while j < n
        invariant
            j <= n,
            n == bundles@.len(),
            forall|k: int| 0 <= k < j ==> !bundle_fits(#[trigger] bundle_views(bundles@)[k], h),
        decreases n - j,
    {
        if bundles[j].height == h && bundles[j].images.len() < BUNDLE_CAPACITY {
            assert(bundle_fits(bundle_views(bundles@)[j as int], h));
            return j;
        }
        assert(!bundle_fits(bundle_views(bundles@)[j as int], h));
        j = j + 1;
    }
    j
}

/// Every bundle built for a directory holds at least one and at most
/// `BUNDLE_CAPACITY` members, and every member references an image of the
/// bundle's common height.
pub proof fn lemma_bundle_capacity_and_uniform_height(dir: DirectoryV, k: int)
    requires
        dir.wf(),
        0 <= k < spec_bundles_of(dir).len(),
    ensures
        1 <= spec_bundles_of(dir)[k].images.len() <= BUNDLE_CAPACITY,
        forall|j: int|
            0 <= j < spec_bundles_of(dir)[k].images.len() ==> dir.images[(
            #[trigger] spec_bundles_of(dir)[k].images[j]).index].height == spec_bundles_of(
                dir,
            )[k].height,
{
    lemma_bundles_wf(dir.images, dir.images.len() as int, dir.absolute_path, dir.relative_path);
    let bs = spec_bundles_of(dir);
    assert(bs[k].wf());
    assert(bs[k].linked(dir.images));
}

/// Builds the thumbnail name `thumbs_<id>.jpg`.
fn thumbs_name(id: u32) -> (r: Vec<u8>)
    ensures
        r@ == spec_thumbs_name(id),
{
    let mut out: Vec<u8> = Vec::new();
    crate::bytes::push_str_bytes(&mut out, "thumbs_");
    let digits = crate::bytes::u32_dec(id);
    crate::bytes::push_bytes(&mut out, digits.as_slice());
    crate::bytes::push_str_bytes(&mut out, ".jpg");
    out
}

impl ImageBundle {
    /// Groups a directory's images into bundles, first-fit in scan order:
    /// each image joins the first bundle (in creation order) of its height
    /// with spare room, or opens a new bundle. Same-height images may split
    /// across bundles once one fills; creation order, not height, decides
    /// the generated file names.
    pub fn from_directory(dir: &Directory) -> (r: Vec<ImageBundle>)
        requires
            dir@.wf(),
        ensures
            bundle_views(r@) == spec_bundles_of(dir@),
            bundles_wf(
                bundle_views(r@),
                dir@.images,
                dir@.images.len() as int,
                dir@.absolute_path,
                dir@.relative_path,
            ),
            r@.len() <= dir@.images.len(),
    {
        let ghost imgs = dir@.images;
        let ghost abs = dir@.absolute_path;
        let ghost rel = dir@.relative_path;
        let n = dir.images.len();
        let mut bundles: Vec<ImageBundle> = Vec::new();
        let mut i: usize = 0;
        assert(bundle_views(bundles@) =~= spec_bundles(imgs, 0, abs, rel));
        while i < n
            invariant
                i <= n,
                n == dir.images@.len(),
                n <= u32::MAX,
                imgs == dir@.images,
                abs == dir@.absolute_path,
                rel == dir@.relative_path,
                dir@.wf(),
                bundle_views(bundles@) == spec_bundles(imgs, i as int, abs, rel),
                bundles@.len() <= i,
            decreases n - i,
        {
            let ghost bsv = bundle_views(bundles@);
            let img = &dir.images[i];
            proof {
                assert(img@ == imgs[i as int]);
                assert(imgs[i as int].wf());
            }
            let h = img.height;
            let bn = bundles.len();
            let slot = find_slot(&bundles, h);
            let member = BundleMember {
                index: i,
                image_id: img.id,
                width: img.width,
                file_name: crate::bytes::clone_bytes(&img.file_name),
                file_size: img.size,
            };
            proof {
                assert(member@ == member_of(imgs, i as int));
            }
            if slot < bn {
                proof {
                    lemma_ff_slot_at(bsv, h, slot as int);
                }
                let ghost bvec = bundles@;
                let mut b = bundles.remove(slot);
                proof {
                    assert(b == bvec[slot as int]);
                }
                b.images.push(member);
                proof {
                    assert(b@.images =~= bsv[slot as int].images.push(
                        member_of(imgs, i as int),
                    ));
                }
                bundles.insert(slot, b);
                proof {
                    let updated = bsv[slot as int];
                    assert(bundles@ =~= bvec.update(slot as int, b));
                    assert(bundle_views(bundles@) =~= bsv.update(
                        slot as int,
                        ImageBundleV {
                            id: updated.id,
                            absolute_path: updated.absolute_path,
                            relative_path: updated.relative_path,
                            file_name: updated.file_name,
                            height: updated.height,
                            images: updated.images.push(member_of(imgs, i as int)),
                        },
                    ));
                }
            } else {
                proof {
                    lemma_ff_slot_at(bsv, h, bn as int);
                }
                let id = (bundles.len() as u32) + 1;
                let bundle = ImageBundle {
                    id,
                    absolute_path: crate::bytes::clone_bytes(&dir.absolute_path),
                    relative_path: crate::bytes::clone_bytes(&dir.relative_path),
                    file_name: thumbs_name(id),
                    height: h,
                    images: vec![member],
                };
                proof {
                    assert(bundle@.images =~= seq![member_of(imgs, i as int)]);
                    assert(bundle@ == new_bundle_of(
                        imgs,
                        i as int,
                        (bsv.len() + 1) as u32,
                        abs,
                        rel,
                    ));
                }
                bundles.push(bundle);
                proof {
                    assert(bundle_views(bundles@) =~= bsv.push(
                        new_bundle_of(imgs, i as int, (bsv.len() + 1) as u32, abs, rel),
                    ));
                }
            }
            i = i + 1;
        }
        proof {
            lemma_bundles_wf(imgs, n as int, abs, rel);
        }
        bundles
    }
}

/// The x offset of member `k`: the summed widths of the members before it.
pub open spec fn spec_offset(ms: Seq<BundleMemberV>, k: int) -> int
    decreases k,
{
    if k <= 0 {
        0
    } else {
        spec_offset(ms, k - 1) + ms[k - 1].width
    }
}

/// Offsets grow at least one per member and at most the thumbnail bound.
pub proof fn lemma_offset_bounds(ms: Seq<BundleMemberV>, k: int)
    requires
        0 <= k <= ms.len(),
        forall|j: int|
            0 <= j < ms.len() ==> 1 <= (#[trigger] ms[j]).width
                <= crate::images::THUMBNAIL_BOUND,
    ensures
        k <= spec_offset(ms, k) <= k * (crate::images::THUMBNAIL_BOUND as int),
    decreases k,
{
    if k > 0 {
        lemma_offset_bounds(ms, k - 1);
    }
}

/// Within each bundle the member offsets strictly increase, and the last
/// member's offset plus its width equals the bundle's composite width (the
/// offset past the final member).
pub proof fn lemma_offsets_strictly_increase(b: ImageBundleV)
    requires
        b.wf(),
    ensures
        forall|k1: int, k2: int|
            0 <= k1 < k2 < b.images.len() ==> spec_offset(b.images, k1) < spec_offset(
                b.images,
                k2,
            ),
        spec_offset(b.images, b.images.len() - 1) + b.images[b.images.len() - 1].width
            == spec_offset(b.images, b.images.len() as int),
{
    assert forall|k1: int, k2: int| 0 <= k1 < k2 < b.images.len() implies spec_offset(
        b.images,
        k1,
    ) < spec_offset(b.images, k2) by {
        lemma_offset_lt(b.images, k1, k2);
    }
}

proof fn lemma_offset_lt(ms: Seq<BundleMemberV>, k1: int, k2: int)
    requires
        0 <= k1 < k2 <= ms.len(),
        forall|j: int|
            0 <= j < ms.len() ==> 1 <= (#[trigger] ms[j]).width
                <= crate::images::THUMBNAIL_BOUND,
    ensures
        spec_offset(ms, k1) < spec_offset(ms, k2),
    decreases k2,
{
    if k1 < k2 - 1 {
        lemma_offset_lt(ms, k1, k2 - 1);
    }
}

/// The first member carrying `id`, or `-1`.
pub open spec fn find_member(ms: Seq<BundleMemberV>, id: u32) -> int
    decreases ms.len(),
{
    if ms.len() == 0 {
        -1
    } else if ms[0].image_id == id {
        0
    } else {
        let s = find_member(ms.skip(1), id);
        if s < 0 {
            -1
        } else {
            s + 1
        }
    }
}

proof fn lemma_find_member_at(ms: Seq<BundleMemberV>, id: u32, j: int)
    requires
        0 <= j <= ms.len(),
        forall|k: int| 0 <= k < j ==> (#[trigger] ms[k]).image_id != id,
        j < ms.len() ==> ms[j].image_id == id,
    ensures
        find_member(ms, id) == if j == ms.len() {
            -1int
        } else {
            j
        },
    decreases j,
{
    if j > 0 {
        let rest = ms.skip(1);
        assert(forall|k: int|
            0 <= k < j - 1 ==> rest[k] == ms[k + 1] && (#[trigger] rest[k]).image_id != id);
        lemma_find_member_at(rest, id, j - 1);
    }
}

/// The sidecar entry `extract_metadata` yields for image `id`, if the bundle
/// holds it: its first member carrying that id, at the offset given by the
/// widths of the members before it.
pub open spec fn spec_metadata(b: ImageBundleV, id: u32) -> Option<ThumbnailV> {
    let j = find_member(b.images, id);
    if j < 0 {
        Option::None
    } else {
        Option::Some(
            ThumbnailV {
                relative_base_path: b.relative_path,
                absolute_base_path: b.absolute_path,
                thumbnail_name: b.file_name,
                position_x: spec_offset(b.images, j) as u32,
                width: b.images[j].width,
                height: b.height,
                original_name: b.images[j].file_name,
                file_size: b.images[j].file_size as u32,
            },
        )
    }
}

impl ImageBundle {
    /// Looks image `id` up in this bundle: its sidecar entry, with the x
    /// offset within the composite, or nothing when the bundle does not hold
    /// that image.
    pub fn extract_metadata(&self, id: u32) -> (r: Option<Thumbnail>)
        requires
            self@.wf(),
        ensures
            (match r {
                Some(t) => spec_metadata(self@, id) == Some(t@),
                None => spec_metadata(self@, id) is None,
            }),
    {
        let ghost ms = self@.images;
        let n = self.images.len();
        let mut offset: u32 = 0;
        let mut j: usize = 0;
        while j < n
            invariant
                j <= n,
                n == self.images@.len(),
                n <= BUNDLE_CAPACITY,
                ms == self@.images,
                self@.wf(),
                offset == spec_offset(ms, j as int),
                forall|k: int| 0 <= k < j ==> (#[trigger] ms[k]).image_id != id,
            decreases n - j,
        {
            let m = &self.images[j];
            proof {
                assert(m@ == ms[j as int]);
                lemma_offset_bounds(ms, j as int);
            }
            if m.image_id == id {
                proof {
                    lemma_find_member_at(ms, id, j as int);
                }
                let t = Thumbnail {
                    relative_base_path: crate::bytes::clone_bytes(&self.relative_path),
                    absolute_base_path: crate::bytes::clone_bytes(&self.absolute_path),
                    thumbnail_name: crate::bytes::clone_bytes(&self.file_name),
                    position_x: offset,
                    width: m.width,
                    height: self.height,
                    original_name: crate::bytes::clone_bytes(&m.file_name),
                    file_size: #[verifier::truncate] (m.file_size as u32),
                };
                return Some(t);
            }
            offset = offset + m.width;
            j = j + 1;
        }
        proof {
            lemma_find_member_at(ms, id, n as int);
        }
        None
    }
}

/// Row `y` of one thumbnail's pixel buffer.
pub open spec fn row_of(img: ImageV, y: int) -> Seq<u8> {
    img.thumbnail.subrange(3 * img.width * y, 3 * img.width * (y + 1))
}

/// Row `y` of the composite, restricted to the first `k` members.
pub open spec fn row_upto(b: ImageBundleV, images: Seq<ImageV>, y: int, k: int) -> Seq<u8>
    decreases k,
{
    if k <= 0 {
        Seq::empty()
    } else {
        row_upto(b, images, y, k - 1) + row_of(images[b.images[k - 1].index], y)
    }
}

/// The first `y` rows of the composite.
pub open spec fn rows_upto(b: ImageBundleV, images: Seq<ImageV>, y: int) -> Seq<u8>
    decreases y,
{
    if y <= 0 {
        Seq::empty()
    } else {
        rows_upto(b, images, y - 1) + row_upto(b, images, y - 1, b.images.len() as int)
    }
}

/// The bundle's composite canvas: each member's thumbnail blitted
/// left-to-right at the offset given by the widths of the members before it,
/// row-major truecolor bytes.
pub open spec fn spec_composite(b: ImageBundleV, images: Seq<ImageV>) -> Seq<u8> {
    rows_upto(b, images, b.height as int)
}

/// All images a bundle references are well formed.
pub open spec fn images_wf(images: Seq<ImageV>) -> bool {
    forall|i: int| 0 <= i < images.len() ==> (#[trigger] images[i]).wf()
}

proof fn lemma_row_upto_len(b: ImageBundleV, images: Seq<ImageV>, y: int, k: int)
    requires
        b.wf(),
        b.linked(images),
        images_wf(images),
        0 <= y < b.height,
        0 <= k <= b.images.len(),
    ensures
        row_upto(b, images, y, k).len() == 3 * spec_offset(b.images, k),
    decreases k,
{
    if k > 0 {
        lemma_row_upto_len(b, images, y, k - 1);
        let m = b.images[k - 1];
        let img = images[m.index];
        assert(img.thumbnail.len() == 3 * img.width * img.height);
        assert(0 <= 3 * img.width * y && 3 * img.width * (y + 1) <= img.thumbnail.len()) by (nonlinear_arith)
            requires
                0 <= y < img.height,
                img.width >= 0,
                img.thumbnail.len() == 3 * img.width * img.height,
        ;
        assert(3 * img.width * (y + 1) - 3 * img.width * y == 3 * img.width) by (nonlinear_arith);
    }
}

proof fn lemma_rows_upto_len(b: ImageBundleV, images: Seq<ImageV>, y: int)
    requires
        b.wf(),
        b.linked(images),
        images_wf(images),
        0 <= y <= b.height,
    ensures
        rows_upto(b, images, y).len() == y * (3 * spec_offset(
            b.images,
            b.images.len() as int,
        )),
    decreases y,
{
    if y > 0 {
        lemma_rows_upto_len(b, images, y - 1);
        lemma_row_upto_len(b, images, y - 1, b.images.len() as int);
        let w3 = 3 * spec_offset(b.images, b.images.len() as int);
        assert(rows_upto(b, images, y).len() == (y - 1) * w3 + w3);
        assert((y - 1) * w3 + w3 == y * w3) by (nonlinear_arith);
        assert(rows_upto(b, images, y).len() == y * w3);
        assert(rows_upto(b, images, y).len() == y * (3 * spec_offset(
            b.images,
            b.images.len() as int,
        )));
    } else {
        assert(y == 0);
        assert(rows_upto(b, images, 0).len() == 0);
        assert(y * (3 * spec_offset(b.images, b.images.len() as int)) == 0) by (nonlinear_arith)
            requires
                y == 0,
        ;
    }
}

impl ImageBundle {
    /// Blits the bundle's thumbnails left-to-right into one composite
    /// canvas: total width the sum of member widths, height the bundle's
    /// common height.
    pub fn compose(&self, images: &Vec<Image>) -> (r: Vec<u8>)
        requires
            self@.wf(),
            self@.linked(image_views(images@)),
            images_wf(image_views(images@)),
        ensures
            r@ == spec_composite(self@, image_views(images@)),
            r@.len() == (self@.height as int) * (3 * spec_offset(
                self@.images,
                self@.images.len() as int,
            )),
    {
        let ghost ivs = image_views(images@);
        let ghost bv = self@;
        let mc = self.images.len();
        let h = self.height;
        let mut out: Vec<u8> = Vec::new();
        let mut y: u32 = 0;
        assert(out@ =~= rows_upto(bv, ivs, 0));
        while y < h
            invariant
                y <= h,
                h == bv.height,
                bv == self@,
                ivs == image_views(images@),
                mc == self.images@.len(),
                bv.wf(),
                bv.linked(ivs),
                images_wf(ivs),
                out@ == rows_upto(bv, ivs, y as int),
            decreases h - y,
        {
            let mut k: usize = 0;
            let ghost row_base = out@;
            assert(row_upto(bv, ivs, y as int, 0) =~= Seq::<u8>::empty());
            assert(out@ =~= row_base + row_upto(bv, ivs, y as int, 0));
            while k < mc
                invariant
                    k <= mc,
                    y < h,
                    h == bv.height,
                    bv == self@,
                    ivs == image_views(images@),
                    mc == self.images@.len(),
                    bv.wf(),
                    bv.linked(ivs),
                    images_wf(ivs),
                    row_base == rows_upto(bv, ivs, y as int),
                    out@ == row_base + row_upto(bv, ivs, y as int, k as int),
                decreases mc - k,
            {
                let ghost seg_base = out@;
                let m = &self.images[k];
                proof {
                    assert(m@ == bv.images[k as int]);
                }
                let idx = m.index;
                let img = &images[idx];
                proof {
                    assert(img@ == ivs[idx as int]);
                    assert(img@ == ivs[m@.index]);
                    assert(img@.wf());
                }
                let w = img.width;
                proof {
                    assert(1 <= w <= crate::images::THUMBNAIL_BOUND);
                    assert(img@.height <= crate::images::THUMBNAIL_BOUND);
                    assert(3 * (w as int) * (y as int) + 3 * (w as int) <= img@.thumbnail.len()
                        && 3 * (w as int) * (y as int) >= 0 && 3 * (w as int) * (y as int) + 3 * (
                    w as int) <= 197376) by (nonlinear_arith)
                        requires
                            0 <= (y as int) < img@.height,
                            img@.height <= 256,
                            w == img@.width,
                            0 <= w <= 256,
                            img@.thumbnail.len() == 3 * img@.width * img@.height,
                    ;
                }
                let base: usize = 3 * (w as usize) * (y as usize);
                let rowlen: usize = 3 * (w as usize);
                let mut j: usize = 0;
                assert(img@.thumbnail.subrange(base as int, base as int) =~= Seq::<u8>::empty());
                while j < rowlen
                    invariant
                        j <= rowlen,
                        base + rowlen <= img@.thumbnail.len(),
                        base + rowlen <= 197376,
                        base == 3 * (w as int) * (y as int),
                        rowlen == 3 * (w as int),
                        w == img@.width,
                        img.thumbnail@ == img@.thumbnail,
                        out@ == seg_base + img@.thumbnail.subrange(
                            base as int,
                            base as int + j as int,
                        ),
                    decreases rowlen - j,
                {
                    let px: u8 = img.thumbnail[base + j];
                    proof {
                        assert(px == img@.thumbnail[base as int + j as int]);
                    }
                    out.push(px);
                    assert(out@ =~= seg_base + img@.thumbnail.subrange(
                        base as int,
                        base as int + j as int + 1,
                    ));
                    j = j + 1;
                }
                proof {
                    assert(3 * (w as int) * ((y as int) + 1) == 3 * (w as int) * (y as int) + 3
                        * (w as int)) by (nonlinear_arith);
                    assert(row_of(img@, y as int) == img@.thumbnail.subrange(
                        base as int,
                        base as int + rowlen as int,
                    ));
                    assert(row_upto(bv, ivs, y as int, k as int + 1) == row_upto(
                        bv,
                        ivs,
                        y as int,
                        k as int,
                    ) + row_of(ivs[bv.images[k as int].index], y as int));
                    assert(out@ =~= row_base + row_upto(bv, ivs, y as int, k as int + 1));
                }
                k = k + 1;
            }
            proof {
                assert(rows_upto(bv, ivs, y as int + 1) == rows_upto(bv, ivs, y as int)
                    + row_upto(bv, ivs, y as int, bv.images.len() as int));
            }
            y = y + 1;
        }
        proof {
            lemma_rows_upto_len(bv, ivs, bv.height as int);
        }
        out
    }

    /// Composes this bundle's sprite image and encodes it as JPEG: the bytes
    /// to persist under the bundle's generated file name.
    pub fn create_thumbnails(&self, images: &Vec<Image>) -> (r: Vec<u8>)
        requires
            self@.wf(),
            self@.linked(image_views(images@)),
            images_wf(image_views(images@)),
        ensures
            r@ == jpeg_of(
                spec_offset(self@.images, self@.images.len() as int) as u32,
                self@.height,
                spec_composite(self@, image_views(images@)),
            ),
    {
        let ghost bv = self@;
        let pixels = self.compose(images);
        let n = self.images.len();
        let mut total: u32 = 0;
        let mut j: usize = 0;
        while j < n
            invariant
                j <= n,
                n == self.images@.len(),
                n <= BUNDLE_CAPACITY,
                bv == self@,
                bv.wf(),
                total == spec_offset(bv.images, j as int),
            decreases n - j,
        {
            proof {
                lemma_offset_bounds(bv.images, j as int);
                assert(self.images@[j as int]@ == bv.images[j as int]);
            }
            total = total + self.images[j].width;
            j = j + 1;
        }
        proof {
            lemma_offset_bounds(bv.images, n as int);
            assert((bv.height as int) * (3 * spec_offset(bv.images, n as int)) == 3 * (
            spec_offset(bv.images, n as int) as u32) * bv.height) by (nonlinear_arith)
                requires
                    0 <= spec_offset(bv.images, n as int) <= 2048,
                    total == spec_offset(bv.images, n as int),
            ;
        }
        crate::images::encode_jpeg(total, self.height, &pixels)
    }
}

} // verus!
