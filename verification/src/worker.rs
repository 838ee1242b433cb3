use vstd::prelude::*;

verus! {

use vstd::string::StringSliceAdditionalSpecFns;
use crate::SyncError;
use crate::bundle::{
    ImageBundle, ImageBundleV, ThumbnailV, Thumbnail, bundle_views, bundles_wf, spec_bundles,
    spec_metadata, spec_offset, spec_composite, find_member, images_wf,
};
use crate::images::{ImageV, jpeg_of};
use crate::queue::SyncCommand;
use crate::scanner::{
    Directory, FileEntry, FileEntryV, entry_views, image_views, spec_image_entries,
    spec_images_of, spec_sort,
};
use crate::sandbox::spec_to_absolute;
use crate::sidecar::{spec_sidecar, thumb_views};

/// One composite sprite file to persist: its generated name and JPEG bytes.
pub struct CompositeArtifact {
    pub file_name: Vec<u8>,
    pub data: Vec<u8>,
}

/// The mathematical value of a `CompositeArtifact`.
pub ghost struct CompositeArtifactV {
    pub file_name: Seq<u8>,
    pub data: Seq<u8>,
}

impl View for CompositeArtifact {
    type V = CompositeArtifactV;

    open spec fn view(&self) -> CompositeArtifactV {
        CompositeArtifactV { file_name: self.file_name@, data: self.data@ }
    }
}

/// The values of a sequence of composite artifacts.
pub open spec fn composite_views(s: Seq<CompositeArtifact>) -> Seq<CompositeArtifactV> {
    s.map_values(|c: CompositeArtifact| c@)
}

/// Everything one sync pass produces for a directory: the composite images
/// and the sidecar document, each under the file name to write it to.
pub struct SyncOutput {
    pub composites: Vec<CompositeArtifact>,
    pub sidecar_name: Vec<u8>,
    pub sidecar: Vec<u8>,
}

/// The mathematical value of a `SyncOutput`.
pub ghost struct SyncOutputV {
    pub composites: Seq<CompositeArtifactV>,
    pub sidecar_name: Seq<u8>,
    pub sidecar: Seq<u8>,
}

impl View for SyncOutput {
    type V = SyncOutputV;

    open spec fn view(&self) -> SyncOutputV {
        SyncOutputV {
            composites: composite_views(self.composites@),
            sidecar_name: self.sidecar_name@,
            sidecar: self.sidecar@,
        }
    }
}

/// The composite artifact of each bundle: its generated file name and the
/// JPEG encoding of its composed canvas.
pub open spec fn spec_composites(bs: Seq<ImageBundleV>, images: Seq<ImageV>) -> Seq<
    CompositeArtifactV,
> {
    Seq::new(
        bs.len(),
        |k: int|
            CompositeArtifactV {
                file_name: bs[k].file_name,
                data: jpeg_of(
                    spec_offset(bs[k].images, bs[k].images.len() as int) as u32,
                    bs[k].height,
                    spec_composite(bs[k], images),
                ),
            },
    )
}

/// The first bundle holding a member with image id `id`, or `-1`.
pub open spec fn find_bundle(bs: Seq<ImageBundleV>, id: u32) -> int
    decreases bs.len(),
{
    if bs.len() == 0 {
        -1
    } else if find_member(bs[0].images, id) >= 0 {
        0
    } else {
        let s = find_bundle(bs.skip(1), id);
        if s < 0 {
            -1
        } else {
            s + 1
        }
    }
}

proof fn lemma_find_bundle_at(bs: Seq<ImageBundleV>, id: u32, k: int)
    requires
        0 <= k <= bs.len(),
        forall|k2: int| 0 <= k2 < k ==> find_member((#[trigger] bs[k2]).images, id) < 0,
        k < bs.len() ==> find_member(bs[k].images, id) >= 0,
    ensures
        find_bundle(bs, id) == if k == bs.len() {
            -1int
        } else {
            k
        },
    decreases k,
{
    if k > 0 {
        let rest = bs.skip(1);
        assert(forall|k2: int|
            0 <= k2 < k - 1 ==> rest[k2] == bs[k2 + 1] && find_member(
                (#[trigger] rest[k2]).images,
                id,
            ) < 0);
        lemma_find_bundle_at(rest, id, k - 1);
    }
}

/// The sidecar entries, one per image in id order: each image looked up in
/// the first bundle holding it.
pub open spec fn spec_entries(bs: Seq<ImageBundleV>, images: Seq<ImageV>, n: int) -> Seq<
    ThumbnailV,
>
    decreases n,
{
    if n <= 0 {
        Seq::empty()
    } else {
        let pre = spec_entries(bs, images, n - 1);
        let k = find_bundle(bs, images[n - 1].id);
        if k < 0 {
            pre
        } else {
            match spec_metadata(bs[k], images[n - 1].id) {
                Option::Some(t) => pre.push(t),
                Option::None => pre,
            }
        }
    }
}

fn find_entry(bundles: &Vec<ImageBundle>, id: u32) -> (r: Option<Thumbnail>)
    requires
        forall|k: int|
            0 <= k < bundle_views(bundles@).len() ==> (#[trigger] bundle_views(bundles@)[
                k
            ]).wf(),
    ensures
        (match r {
            Some(t) => find_bundle(bundle_views(bundles@), id) >= 0 && spec_metadata(
                bundle_views(bundles@)[find_bundle(bundle_views(bundles@), id)],
                id,
            ) == Some(t@),
            None => find_bundle(bundle_views(bundles@), id) < 0,
        }),
{
    let ghost bsv = bundle_views(bundles@);
    let n = bundles.len();
    let mut k: usize = 0;
    while k < n
        invariant
            k <= n,
            n == bundles@.len(),
            bsv == bundle_views(bundles@),
            forall|k2: int| 0 <= k2 < n ==> (#[trigger] bsv[k2]).wf(),
            forall|k2: int| 0 <= k2 < k ==> find_member((#[trigger] bsv[k2]).images, id) < 0,
        decreases n - k,
    {
        proof {
            assert(bundles@[k as int]@ == bsv[k as int]);
        }
        match bundles[k].extract_metadata(id) {
            Some(t) => {
                proof {
                    assert(spec_metadata(bsv[k as int], id) == Some(t@));
                    assert(find_member(bsv[k as int].images, id) >= 0);
                    lemma_find_bundle_at(bsv, id, k as int);
                }
                return Some(t);
            },
            None => {
                proof {
                    assert(spec_metadata(bsv[k as int], id) is None);
                    assert(find_member(bsv[k as int].images, id) < 0);
                }
            },
        }
        k = k + 1;
    }
    proof {
        lemma_find_bundle_at(bsv, id, n as int);
    }
    None
}

impl Directory {
    /// Composes and encodes every bundle's sprite image and serializes the
    /// sidecar describing every image of the directory, in image id order.
    /// Nothing is written here: the artifacts are returned as bytes under
    /// the file names to store them at.
    pub fn save(&self, bundles: &Vec<ImageBundle>) -> (r: SyncOutput)
        requires
            self@.wf(),
            bundles_wf(
                bundle_views(bundles@),
                self@.images,
                self@.images.len() as int,
                self@.absolute_path,
                self@.relative_path,
            ),
        ensures
            r@.composites == spec_composites(bundle_views(bundles@), self@.images),
            r@.sidecar_name == "bundles.json".spec_bytes(),
            r@.sidecar == spec_sidecar(
                spec_entries(bundle_views(bundles@), self@.images, self@.images.len() as int),
            ),
    {
        let ghost bsv = bundle_views(bundles@);
        let ghost imgs = self@.images;
        proof {
            assert(images_wf(imgs));
        }
        let bn = bundles.len();
        let mut composites: Vec<CompositeArtifact> = Vec::new();
        let mut k: usize = 0;
        assert(composite_views(composites@) =~= spec_composites(bsv, imgs).take(0));
        while k < bn
            invariant
                k <= bn,
                bn == bundles@.len(),
                bsv == bundle_views(bundles@),
                imgs == self@.images,
                self@.wf(),
                bundles_wf(bsv, imgs, imgs.len() as int, self@.absolute_path, self@.relative_path),
                composite_views(composites@) == spec_composites(bsv, imgs).take(k as int),
            decreases bn - k,
        {
            let ghost pre = composite_views(composites@);
            proof {
                assert(bundles@[k as int]@ == bsv[k as int]);
                assert(bsv[k as int].wf());
                assert(bsv[k as int].linked(imgs));
                assert(images_wf(imgs));
            }
            let b = &bundles[k];
            let data = b.create_thumbnails(&self.images);
            let art = CompositeArtifact {
                file_name: crate::bytes::clone_bytes(&b.file_name),
                data,
            };
            proof {
                assert(spec_composites(bsv, imgs)[k as int] == CompositeArtifactV {
                    file_name: bsv[k as int].file_name,
                    data: jpeg_of(
                        spec_offset(
                            bsv[k as int].images,
                            bsv[k as int].images.len() as int,
                        ) as u32,
                        bsv[k as int].height,
                        spec_composite(bsv[k as int], imgs),
                    ),
                });
                assert(art@.file_name == bsv[k as int].file_name);
                assert(imgs == image_views(self.images@));
                assert(art@.data == jpeg_of(
                    spec_offset(
                        bsv[k as int].images,
                        bsv[k as int].images.len() as int,
                    ) as u32,
                    bsv[k as int].height,
                    spec_composite(bsv[k as int], imgs),
                ));
                assert(art@ == spec_composites(bsv, imgs)[k as int]);
            }
            let ghost prev_vec = composites@;
            composites.push(art);
            proof {
                assert(composites@ == prev_vec.push(art));
                assert(bsv.len() == bundles@.len());
                assert(spec_composites(bsv, imgs).len() == bsv.len());
                assert(pre.len() == prev_vec.len());
                assert(pre == spec_composites(bsv, imgs).take(k as int));
                assert(prev_vec.len() == k as int);
                assert forall|j: int|
                    0 <= j < k + 1 implies #[trigger] composite_views(composites@)[j]
                    == spec_composites(bsv, imgs).take(k as int + 1)[j] by {
                    assert(composite_views(composites@)[j] == composites@[j]@);
                    assert(spec_composites(bsv, imgs).take(k as int + 1)[j]
                        == spec_composites(bsv, imgs)[j]);
                    if j < k {
                        assert(composites@[j] == prev_vec[j]);
                        assert(pre[j] == prev_vec[j]@);
                        assert(pre[j] == spec_composites(bsv, imgs).take(k as int)[j]);
                    } else {
                        assert(composites@[j] == art);
                    }
                }
                assert(composite_views(composites@) =~= spec_composites(bsv, imgs).take(
                    k as int + 1,
                ));
            }
            k = k + 1;
        }
        proof {
            assert(spec_composites(bsv, imgs).take(bn as int) =~= spec_composites(bsv, imgs));
        }
        let ni = self.images.len();
        let mut entries: Vec<Thumbnail> = Vec::new();
        let mut i: usize = 0;
        assert(thumb_views(entries@) =~= spec_entries(bsv, imgs, 0));
        while i < ni
            invariant
                i <= ni,
                ni == self.images@.len(),
                bsv == bundle_views(bundles@),
                imgs == self@.images,
                self@.wf(),
                bundles_wf(bsv, imgs, imgs.len() as int, self@.absolute_path, self@.relative_path),
                thumb_views(entries@) == spec_entries(bsv, imgs, i as int),
            decreases ni - i,
        {
            let ghost pre = thumb_views(entries@);
            proof {
                assert(self.images@[i as int]@ == imgs[i as int]);
                assert(forall|k2: int| 0 <= k2 < bsv.len() ==> (#[trigger] bsv[k2]).wf());
            }
            let id = self.images[i].id;
            match find_entry(bundles, id) {
                Some(t) => {
                    entries.push(t);
                    proof {
                        assert(thumb_views(entries@) =~= pre.push(t@));
                    }
                },
                None => {},
            }
            i = i + 1;
        }
        let sidecar = crate::sidecar::render_sidecar(&entries);
        let mut sidecar_name: Vec<u8> = Vec::new();
        crate::bytes::push_str_bytes(&mut sidecar_name, "bundles.json");
        assert(sidecar_name@ =~= "bundles.json".spec_bytes());
        SyncOutput { composites, sidecar_name, sidecar }
    }
}

/// What one sync pass produces for a command and a directory listing, as a
/// function of nothing else: the resolved directory, its sorted and decoded
/// images, their bundles, each bundle's encoded composite, and the sidecar —
/// or nothing, when the path escapes the root or an image fails to decode.
pub open spec fn spec_sync_output(
    root: Seq<u8>,
    rel: Seq<u8>,
    listing: Seq<FileEntryV>,
) -> Option<SyncOutputV> {
    match spec_to_absolute(root, rel) {
        Option::None => Option::None,
        Option::Some(abs) => match spec_images_of(spec_image_entries(spec_sort(listing))) {
            Option::None => Option::None,
            Option::Some(images) => {
                let bs = spec_bundles(images, images.len() as int, abs, rel);
                Option::Some(
                    SyncOutputV {
                        composites: spec_composites(bs, images),
                        sidecar_name: "bundles.json".spec_bytes(),
                        sidecar: spec_sidecar(spec_entries(bs, images, images.len() as int)),
                    },
                )
            },
        },
    }
}

/// Runs the whole pipeline for one command over the listing of the
/// directory it names: scan, thumbnail, bundle, compose, describe. Errors
/// are reported, never panicked on, so the worker loop survives any failing
/// command and stays ready for the next.
pub fn run_sync_command(cmd: &SyncCommand, entries: Vec<FileEntry>) -> (r: Result<
    SyncOutput,
    SyncError,
>)
    requires
        entries@.len() <= u32::MAX,
    ensures
        (match cmd {
            SyncCommand::SyncDirectory(root, rel) => r is Ok <==> spec_sync_output(
                root@,
                rel@,
                entry_views(entries@),
            ) is Some,
        }),
        (match (cmd, r) {
            (SyncCommand::SyncDirectory(root, rel), Ok(out)) => spec_sync_output(
                root@,
                rel@,
                entry_views(entries@),
            ) == Some(out@),
            (SyncCommand::SyncDirectory(root, rel), Err(e)) => {
                &&& (e == SyncError::InvalidPath <==> spec_to_absolute(root@, rel@) is None)
                &&& (e != SyncError::InvalidPath ==> spec_images_of(
                    spec_image_entries(spec_sort(entry_views(entries@))),
                ) is None && exists|j: int|
                    crate::scanner::fails_first_at(
                        spec_image_entries(spec_sort(entry_views(entries@))),
                        j,
                        e,
                    ))
            },
        }),
{
    let (root, rel) = match cmd {
        SyncCommand::SyncDirectory(root, rel) => (root, rel),
    };
    let context = crate::sandbox::ScannerContext::new(crate::bytes::clone_bytes(root));
    let directory = match context.scan(rel, entries) {
        Ok(d) => d,
        Err(e) => {
            return Err(e);
        },
    };
    let bundles = ImageBundle::from_directory(&directory);
    Ok(directory.save(&bundles))
}

proof fn lemma_find_member_props(ms: Seq<crate::bundle::BundleMemberV>, id: u32)
    ensures
        find_member(ms, id) >= 0 ==> 0 <= find_member(ms, id) < ms.len() && ms[find_member(
            ms,
            id,
        )].image_id == id,
    decreases ms.len(),
{
    if ms.len() > 0 && ms[0].image_id != id {
        lemma_find_member_props(ms.skip(1), id);
    }
}

proof fn lemma_find_member_found(ms: Seq<crate::bundle::BundleMemberV>, id: u32, j: int)
    requires
        0 <= j < ms.len(),
        ms[j].image_id == id,
    ensures
        find_member(ms, id) >= 0,
    decreases ms.len(),
{
    if ms[0].image_id != id {
        assert(ms.skip(1)[j - 1] == ms[j]);
        lemma_find_member_found(ms.skip(1), id, j - 1);
    }
}

proof fn lemma_find_bundle_props(bs: Seq<ImageBundleV>, id: u32)
    ensures
        find_bundle(bs, id) >= 0 ==> 0 <= find_bundle(bs, id) < bs.len() && find_member(
            bs[find_bundle(bs, id)].images,
            id,
        ) >= 0,
    decreases bs.len(),
{
    if bs.len() > 0 && find_member(bs[0].images, id) < 0 {
        lemma_find_bundle_props(bs.skip(1), id);
    }
}

proof fn lemma_find_bundle_found(bs: Seq<ImageBundleV>, id: u32, k: int)
    requires
        0 <= k < bs.len(),
        find_member(bs[k].images, id) >= 0,
    ensures
        find_bundle(bs, id) >= 0,
    decreases bs.len(),
{
    if find_member(bs[0].images, id) < 0 {
        assert(bs.skip(1)[k - 1] == bs[k]);
        lemma_find_bundle_found(bs.skip(1), id, k - 1);
    }
}

/// The sidecar describes the whole directory: one entry per image, in image
/// id order, each carrying that image's file name, dimensions and byte
/// size, independent of how the images were spread over bundles.
pub proof fn lemma_sidecar_covers_all_images(
    bs: Seq<ImageBundleV>,
    images: Seq<ImageV>,
    n: int,
    abs: Seq<u8>,
    rel: Seq<u8>,
)
    requires
        0 <= n <= images.len(),
        images.len() <= u32::MAX,
        forall|i: int|
            0 <= i < images.len() ==> (#[trigger] images[i]).wf() && images[i].id == i + 1,
        bundles_wf(bs, images, images.len() as int, abs, rel),
    ensures
        spec_entries(bs, images, n).len() == n,
        forall|i: int|
            0 <= i < n ==> {
                let t = #[trigger] spec_entries(bs, images, n)[i];
                &&& t.original_name == images[i].file_name
                &&& t.width == images[i].width
                &&& t.height == images[i].height
                &&& t.file_size == images[i].size as u32
            },
    decreases n,
{
    if n > 0 {
        lemma_sidecar_covers_all_images(bs, images, n - 1, abs, rel);
        let pre = spec_entries(bs, images, n - 1);
        let id = images[n - 1].id;
        assert(crate::bundle::covered(bs, n - 1));
        let (k, j): (int, int) = choose|k: int, j: int|
            0 <= k < bs.len() && 0 <= j < bs[k].images.len() && #[trigger] bs[k].images[j].index
                == n - 1;
        assert(bs[k].linked(images));
        assert(bs[k].images[j] == crate::bundle::member_of(images, n - 1));
        assert(bs[k].images[j].image_id == id);
        lemma_find_member_found(bs[k].images, id, j);
        lemma_find_bundle_found(bs, id, k);
        let kk = find_bundle(bs, id);
        lemma_find_bundle_props(bs, id);
        let ms = bs[kk].images;
        lemma_find_member_props(ms, id);
        let jj = find_member(ms, id);
        assert(bs[kk].linked(images));
        let m = ms[jj];
        assert(m == crate::bundle::member_of(images, m.index));
        assert(m.image_id == images[m.index].id == m.index + 1);
        assert(m.index == n - 1);
        let t = spec_metadata(bs[kk], id)->Some_0;
        assert(spec_entries(bs, images, n) == pre.push(t));
        assert(t.original_name == images[n - 1].file_name);
        assert(t.width == images[n - 1].width);
        assert(t.height == bs[kk].height == images[n - 1].height);
        assert(t.file_size == images[n - 1].size as u32);
        assert(forall|i: int|
            0 <= i < n - 1 ==> #[trigger] spec_entries(bs, images, n)[i] == pre[i]);
    }
}

/// Re-syncing an unchanged directory produces byte-identical artifacts, the
/// sidecar included: the pipeline's output is a function of the root, the
/// relative path and the directory listing alone, and of nothing else.
pub proof fn lemma_sync_deterministic(
    root1: Seq<u8>,
    rel1: Seq<u8>,
    listing1: Seq<FileEntryV>,
    root2: Seq<u8>,
    rel2: Seq<u8>,
    listing2: Seq<FileEntryV>,
)
    requires
        root1 == root2,
        rel1 == rel2,
        listing1 == listing2,
    ensures
        spec_sync_output(root1, rel1, listing1) == spec_sync_output(root2, rel2, listing2),
        spec_sync_output(root1, rel1, listing1) matches Some(o1) ==> spec_sync_output(
            root2,
            rel2,
            listing2,
        ) matches Some(o2) && o1.sidecar == o2.sidecar,
{
}

} // verus!
