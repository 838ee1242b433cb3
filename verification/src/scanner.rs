use vstd::prelude::*;

verus! {

use vstd::string::StringSliceAdditionalSpecFns;
use crate::SyncError;
use crate::bytes::{lex_lt, bytes_le};
use crate::images::{Image, ImageV, decodes, thumb_of};
use crate::sandbox::{ScannerContext, spec_to_absolute};

/// One immediate entry of the scanned directory, as the surrounding program
/// lists it: its file name, whether it is a regular file, its byte size, and
/// — for entries offered as images — its raw file bytes.
pub struct FileEntry {
    pub name: Vec<u8>,
    pub is_file: bool,
    pub size: u64,
    pub data: Vec<u8>,
}

/// The mathematical value of a `FileEntry`.
pub ghost struct FileEntryV {
    pub name: Seq<u8>,
    pub is_file: bool,
    pub size: u64,
    pub data: Seq<u8>,
}

impl View for FileEntry {
    type V = FileEntryV;

    open spec fn view(&self) -> FileEntryV {
        FileEntryV { name: self.name@, is_file: self.is_file, size: self.size, data: self.data@ }
    }
}

/// The values of a sequence of entries.
pub open spec fn entry_views(s: Seq<FileEntry>) -> Seq<FileEntryV> {
    s.map_values(|e: FileEntry| e@)
}

/// The values of a sequence of images.
pub open spec fn image_views(s: Seq<Image>) -> Seq<ImageV> {
    s.map_values(|i: Image| i@)
}

/// One scanned directory: where it lives and the images found in it, in
/// stable 1-based id order.
pub struct Directory {
    pub id: u32,
    pub absolute_path: Vec<u8>,
    pub relative_path: Vec<u8>,
    pub file_count: u32,
    pub total_size: u64,
    pub images: Vec<Image>,
}

/// The mathematical value of a `Directory`.
pub ghost struct DirectoryV {
    pub id: u32,
    pub absolute_path: Seq<u8>,
    pub relative_path: Seq<u8>,
    pub file_count: u32,
    pub total_size: u64,
    pub images: Seq<ImageV>,
}

impl View for Directory {
    type V = DirectoryV;

    open spec fn view(&self) -> DirectoryV {
        DirectoryV {
            id: self.id,
            absolute_path: self.absolute_path@,
            relative_path: self.relative_path@,
            file_count: self.file_count,
            total_size: self.total_size,
            images: image_views(self.images@),
        }
    }
}

impl DirectoryV {
    /// A well-formed directory: every image is well formed and ids are
    /// dense, 1-based, in order.
    pub open spec fn wf(self) -> bool {
        &&& self.images.len() <= u32::MAX
        &&& forall|i: int|
            0 <= i < self.images.len() ==> (#[trigger] self.images[i]).wf() && self.images[i].id
                == i + 1
    }
}

/// The index of the last `.` in `name`, or `-1` when there is none.
pub open spec fn last_dot(name: Seq<u8>) -> int
    decreases name.len(),
{
    if name.len() == 0 {
        -1
    } else if name.last() == 46 {
        name.len() - 1
    } else {
        last_dot(name.drop_last())
    }
}

/// The extension of `name`: what follows the last `.`, provided that dot is
/// neither absent nor the leading byte (a name that starts with its only dot
/// has no extension).
pub open spec fn spec_extension(name: Seq<u8>) -> Option<Seq<u8>> {
    let p = last_dot(name);
    if p <= 0 {
        Option::None
    } else {
        Option::Some(name.skip(p + 1))
    }
}

/// A regular file whose extension is exactly `jpg` counts as an image.
pub open spec fn spec_is_image(e: FileEntryV) -> bool {
    e.is_file && spec_extension(e.name) == Some("jpg".spec_bytes())
}

/// The entries that count as images, in their given order.
pub open spec fn spec_image_entries(s: Seq<FileEntryV>) -> Seq<FileEntryV>
    decreases s.len(),
{
    if s.len() == 0 {
        Seq::empty()
    } else if spec_is_image(s.last()) {
        spec_image_entries(s.drop_last()).push(s.last())
    } else {
        spec_image_entries(s.drop_last())
    }
}

/// Stable insertion of `e` into the (sorted) sequence `s`: before the first
/// entry whose name orders strictly after `e`'s.
pub open spec fn spec_insert(e: FileEntryV, s: Seq<FileEntryV>) -> Seq<FileEntryV>
    decreases s.len(),
{
    if s.len() == 0 {
        seq![e]
    } else if lex_lt(e.name, s[0].name) {
        seq![e] + s
    } else {
        seq![s[0]] + spec_insert(e, s.skip(1))
    }
}

/// Insertion sort of the entries by file name, byte-wise ascending; the
/// deterministic order the scanner assigns ids in.
pub open spec fn spec_sort(s: Seq<FileEntryV>) -> Seq<FileEntryV>
    decreases s.len(),
{
    if s.len() == 0 {
        s
    } else {
        spec_insert(s.last(), spec_sort(s.drop_last()))
    }
}

pub proof fn lemma_insert_len(e: FileEntryV, s: Seq<FileEntryV>)
    ensures
        spec_insert(e, s).len() == s.len() + 1,
    decreases s.len(),
{
    if s.len() > 0 && !lex_lt(e.name, s[0].name) {
        lemma_insert_len(e, s.skip(1));
    }
}

pub proof fn lemma_sort_len(s: Seq<FileEntryV>)
    ensures
        spec_sort(s).len() == s.len(),
    decreases s.len(),
{
    if s.len() > 0 {
        lemma_sort_len(s.drop_last());
        lemma_insert_len(s.last(), spec_sort(s.drop_last()));
    }
}

/// The images a listing yields: each image entry decoded in sorted order,
/// ids assigned densely from 1 — or nothing, when any entry fails to decode.
pub open spec fn spec_images_of(files: Seq<FileEntryV>) -> Option<Seq<ImageV>>
    decreases files.len(),
{
    if files.len() == 0 {
        Option::Some(Seq::empty())
    } else {
        match spec_images_of(files.drop_last()) {
            Option::None => Option::None,
            Option::Some(pre) => match thumb_of(files.last().data) {
                Option::None => Option::None,
                Option::Some(t) => Option::Some(
                    pre.push(
                        ImageV {
                            id: (pre.len() + 1) as u32,
                            file_name: files.last().name,
                            width: t.0,
                            height: t.1,
                            size: files.last().size,
                            thumbnail: t.2,
                        },
                    ),
                ),
            },
        }
    }
}

/// The scan's failure report: entry `j` of the image entries is the first
/// that does not decode to a thumbnail, and `e` is its exact kind —
/// `DecodeError` when the bytes do not decode at all, `UnsupportedFormat`
/// when they decode but do not normalize to the truecolor format.
pub open spec fn fails_first_at(files: Seq<FileEntryV>, j: int, e: crate::SyncError) -> bool {
    &&& 0 <= j < files.len()
    &&& thumb_of(files[j].data) is None
    &&& forall|k: int| 0 <= k < j ==> thumb_of((#[trigger] files[k]).data) is Some
    &&& (e == crate::SyncError::DecodeError <==> !decodes(files[j].data))
    &&& (e == crate::SyncError::UnsupportedFormat <==> decodes(files[j].data))
}

proof fn lemma_images_all_some(files: Seq<FileEntryV>)
    requires
        spec_images_of(files) is Some,
    ensures
        forall|j: int| 0 <= j < files.len() ==> thumb_of((#[trigger] files[j]).data) is Some,
    decreases files.len(),
{
    if files.len() > 0 {
        lemma_images_all_some(files.drop_last());
        assert(forall|j: int|
            0 <= j < files.len() - 1 ==> files[j] == files.drop_last()[j]);
    }
}

proof fn lemma_images_none_extends(s: Seq<FileEntryV>, t: Seq<FileEntryV>)
    requires
        spec_images_of(s) is None,
    ensures
        spec_images_of(s + t) is None,
    decreases t.len(),
{
    if t.len() == 0 {
        assert(s + t =~= s);
    } else {
        assert((s + t).drop_last() =~= s + t.drop_last());
        lemma_images_none_extends(s, t.drop_last());
    }
}

proof fn lemma_image_entries_concat(a: Seq<FileEntryV>, b: Seq<FileEntryV>)
    ensures
        spec_image_entries(a + b) == spec_image_entries(a) + spec_image_entries(b),
    decreases b.len(),
{
    if b.len() == 0 {
        assert(a + b =~= a);
        assert(spec_image_entries(a) + spec_image_entries(b) =~= spec_image_entries(a));
    } else {
        assert((a + b).drop_last() =~= a + b.drop_last());
        assert((a + b).last() == b.last());
        lemma_image_entries_concat(a, b.drop_last());
        if spec_is_image(b.last()) {
            assert(spec_image_entries(a) + spec_image_entries(b.drop_last()).push(b.last()) =~= (
            spec_image_entries(a) + spec_image_entries(b.drop_last())).push(b.last()));
        }
    }
}

proof fn lemma_spec_insert_at(e: FileEntryV, s: Seq<FileEntryV>, idx: int)
    requires
        0 <= idx <= s.len(),
        forall|k: int| 0 <= k < idx ==> !lex_lt(e.name, (#[trigger] s[k]).name),
        idx < s.len() ==> lex_lt(e.name, s[idx].name),
    ensures
        spec_insert(e, s) == s.take(idx) + seq![e] + s.skip(idx),
    decreases idx,
{
    if idx == 0 {
        assert(spec_insert(e, s) =~= s.take(0) + seq![e] + s.skip(0));
    } else {
        assert(!lex_lt(e.name, s[0].name));
        let rest = s.skip(1);
        assert(forall|k: int|
            0 <= k < idx - 1 ==> rest[k] == s[k + 1] && !lex_lt(
                e.name,
                (#[trigger] rest[k]).name,
            ));
        lemma_spec_insert_at(e, rest, idx - 1);
        assert(seq![s[0]] + (rest.take(idx - 1) + seq![e] + rest.skip(idx - 1)) =~= s.take(idx)
            + seq![e] + s.skip(idx));
    }
}

fn find_insert_pos(v: &Vec<FileEntry>, e: &FileEntry) -> (idx: usize)
    ensures
        idx <= v@.len(),
        forall|k: int| 0 <= k < idx ==> !lex_lt(e@.name, (#[trigger] entry_views(v@)[k]).name),
        idx < v@.len() ==> lex_lt(e@.name, entry_views(v@)[idx as int].name),
{
    let n = v.len();
    let mut idx: usize = 0;
    while idx < n
        invariant
            idx <= n,
            n == v@.len(),
            forall|k: int|
                0 <= k < idx ==> !lex_lt(e@.name, (#[trigger] entry_views(v@)[k]).name),
        decreases n - idx,
    {
        let le = bytes_le(&v[idx].name, &e.name);
        if !le {
            assert(lex_lt(e@.name, entry_views(v@)[idx as int].name));
            return idx;
        }
        assert(!lex_lt(e@.name, entry_views(v@)[idx as int].name));
        idx = idx + 1;
    }
    idx
}

fn insert_sorted(v: &mut Vec<FileEntry>, e: FileEntry)
    ensures
        entry_views(final(v)@) == spec_insert(e@, entry_views(old(v)@)),
{
    let idx = find_insert_pos(v, &e);
    proof {
        lemma_spec_insert_at(e@, entry_views(v@), idx as int);
    }
    v.insert(idx, e);
    proof {
        assert(entry_views(v@) =~= entry_views(old(v)@).take(idx as int) + seq![e@] + entry_views(
            old(v)@,
        ).skip(idx as int));
    }
}

/// Sorts directory entries by file name, byte-wise ascending; equal names
/// keep their relative order.
pub fn sort_entries(entries: Vec<FileEntry>) -> (r: Vec<FileEntry>)
    ensures
        entry_views(r@) == spec_sort(entry_views(entries@)),
    decreases entries@.len(),
{
    let ghost orig = entries@;
    let mut entries = entries;
    match entries.pop() {
        None => {
            assert(entry_views(orig) =~= spec_sort(entry_views(orig)));
            entries
        },
        Some(e) => {
            proof {
                assert(entries@ == orig.drop_last());
                assert(entry_views(orig).drop_last() =~= entry_views(orig.drop_last()));
                assert(entry_views(orig).last() == e@);
            }
            let mut sorted = sort_entries(entries);
            insert_sorted(&mut sorted, e);
            sorted
        },
    }
}

/// The extension of `name`, as `spec_extension` gives it.
pub fn extension_of(name: &Vec<u8>) -> (r: Option<Vec<u8>>)
    ensures
        (match r {
            Some(e) => spec_extension(name@) == Some(e@),
            None => spec_extension(name@) is None,
        }),
{
    let n = name.len();
    let mut i: usize = n;
    assert(name@.take(n as int) =~= name@);
    while i > 0 && name[i - 1] != 46
        invariant
            i <= n,
            n == name@.len(),
            last_dot(name@) == last_dot(name@.take(i as int)),
        decreases i,
    {
        assert(name@.take(i as int).last() == name@[i as int - 1]);
        assert(name@.take(i as int).drop_last() =~= name@.take(i as int - 1));
        i = i - 1;
    }
    if i == 0 {
        assert(name@.take(0) =~= Seq::<u8>::empty());
        assert(last_dot(name@) == -1);
        return None;
    }
    let p = i - 1;
    assert(name@.take(i as int).last() == name@[p as int]);
    assert(last_dot(name@) == p);
    if p == 0 {
        return None;
    }
    let mut ext: Vec<u8> = Vec::new();
    let mut j: usize = p + 1;
    while j < n
        invariant
            p + 1 <= j <= n,
            n == name@.len(),
            ext@ == name@.subrange(p as int + 1, j as int),
        decreases n - j,
    {
        ext.push(name[j]);
        assert(ext@ =~= name@.subrange(p as int + 1, j as int + 1));
        j = j + 1;
    }
    assert(ext@ =~= name@.skip(p as int + 1));
    Some(ext)
}

impl Directory {
    /// Whether a directory entry is a regular file with the supported image
    /// extension.
    pub fn is_image(entry: &FileEntry) -> (r: bool)
        ensures
            r == spec_is_image(entry@),
    {
        if !entry.is_file {
            return false;
        }
        match extension_of(&entry.name) {
            Some(ext) => crate::bytes::bytes_eq(&ext, "jpg".as_bytes()),
            None => false,
        }
    }
}

impl ScannerContext {
    /// Builds the `Directory` for one listing: resolves the relative path
    /// under the root, sorts the entries by name, keeps the image files, and
    /// decodes each into a thumbnail, assigning dense 1-based ids in sorted
    /// order. A single entry that fails to decode aborts the whole scan.
    pub fn scan(&self, path: &Vec<u8>, entries: Vec<FileEntry>) -> (r: Result<
        Directory,
        SyncError,
    >)
        requires
            entries@.len() <= u32::MAX,
        ensures
            (match r {
                Ok(dir) => {
                    &&& spec_to_absolute(self.base_dir@, path@) == Some(dir@.absolute_path)
                    &&& dir@.relative_path == path@
                    &&& dir@.id == 0
                    &&& dir@.file_count == 0
                    &&& dir@.total_size == 0
                    &&& spec_images_of(spec_image_entries(spec_sort(entry_views(entries@))))
                        == Some(dir@.images)
                    &&& dir@.wf()
                },
                Err(e) => {
                    &&& (e == SyncError::InvalidPath <==> spec_to_absolute(
                        self.base_dir@,
                        path@,
                    ) is None)
                    &&& (e != SyncError::InvalidPath ==> spec_images_of(
                        spec_image_entries(spec_sort(entry_views(entries@))),
                    ) is None && exists|j: int|
                        fails_first_at(
                            spec_image_entries(spec_sort(entry_views(entries@))),
                            j,
                            e,
                        ))
                },
            }),
    {
        let abs_path = match self.to_absolute_path(path) {
            Ok(a) => a,
            Err(e) => {
                return Err(e);
            },
        };
        let ghost evs = entry_views(entries@);
        proof {
            lemma_sort_len(evs);
        }
        let sorted = sort_entries(entries);
        let ghost svs = entry_views(sorted@);
        let n = sorted.len();
        let mut images: Vec<Image> = Vec::new();
        let mut i: usize = 0;
        assert(svs.take(0) =~= Seq::<FileEntryV>::empty());
        while i < n
            invariant
                i <= n,
                n == sorted@.len(),
                n <= u32::MAX,
                svs == entry_views(sorted@),
                svs == spec_sort(evs),
                evs == entry_views(entries@),
                spec_to_absolute(self.base_dir@, path@) is Some,
                spec_images_of(spec_image_entries(svs.take(i as int))) == Some(
                    image_views(images@),
                ),
                images@.len() <= i,
                forall|k: int|
                    0 <= k < images@.len() ==> (#[trigger] image_views(images@)[k]).wf()
                        && image_views(images@)[k].id == k + 1,
            decreases n - i,
        {
            let ghost pre = spec_image_entries(svs.take(i as int));
            let ghost prev_views = image_views(images@);
            proof {
                assert(svs.take(i as int + 1).drop_last() =~= svs.take(i as int));
                assert(svs.take(i as int + 1).last() == svs[i as int]);
                assert(svs[i as int] == sorted@[i as int]@);
            }
            if Directory::is_image(&sorted[i]) {
                proof {
                    assert(spec_image_entries(svs.take(i as int + 1)) == pre.push(
                        svs[i as int],
                    ));
                    assert(pre.push(svs[i as int]).drop_last() =~= pre);
                    assert(pre.push(svs[i as int]).last() == svs[i as int]);
                }
                let id = (images.len() as u32) + 1;
                match Image::from_path(&sorted[i], id) {
                    Ok(img) => {
                        proof {
                            assert(img@.id == prev_views.len() + 1);
                        }
                        images.push(img);
                        proof {
                            assert(image_views(images@) =~= prev_views.push(img@));
                        }
                    },
                    Err(e) => {
                        proof {
                            assert(spec_images_of(spec_image_entries(svs.take(i as int + 1)))
                                is None);
                            assert(svs =~= svs.take(i as int + 1) + svs.skip(i as int + 1));
                            lemma_image_entries_concat(
                                svs.take(i as int + 1),
                                svs.skip(i as int + 1),
                            );
                            lemma_images_none_extends(
                                spec_image_entries(svs.take(i as int + 1)),
                                spec_image_entries(svs.skip(i as int + 1)),
                            );
                            let flt = spec_image_entries(svs);
                            let jw = pre.len() as int;
                            lemma_image_entries_concat(
                                svs.take(i as int),
                                svs.skip(i as int),
                            );
                            assert(svs =~= svs.take(i as int) + svs.skip(i as int));
                            assert(flt == pre + spec_image_entries(svs.skip(i as int)));
                            assert(spec_image_entries(svs.skip(i as int)).len() > 0) by {
                                assert(flt.len() == spec_image_entries(svs.take(i as int
                                    + 1)).len() + spec_image_entries(svs.skip(i as int
                                    + 1)).len());
                                assert(spec_image_entries(svs.take(i as int + 1)) == pre.push(
                                    svs[i as int],
                                ));
                            }
                            assert(flt[jw] == spec_image_entries(svs.skip(i as int))[0]);
                            assert(spec_image_entries(svs.take(i as int + 1))
                                == pre.push(svs[i as int]));
                            assert(flt == pre.push(svs[i as int]) + spec_image_entries(
                                svs.skip(i as int + 1),
                            ));
                            assert(flt[jw] == svs[i as int]);
                            lemma_images_all_some(pre);
                            assert(forall|k: int| 0 <= k < jw ==> flt[k] == pre[k]);
                            assert(fails_first_at(flt, jw, e));
                        }
                        return Err(e);
                    },
                }
            } else {
                proof {
                    assert(spec_image_entries(svs.take(i as int + 1)) == pre);
                }
            }
            i = i + 1;
        }
        assert(svs.take(n as int) =~= svs);
        let dir = Directory {
            id: 0,
            absolute_path: abs_path,
            relative_path: crate::bytes::clone_bytes(path),
            file_count: 0,
            total_size: 0,
            images,
        };
        Ok(dir)
    }
}

} // verus!
