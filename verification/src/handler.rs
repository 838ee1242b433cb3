use vstd::prelude::*;

verus! {

use vstd::string::StringSliceAdditionalSpecFns;
use crate::SyncError;
use crate::bytes::is_prefix_of;
use crate::bytes::views_of;
use crate::sandbox::{ScannerContext, spec_to_absolute};
use crate::scanner::{FileEntry, FileEntryV, entry_views, extension_of, spec_extension, spec_sort,
    sort_entries};
use crate::sidecar::lit;

/// A file a previous sync pass left behind: the sidecar itself or a
/// composite image, recognized by its name.
pub open spec fn spec_is_stale_artifact(name: Seq<u8>) -> bool {
    name == "bundles.json".spec_bytes() || is_prefix_of("thumbs".spec_bytes(), name)
}

/// Whether `name` names a stale artifact of a previous sync pass.
pub fn is_stale_artifact(name: &Vec<u8>) -> (r: bool)
    ensures
        r == spec_is_stale_artifact(name@),
{
    if crate::bytes::bytes_eq(name, "bundles.json".as_bytes()) {
        return true;
    }
    crate::bytes::starts_with(name, "thumbs".as_bytes())
}

/// The names the coordinator deletes before enqueueing a rebuild: every
/// stale artifact, and only when the directory already has a sidecar.
pub open spec fn spec_cleanup(has_sidecar: bool, entries: Seq<FileEntryV>) -> Seq<Seq<u8>>
    decreases entries.len(),
{
    if !has_sidecar || entries.len() == 0 {
        Seq::empty()
    } else if spec_is_stale_artifact(entries.last().name) {
        spec_cleanup(has_sidecar, entries.drop_last()).push(entries.last().name)
    } else {
        spec_cleanup(has_sidecar, entries.drop_last())
    }
}

/// Plans the stale-artifact cleanup before a re-sync: the names to delete
/// from the directory, in listing order — every stale artifact when the
/// directory already carries a sidecar, nothing otherwise.
pub fn cleanup_plan(has_sidecar: bool, entries: &Vec<FileEntry>) -> (r: Vec<Vec<u8>>)
    ensures
        views_of(r@) == spec_cleanup(has_sidecar, entry_views(entries@)),
{
    let ghost evs = entry_views(entries@);
    let mut out: Vec<Vec<u8>> = Vec::new();
    assert(views_of(out@) =~= spec_cleanup(has_sidecar, evs.take(0)));
    if !has_sidecar {
        return out;
    }
    let n = entries.len();
    let mut i: usize = 0;
    while i < n
        invariant
            i <= n,
            n == entries@.len(),
            evs == entry_views(entries@),
            has_sidecar,
            views_of(out@) == spec_cleanup(has_sidecar, evs.take(i as int)),
        decreases n - i,
    {
        let ghost pre = views_of(out@);
        proof {
            assert(evs.take(i as int + 1).drop_last() =~= evs.take(i as int));
            assert(evs.take(i as int + 1).last() == evs[i as int]);
            assert(entries@[i as int]@ == evs[i as int]);
        }
        if is_stale_artifact(&entries[i].name) {
            out.push(crate::bytes::clone_bytes(&entries[i].name));
            proof {
                assert(views_of(out@) =~= pre.push(evs[i as int].name));
            }
        }
        i = i + 1;
    }
    assert(evs.take(n as int) =~= evs);
    out
}

/// The content type served for a file name: JPEG and JSON are known, any
/// other extension is unhandled.
pub open spec fn spec_content_type(name: Seq<u8>) -> Option<Seq<u8>> {
    match spec_extension(name) {
        Option::Some(e) => {
            if e == "jpg".spec_bytes() || e == "jpeg".spec_bytes() {
                Option::Some("image/jpeg".spec_bytes())
            } else if e == "json".spec_bytes() {
                Option::Some("application/json".spec_bytes())
            } else {
                Option::None
            }
        },
        Option::None => Option::None,
    }
}

/// Infers the content type a raw file is served with from its extension.
pub fn content_type_for(name: &Vec<u8>) -> (r: Option<Vec<u8>>)
    ensures
        (match r {
            Some(ct) => spec_content_type(name@) == Some(ct@),
            None => spec_content_type(name@) is None,
        }),
{
    let ext = match extension_of(name) {
        Some(e) => e,
        None => {
            return None;
        },
    };
    let mut ct: Vec<u8> = Vec::new();
    if crate::bytes::bytes_eq(&ext, "jpg".as_bytes()) || crate::bytes::bytes_eq(
        &ext,
        "jpeg".as_bytes(),
    ) {
        crate::bytes::push_str_bytes(&mut ct, "image/jpeg");
        assert(ct@ =~= "image/jpeg".spec_bytes());
        Some(ct)
    } else if crate::bytes::bytes_eq(&ext, "json".as_bytes()) {
        crate::bytes::push_str_bytes(&mut ct, "application/json");
        assert(ct@ =~= "application/json".spec_bytes());
        Some(ct)
    } else {
        None
    }
}

/// What `GET /serve/{path}` answers with.
#[derive(Debug, PartialEq, Eq, Structural)]
pub enum ServeKind {
    /// A directory with a sidecar: the static gallery shell.
    Gallery,
    /// A directory without one: the generated listing page.
    Listing,
    /// Anything else: the raw file bytes.
    RawFile,
}

/// Decides how a resolved path is served: a directory with a sidecar gets
/// the gallery shell, a directory without one the generated listing, and
/// everything else its raw bytes.
pub fn serve_plan(is_dir: bool, has_sidecar: bool) -> (r: ServeKind)
    ensures
        is_dir && has_sidecar ==> r == ServeKind::Gallery,
        is_dir && !has_sidecar ==> r == ServeKind::Listing,
        !is_dir ==> r == ServeKind::RawFile,
{
    if is_dir {
        if has_sidecar {
            ServeKind::Gallery
        } else {
            ServeKind::Listing
        }
    } else {
        ServeKind::RawFile
    }
}

/// One row of the listing page: a link to serve the entry.
pub open spec fn spec_listing_row(rel: Seq<u8>, name: Seq<u8>) -> Seq<u8> {
    lit("<a href=\"/serve/") + rel + lit("/") + name + lit("/\">") + name + lit("</a><br/>")
}

/// The rows for the first `k` entries.
pub open spec fn spec_listing_rows(rel: Seq<u8>, entries: Seq<FileEntryV>, k: int) -> Seq<u8>
    decreases k,
{
    if k <= 0 {
        Seq::empty()
    } else {
        spec_listing_rows(rel, entries, k - 1) + spec_listing_row(rel, entries[k - 1].name)
    }
}

/// The listing page for a directory without a sidecar: one link per entry,
/// in sorted name order, plus the link that triggers a sync of the
/// directory.
pub open spec fn spec_listing(rel: Seq<u8>, entries: Seq<FileEntryV>) -> Seq<u8> {
    let sorted = spec_sort(entries);
    lit("<html><body>") + spec_listing_rows(rel, sorted, sorted.len() as int) + lit(
        "<br><a href=\"/sync/",
    ) + rel + lit("/\">Index</a></body></html>")
}

/// Renders the listing page for a directory without a sidecar, from its
/// root-relative path and its raw listing: one `/serve/...` link per entry
/// by ascending file name, then the `/sync/...` link that rebuilds the
/// gallery.
pub fn list_directory(rel: &Vec<u8>, entries: Vec<FileEntry>) -> (r: Vec<u8>)
    ensures
        r@ == spec_listing(rel@, entry_views(entries@)),
{
    let ghost evs = entry_views(entries@);
    let sorted = sort_entries(entries);
    let ghost svs = spec_sort(evs);
    proof {
        crate::scanner::lemma_sort_len(evs);
    }
    let n = sorted.len();
    let mut out: Vec<u8> = Vec::new();
    crate::bytes::push_str_bytes(&mut out, "<html><body>");
    let mut i: usize = 0;
    assert(out@ =~= lit("<html><body>") + spec_listing_rows(rel@, svs, 0));
    while i < n
        invariant
            i <= n,
            n == sorted@.len(),
            svs == entry_views(sorted@),
            out@ == lit("<html><body>") + spec_listing_rows(rel@, svs, i as int),
        decreases n - i,
    {
        let ghost pre = out@;
        proof {
            assert(sorted@[i as int]@ == svs[i as int]);
        }
        crate::bytes::push_str_bytes(&mut out, "<a href=\"/serve/");
        crate::bytes::push_bytes(&mut out, rel.as_slice());
        crate::bytes::push_str_bytes(&mut out, "/");
        crate::bytes::push_bytes(&mut out, sorted[i].name.as_slice());
        crate::bytes::push_str_bytes(&mut out, "/\">");
        crate::bytes::push_bytes(&mut out, sorted[i].name.as_slice());
        crate::bytes::push_str_bytes(&mut out, "</a><br/>");
        proof {
            assert(out@ =~= pre + spec_listing_row(rel@, svs[i as int].name));
        }
        i = i + 1;
    }
    crate::bytes::push_str_bytes(&mut out, "<br><a href=\"/sync/");
    crate::bytes::push_bytes(&mut out, rel.as_slice());
    crate::bytes::push_str_bytes(&mut out, "/\">Index</a></body></html>");
    assert(out@ =~= spec_listing(rel@, evs));
    out
}

/// The response body confirming a deletion.
pub open spec fn spec_deleted_body(path: Seq<u8>) -> Seq<u8> {
    lit("Deleted file: ") + path
}

/// The response body for a deletion that failed, with the reported reason.
pub open spec fn spec_delete_failed_body(path: Seq<u8>, err: Seq<u8>) -> Seq<u8> {
    lit("Failed to delete file: ") + path + lit(". Error: ") + err
}

/// The response body for a missing file.
pub open spec fn spec_not_found_body(path: Seq<u8>) -> Seq<u8> {
    lit("File not found: ") + path
}

/// Decides the `GET /delete/{path}` response from what the filesystem
/// reported: 200 with a confirmation for a deleted file, 404 for a path
/// that is not an existing regular file, 500 with the reason when the
/// deletion failed. `removed` carries the reported failure, if any.
pub fn delete_image_response(
    path: &Vec<u8>,
    is_existing_file: bool,
    removed: &Result<(), Vec<u8>>,
) -> (r: (u16, Vec<u8>))
    ensures
        !is_existing_file ==> r.0 == 404 && r.1@ == spec_not_found_body(path@),
        is_existing_file ==> (match removed {
            Ok(_) => r.0 == 200 && r.1@ == spec_deleted_body(path@),
            Err(e) => r.0 == 500 && r.1@ == spec_delete_failed_body(path@, e@),
        }),
{
    let mut body: Vec<u8> = Vec::new();
    if !is_existing_file {
        crate::bytes::push_str_bytes(&mut body, "File not found: ");
        crate::bytes::push_bytes(&mut body, path.as_slice());
        assert(body@ =~= spec_not_found_body(path@));
        return (404, body);
    }
    match removed {
        Ok(_) => {
            crate::bytes::push_str_bytes(&mut body, "Deleted file: ");
            crate::bytes::push_bytes(&mut body, path.as_slice());
            assert(body@ =~= spec_deleted_body(path@));
            (200, body)
        },
        Err(e) => {
            crate::bytes::push_str_bytes(&mut body, "Failed to delete file: ");
            crate::bytes::push_bytes(&mut body, path.as_slice());
            crate::bytes::push_str_bytes(&mut body, ". Error: ");
            crate::bytes::push_bytes(&mut body, e.as_slice());
            assert(body@ =~= spec_delete_failed_body(path@, e@));
            (500, body)
        },
    }
}

/// Resolves every path of a `POST /delete` payload independently: each
/// entry becomes the absolute path to delete, or `InvalidPath` where it
/// would escape the root. One bad entry never aborts the batch.
pub fn delete_images_plan(ctx: &ScannerContext, paths: &Vec<Vec<u8>>) -> (r: Vec<
    Result<Vec<u8>, SyncError>,
>)
    ensures
        r@.len() == paths@.len(),
        forall|i: int|
            0 <= i < paths@.len() ==> (match #[trigger] r@[i] {
                Ok(a) => spec_to_absolute(ctx.base_dir@, paths@[i]@) == Some(a@),
                Err(e) => e == SyncError::InvalidPath && spec_to_absolute(
                    ctx.base_dir@,
                    paths@[i]@,
                ) is None,
            }),
{
    let n = paths.len();
    let mut out: Vec<Result<Vec<u8>, SyncError>> = Vec::new();
    let mut i: usize = 0;
    while i < n
        invariant
            i <= n,
            n == paths@.len(),
            out@.len() == i,
            forall|j: int|
                0 <= j < i ==> (match #[trigger] out@[j] {
                    Ok(a) => spec_to_absolute(ctx.base_dir@, paths@[j]@) == Some(a@),
                    Err(e) => e == SyncError::InvalidPath && spec_to_absolute(
                        ctx.base_dir@,
                        paths@[j]@,
                    ) is None,
                }),
        decreases n - i,
    {
        let resolved = ctx.to_absolute_path(&paths[i]);
        out.push(resolved);
        i = i + 1;
    }
    out
}

} // verus!
