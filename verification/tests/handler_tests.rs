use mosaic::handler::{
    cleanup_plan, content_type_for, delete_image_response, delete_images_plan, is_stale_artifact,
    list_directory, serve_plan, ServeKind,
};
use mosaic::sandbox::ScannerContext;
use mosaic::scanner::FileEntry;
use mosaic::SyncError;

fn entry(name: &str) -> FileEntry {
    FileEntry {
        name: name.as_bytes().to_vec(),
        is_file: true,
        size: 0,
        data: Vec::new(),
    }
}

#[test]
fn stale_artifacts_are_sidecar_and_composites() {
    assert!(is_stale_artifact(&b"bundles.json".to_vec()));
    assert!(is_stale_artifact(&b"thumbs_1.jpg".to_vec()));
    assert!(is_stale_artifact(&b"thumbs_12.jpg".to_vec()));
    assert!(!is_stale_artifact(&b"cat.jpg".to_vec()));
    assert!(!is_stale_artifact(&b"my_thumbs.jpg".to_vec()));
}

#[test]
fn cleanup_only_when_a_sidecar_exists() {
    let entries = vec![entry("bundles.json"), entry("thumbs_1.jpg"), entry("cat.jpg")];
    let doomed = cleanup_plan(true, &entries);
    assert_eq!(doomed, vec![b"bundles.json".to_vec(), b"thumbs_1.jpg".to_vec()]);
    assert!(cleanup_plan(false, &entries).is_empty());
}

#[test]
fn content_types_for_known_extensions() {
    assert_eq!(
        content_type_for(&b"a.jpg".to_vec()),
        Some(b"image/jpeg".to_vec())
    );
    assert_eq!(
        content_type_for(&b"a.jpeg".to_vec()),
        Some(b"image/jpeg".to_vec())
    );
    assert_eq!(
        content_type_for(&b"bundles.json".to_vec()),
        Some(b"application/json".to_vec())
    );
    assert_eq!(content_type_for(&b"a.png".to_vec()), None);
    assert_eq!(content_type_for(&b"noext".to_vec()), None);
}

#[test]
fn serve_plan_follows_sidecar_presence() {
    assert_eq!(serve_plan(true, true), ServeKind::Gallery);
    assert_eq!(serve_plan(true, false), ServeKind::Listing);
    assert_eq!(serve_plan(false, false), ServeKind::RawFile);
    assert_eq!(serve_plan(false, true), ServeKind::RawFile);
}

#[test]
fn delete_responses_carry_status_and_body() {
    let path = b"/data/a.jpg".to_vec();
    let (s, b) = delete_image_response(&path, false, &Ok(()));
    assert_eq!(s, 404);
    assert_eq!(b, b"File not found: /data/a.jpg".to_vec());
    let (s, b) = delete_image_response(&path, true, &Ok(()));
    assert_eq!(s, 200);
    assert_eq!(b, b"Deleted file: /data/a.jpg".to_vec());
    let (s, b) = delete_image_response(&path, true, &Err(b"denied".to_vec()));
    assert_eq!(s, 500);
    assert_eq!(b, b"Failed to delete file: /data/a.jpg. Error: denied".to_vec());
}

#[test]
fn batch_deletion_resolves_each_path_independently() {
    let ctx = ScannerContext::new(b"/data".to_vec());
    let plan = delete_images_plan(
        &ctx,
        &vec![b"photos/a.jpg".to_vec(), b"../etc/passwd".to_vec(), b"b.jpg".to_vec()],
    );
    assert_eq!(plan.len(), 3);
    assert_eq!(plan[0], Ok(b"/data/photos/a.jpg".to_vec()));
    assert_eq!(plan[1], Err(SyncError::InvalidPath));
    assert_eq!(plan[2], Ok(b"/data/b.jpg".to_vec()));
}

#[test]
fn listing_links_every_entry_and_the_sync_trigger() {
    let html = list_directory(
        &b"photos".to_vec(),
        vec![entry("b.jpg"), entry("a.jpg")],
    );
    let s = String::from_utf8(html).unwrap();
    assert!(s.starts_with("<html><body>"));
    assert!(s.ends_with("</body></html>"));
    let a = s.find("<a href=\"/serve/photos/a.jpg/\">a.jpg</a><br/>").unwrap();
    let b = s.find("<a href=\"/serve/photos/b.jpg/\">b.jpg</a><br/>").unwrap();
    assert!(a < b);
    assert!(s.contains("<br><a href=\"/sync/photos/\">Index</a>"));
}
