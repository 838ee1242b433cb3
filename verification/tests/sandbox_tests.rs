use mosaic::sandbox::ScannerContext;
use mosaic::SyncError;

fn ctx() -> ScannerContext {
    ScannerContext::new(b"/data/root".to_vec())
}

#[test]
fn resolves_relative_path_under_root() {
    let r = ctx().to_absolute_path(&b"photos/cats".to_vec()).unwrap();
    assert_eq!(r, b"/data/root/photos/cats".to_vec());
}

#[test]
fn absolute_input_reinterpreted_as_relative() {
    let r = ctx().to_absolute_path(&b"/photos/cats".to_vec()).unwrap();
    assert_eq!(r, b"/data/root/photos/cats".to_vec());
}

#[test]
fn escaping_traversal_fails_with_invalid_path() {
    assert_eq!(
        ctx().to_absolute_path(&b"../secrets".to_vec()),
        Err(SyncError::InvalidPath)
    );
    assert_eq!(
        ctx().to_absolute_path(&b"photos/../../secrets".to_vec()),
        Err(SyncError::InvalidPath)
    );
    assert_eq!(
        ctx().to_absolute_path(&b"/..".to_vec()),
        Err(SyncError::InvalidPath)
    );
    // a later descent does not undo an earlier escape
    assert_eq!(
        ctx().to_absolute_path(&b"a/../../a/b".to_vec()),
        Err(SyncError::InvalidPath)
    );
}

#[test]
fn non_escaping_traversal_resolves_under_root() {
    // `..` that only cancels an earlier segment stays inside the root
    assert_eq!(
        ctx().to_absolute_path(&b"a/../b".to_vec()).unwrap(),
        b"/data/root/a/../b".to_vec()
    );
    assert_eq!(
        ctx().to_absolute_path(&b"photos/..".to_vec()).unwrap(),
        b"/data/root/photos/..".to_vec()
    );
    assert_eq!(
        ctx().to_absolute_path(&b"./a".to_vec()).unwrap(),
        b"/data/root/./a".to_vec()
    );
}

#[test]
fn dots_inside_names_are_not_traversal() {
    let r = ctx().to_absolute_path(&b"a..b/c.jpg".to_vec()).unwrap();
    assert_eq!(r, b"/data/root/a..b/c.jpg".to_vec());
}

#[test]
fn to_relative_strips_the_root_prefix() {
    let r = ctx()
        .to_relative_path(&b"/data/root/photos/cats".to_vec())
        .unwrap();
    assert_eq!(r, b"photos/cats".to_vec());
    let root = ctx().to_relative_path(&b"/data/root".to_vec()).unwrap();
    assert_eq!(root, b"".to_vec());
}

#[test]
fn to_relative_rejects_paths_outside_root() {
    assert_eq!(
        ctx().to_relative_path(&b"/data/other/photos".to_vec()),
        Err(SyncError::InvalidPath)
    );
    assert_eq!(
        ctx().to_relative_path(&b"/data/rootless".to_vec()),
        Err(SyncError::InvalidPath)
    );
}
