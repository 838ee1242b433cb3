use mosaic::scanner::{sort_entries, Directory, FileEntry};

fn entry(name: &str, is_file: bool) -> FileEntry {
    FileEntry {
        name: name.as_bytes().to_vec(),
        is_file,
        size: 0,
        data: Vec::new(),
    }
}

#[test]
fn is_image_accepts_only_jpg_files() {
    assert!(Directory::is_image(&entry("cat.jpg", true)));
    assert!(Directory::is_image(&entry("archive.tar.jpg", true)));
    // the filter matches the single literal extension, not its alternate
    // spelling
    assert!(!Directory::is_image(&entry("cat.jpeg", true)));
    assert!(!Directory::is_image(&entry("cat.png", true)));
    assert!(!Directory::is_image(&entry("cat", true)));
    // a name that starts with its only dot has no extension
    assert!(!Directory::is_image(&entry(".jpg", true)));
    // a directory named like an image is not one
    assert!(!Directory::is_image(&entry("cat.jpg", false)));
}

#[test]
fn entries_sort_byte_wise_ascending() {
    let sorted = sort_entries(vec![
        entry("b.jpg", true),
        entry("B.jpg", true),
        entry("a.jpg", true),
        entry("10.jpg", true),
        entry("2.jpg", true),
    ]);
    let names: Vec<Vec<u8>> = sorted.into_iter().map(|e| e.name).collect();
    // plain byte order: digits before upper case before lower case, and
    // "10" before "2"
    assert_eq!(
        names,
        vec![
            b"10.jpg".to_vec(),
            b"2.jpg".to_vec(),
            b"B.jpg".to_vec(),
            b"a.jpg".to_vec(),
            b"b.jpg".to_vec(),
        ]
    );
}

#[test]
fn sorting_keeps_equal_names_stable() {
    let mut e1 = entry("same.jpg", true);
    e1.size = 1;
    let mut e2 = entry("same.jpg", true);
    e2.size = 2;
    let sorted = sort_entries(vec![e1, e2]);
    assert_eq!(sorted[0].size, 1);
    assert_eq!(sorted[1].size, 2);
}
