use mosaic::images::Image;
use mosaic::queue::SyncCommand;
use mosaic::scanner::FileEntry;
use mosaic::worker::run_sync_command;
use mosaic::SyncError;

fn jpeg_bytes(w: u32, h: u32, rgb: [u8; 3]) -> Vec<u8> {
    let img = image::RgbImage::from_pixel(w, h, image::Rgb(rgb));
    let mut cursor = std::io::Cursor::new(Vec::new());
    img.write_to(&mut cursor, image::ImageFormat::Jpeg).unwrap();
    cursor.into_inner()
}

fn gray_jpeg_bytes(w: u32, h: u32) -> Vec<u8> {
    let img = image::GrayImage::from_pixel(w, h, image::Luma([100u8]));
    let mut cursor = std::io::Cursor::new(Vec::new());
    img.write_to(&mut cursor, image::ImageFormat::Jpeg).unwrap();
    cursor.into_inner()
}

fn entry(name: &str, data: Vec<u8>) -> FileEntry {
    FileEntry {
        name: name.as_bytes().to_vec(),
        is_file: true,
        size: data.len() as u64,
        data,
    }
}

#[test]
fn create_thumbnail_bounds_dimensions() {
    let (w, h, pixels) = Image::create_thumbnail(&jpeg_bytes(512, 256, [10, 20, 30])).unwrap();
    assert_eq!((w, h), (256, 128));
    assert_eq!(pixels.len(), 3 * 256 * 128);
}

#[test]
fn undecodable_bytes_are_a_decode_error() {
    let r = Image::create_thumbnail(&b"not an image at all".to_vec());
    assert_eq!(r.unwrap_err(), SyncError::DecodeError);
}

#[test]
fn non_truecolor_images_are_unsupported() {
    let r = Image::create_thumbnail(&gray_jpeg_bytes(8, 8));
    assert_eq!(r.unwrap_err(), SyncError::UnsupportedFormat);
}

fn listing() -> Vec<FileEntry> {
    vec![
        entry("b.jpg", jpeg_bytes(512, 256, [200, 0, 0])),
        entry("a.jpg", jpeg_bytes(512, 256, [0, 200, 0])),
        entry("notes.txt", Vec::new()),
    ]
}

#[test]
fn sync_builds_composites_and_sidecar() {
    let cmd = SyncCommand::SyncDirectory(b"/data".to_vec(), b"photos".to_vec());
    let out = run_sync_command(&cmd, listing()).unwrap();

    // both 512x256 sources shrink to 256x128; equal heights share a bundle
    assert_eq!(out.composites.len(), 1);
    assert_eq!(out.composites[0].file_name, b"thumbs_1.jpg".to_vec());
    let composite = image::load_from_memory(&out.composites[0].data).unwrap();
    assert_eq!((composite.width(), composite.height()), (512, 128));

    assert_eq!(out.sidecar_name, b"bundles.json".to_vec());
    let sidecar = String::from_utf8(out.sidecar.clone()).unwrap();
    // entries in sorted name order, a before b, with a's offset 0 and b's 256
    let a = sidecar.find("a.jpg").unwrap();
    let b = sidecar.find("b.jpg").unwrap();
    assert!(a < b);
    assert!(sidecar.contains("\"position_x\": 0"));
    assert!(sidecar.contains("\"position_x\": 256"));
    // the non-image entry is not described
    assert!(!sidecar.contains("notes.txt"));
}

#[test]
fn resyncing_an_unchanged_listing_is_byte_identical() {
    let cmd = SyncCommand::SyncDirectory(b"/data".to_vec(), b"photos".to_vec());
    let out1 = run_sync_command(&cmd, listing()).unwrap();
    let out2 = run_sync_command(&cmd, listing()).unwrap();
    assert_eq!(out1.sidecar, out2.sidecar);
    assert_eq!(out1.composites.len(), out2.composites.len());
    for (c1, c2) in out1.composites.iter().zip(out2.composites.iter()) {
        assert_eq!(c1.file_name, c2.file_name);
        assert_eq!(c1.data, c2.data);
    }
}

#[test]
fn sync_rejects_traversal_paths() {
    let cmd = SyncCommand::SyncDirectory(b"/data".to_vec(), b"../elsewhere".to_vec());
    let r = run_sync_command(&cmd, Vec::new());
    assert_eq!(r.err(), Some(SyncError::InvalidPath));
}

#[test]
fn one_bad_image_aborts_the_scan() {
    let cmd = SyncCommand::SyncDirectory(b"/data".to_vec(), b"photos".to_vec());
    let mut entries = listing();
    entries.push(entry("broken.jpg", b"garbage".to_vec()));
    let r = run_sync_command(&cmd, entries);
    assert_eq!(r.err(), Some(SyncError::DecodeError));
}
