use mosaic::bundle::ImageBundle;
use mosaic::images::Image;
use mosaic::scanner::Directory;

fn test_image(id: u32, name: &str, width: u32, height: u32, size: u64) -> Image {
    Image {
        id,
        file_name: name.as_bytes().to_vec(),
        width,
        height,
        size,
        thumbnail: vec![0u8; (3 * width * height) as usize],
    }
}

fn test_directory(images: Vec<Image>) -> Directory {
    Directory {
        id: 0,
        absolute_path: b"/data/photos".to_vec(),
        relative_path: b"photos".to_vec(),
        file_count: 0,
        total_size: 0,
        images,
    }
}

#[test]
fn worked_example_three_images() {
    // A.jpg 100x50, B.jpg 120x50, C.jpg 90x60, in name order
    let dir = test_directory(vec![
        test_image(1, "A.jpg", 100, 50, 1000),
        test_image(2, "B.jpg", 120, 50, 2000),
        test_image(3, "C.jpg", 90, 60, 3000),
    ]);
    let bundles = ImageBundle::from_directory(&dir);
    assert_eq!(bundles.len(), 2);

    // bundle 1 = {A, B}, height 50, file thumbs_1.jpg
    assert_eq!(bundles[0].id, 1);
    assert_eq!(bundles[0].height, 50);
    assert_eq!(bundles[0].file_name, b"thumbs_1.jpg".to_vec());
    assert_eq!(bundles[0].images.len(), 2);
    assert_eq!(bundles[0].images[0].image_id, 1);
    assert_eq!(bundles[0].images[1].image_id, 2);

    // bundle 2 = {C}, height 60, file thumbs_2.jpg
    assert_eq!(bundles[1].id, 2);
    assert_eq!(bundles[1].height, 60);
    assert_eq!(bundles[1].file_name, b"thumbs_2.jpg".to_vec());
    assert_eq!(bundles[1].images.len(), 1);
    assert_eq!(bundles[1].images[0].image_id, 3);

    // offsets: A at 0, B at 100 (A's width), C at 0
    let a = bundles[0].extract_metadata(1).unwrap();
    assert_eq!(a.position_x, 0);
    assert_eq!(a.width, 100);
    assert_eq!(a.height, 50);
    assert_eq!(a.original_name, b"A.jpg".to_vec());
    assert_eq!(a.file_size, 1000);
    assert_eq!(a.thumbnail_name, b"thumbs_1.jpg".to_vec());
    assert_eq!(a.relative_base_path, b"photos".to_vec());
    assert_eq!(a.absolute_base_path, b"/data/photos".to_vec());

    let b = bundles[0].extract_metadata(2).unwrap();
    assert_eq!(b.position_x, 100);
    assert_eq!(b.width, 120);

    let c = bundles[1].extract_metadata(3).unwrap();
    assert_eq!(c.position_x, 0);
    assert_eq!(c.width, 90);

    // an image in neither bundle
    assert!(bundles[1].extract_metadata(1).is_none());
    assert!(bundles[0].extract_metadata(7).is_none());
}

#[test]
fn capacity_splits_same_height() {
    // ten same-height images: first-fit fills one bundle to 8, then opens a second
    let mut images = Vec::new();
    for i in 0..10u32 {
        images.push(test_image(i + 1, &format!("img{i}.jpg"), 10, 40, 100));
    }
    let dir = test_directory(images);
    let bundles = ImageBundle::from_directory(&dir);
    assert_eq!(bundles.len(), 2);
    assert_eq!(bundles[0].images.len(), 8);
    assert_eq!(bundles[1].images.len(), 2);
    for b in &bundles {
        assert!(b.images.len() <= 8);
        assert_eq!(b.height, 40);
    }
    // offsets strictly increase within the full bundle, last + width = total
    let mut prev: Option<u32> = None;
    let mut total = 0u32;
    for m in &bundles[0].images {
        let t = bundles[0].extract_metadata(m.image_id).unwrap();
        if let Some(p) = prev {
            assert!(t.position_x > p);
        }
        prev = Some(t.position_x);
        total += t.width;
    }
    let last = bundles[0]
        .extract_metadata(bundles[0].images[7].image_id)
        .unwrap();
    assert_eq!(last.position_x + last.width, total);
}

#[test]
fn first_fit_reuses_earlier_bundle() {
    // heights 50, 60, 50: the third image joins the first bundle
    let dir = test_directory(vec![
        test_image(1, "a.jpg", 10, 50, 1),
        test_image(2, "b.jpg", 20, 60, 2),
        test_image(3, "c.jpg", 30, 50, 3),
    ]);
    let bundles = ImageBundle::from_directory(&dir);
    assert_eq!(bundles.len(), 2);
    assert_eq!(bundles[0].images.len(), 2);
    assert_eq!(bundles[0].images[1].image_id, 3);
    let c = bundles[0].extract_metadata(3).unwrap();
    assert_eq!(c.position_x, 10);
}

#[test]
fn compose_lays_pixels_left_to_right() {
    // two 1x1 images: composite row is [pixels of first, pixels of second]
    let mut left = test_image(1, "l.jpg", 1, 1, 1);
    left.thumbnail = vec![10, 20, 30];
    let mut right = test_image(2, "r.jpg", 1, 1, 1);
    right.thumbnail = vec![40, 50, 60];
    let dir = test_directory(vec![left, right]);
    let bundles = ImageBundle::from_directory(&dir);
    assert_eq!(bundles.len(), 1);
    let canvas = bundles[0].compose(&dir.images);
    assert_eq!(canvas, vec![10, 20, 30, 40, 50, 60]);
}
