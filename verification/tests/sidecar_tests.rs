use mosaic::bundle::Thumbnail;
use mosaic::sidecar::render_sidecar;

#[test]
fn empty_sidecar_is_an_empty_array() {
    let out = render_sidecar(&Vec::new());
    assert_eq!(out, b"[]".to_vec());
}

#[test]
fn one_entry_renders_every_field() {
    let t = Thumbnail {
        relative_base_path: b"photos".to_vec(),
        absolute_base_path: b"/data/photos".to_vec(),
        thumbnail_name: b"thumbs_1.jpg".to_vec(),
        position_x: 100,
        width: 120,
        height: 50,
        original_name: b"B.jpg".to_vec(),
        file_size: 2000,
    };
    let out = render_sidecar(&vec![t]);
    let expected = "[\n  {\n    \"relative_base_path\": \"photos\",\n    \
\"absolute_base_path\": \"/data/photos\",\n    \
\"thumbnail_name\": \"thumbs_1.jpg\",\n    \
\"position_x\": 100,\n    \
\"width\": 120,\n    \
\"height\": 50,\n    \
\"original_name\": \"B.jpg\",\n    \
\"file_size\": 2000\n  }\n]";
    assert_eq!(String::from_utf8(out).unwrap(), expected);
}

#[test]
fn entries_are_separated_and_ordered() {
    let mk = |name: &str, x: u32| Thumbnail {
        relative_base_path: b"p".to_vec(),
        absolute_base_path: b"/p".to_vec(),
        thumbnail_name: b"thumbs_1.jpg".to_vec(),
        position_x: x,
        width: 1,
        height: 1,
        original_name: name.as_bytes().to_vec(),
        file_size: 0,
    };
    let out = render_sidecar(&vec![mk("A.jpg", 0), mk("B.jpg", 100), mk("C.jpg", 0)]);
    let s = String::from_utf8(out).unwrap();
    let a = s.find("A.jpg").unwrap();
    let b = s.find("B.jpg").unwrap();
    let c = s.find("C.jpg").unwrap();
    assert!(a < b && b < c);
    assert_eq!(s.matches("},\n  {").count(), 2);
}

#[test]
fn json_string_bytes_are_escaped() {
    let t = Thumbnail {
        relative_base_path: b"a\"b".to_vec(),
        absolute_base_path: b"c\\d".to_vec(),
        thumbnail_name: b"g\th".to_vec(),
        position_x: 0,
        width: 1,
        height: 1,
        original_name: b"e\nf\x01".to_vec(),
        file_size: 0,
    };
    let out = String::from_utf8(render_sidecar(&vec![t])).unwrap();
    assert!(out.contains("\"a\\\"b\""));
    assert!(out.contains("\"c\\\\d\""));
    assert!(out.contains("\"g\\th\""));
    assert!(out.contains("\"e\\nf\\u0001\""));
}
