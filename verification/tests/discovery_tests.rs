//! Tests of the discovery rules: manifest file names, the script
//! content sniff, image extensions and the pixel-width filter, and the
//! assembly of a project record.

use std::io::Cursor;

use douyin_config::discovery::{
    build_project_item, candidate_script_paths, has_image_extension, image_qualifies,
    is_manifest_filename, script_sniff,
};

fn png_bytes(width: u32, height: u32) -> Vec<u8> {
    let img = image::DynamicImage::ImageRgba8(image::RgbaImage::new(width, height));
    let mut buf: Vec<u8> = Vec::new();
    img.write_to(&mut Cursor::new(&mut buf), image::ImageFormat::Png).unwrap();
    buf
}

#[test]
fn width_750_is_included_regardless_of_height() {
    assert!(image_qualifies(&png_bytes(750, 1)));
    assert!(image_qualifies(&png_bytes(750, 1334)));
}

#[test]
fn width_751_is_excluded() {
    assert!(!image_qualifies(&png_bytes(751, 1334)));
    assert!(!image_qualifies(&png_bytes(749, 750)));
}

#[test]
fn unreadable_bytes_are_excluded() {
    assert!(!image_qualifies(&vec![0u8, 1, 2, 3]));
}

#[test]
fn manifest_filename_is_exact() {
    assert!(is_manifest_filename("project.config.json"));
    assert!(!is_manifest_filename("project.config.json.bak"));
    assert!(!is_manifest_filename("Project.config.json"));
}

#[test]
fn candidate_paths_in_priority_order() {
    let c = candidate_script_paths();
    assert_eq!(c, vec!["assets/main/index.js".to_string(), "application.js".to_string()]);
}

#[test]
fn sniff_accepts_either_marker() {
    assert!(script_sniff("var x; appId maybe"));
    assert!(script_sniff("...douyinIds..."));
    assert!(!script_sniff("nothing relevant, not even appid in this case"));
}

#[test]
fn image_extensions_match_case_insensitively() {
    assert!(has_image_extension("a/b/pic.png"));
    assert!(has_image_extension("a\\b\\PIC.JPG"));
    assert!(has_image_extension("shot.jpeg"));
    assert!(has_image_extension("shot.WebP"));
    assert!(has_image_extension("shot.bmp"));
    assert!(!has_image_extension("shot.gif"));
    assert!(!has_image_extension("noext"));
    assert!(!has_image_extension("dir.png/file"));
    assert!(!has_image_extension("a/.png"));
}

#[test]
fn record_is_built_from_gathered_values() {
    let manifest = r#"{"appid": "old_id", "projectname": "old_name"}"#;
    let js = r#"d.appId="old_id",d.douyinIds=["id1"]"#;
    let item = build_project_item(
        "root/project.config.json".to_string(),
        manifest,
        Some(("root/assets/main/index.js".to_string(), js.to_string())),
        vec!["root/cover.png".to_string()],
    )
    .unwrap();
    assert_eq!(item.path, "root/project.config.json");
    assert_eq!(item.config.appid, "old_id");
    assert_eq!(item.config.projectname, "old_name");
    let jc = item.js_config.as_ref().unwrap();
    assert_eq!(jc.app_id, "old_id");
    assert_eq!(jc.douyin_ids, vec!["id1".to_string()]);
    assert_eq!(item.image_paths, vec!["root/cover.png".to_string()]);
    assert!(!item.is_modified);
    assert!(item.selected);
}

#[test]
fn broken_manifest_yields_no_record() {
    assert!(build_project_item("p".to_string(), "{broken", None, Vec::new()).is_none());
}

#[test]
fn script_that_fails_extraction_still_yields_empty_defaults() {
    let manifest = r#"{"appid": "x", "projectname": "y"}"#;
    let item = build_project_item(
        "p".to_string(),
        manifest,
        Some(("s.js".to_string(), "var appId_is_referenced_but_never_assigned;".to_string())),
        Vec::new(),
    )
    .unwrap();
    let jc = item.js_config.as_ref().unwrap();
    assert_eq!(jc.app_id, "");
    assert!(jc.douyin_ids.is_empty());
}
