use afterglow_manager::paths::{content_type_for_lower_extension, is_image_lower_extension, is_syncable_lower_extension};
use afterglow_manager::paths::{content_type_for_extension, extension, is_image_file, is_syncable_file};
use afterglow_manager::plan::{etag_matches, is_managed_key, normalize_root, strip_etag_quotes};
use afterglow_manager::publish::{gallery_file_key, invalidation_path, website_keys};
use std::path::PathBuf;

#[test]
fn test_content_type_mapping() {
    assert_eq!(content_type_for_extension("photo.jpg"), "image/jpeg");
    assert_eq!(content_type_for_extension("photo.jpeg"), "image/jpeg");
    assert_eq!(content_type_for_extension("photo.png"), "image/png");
    assert_eq!(content_type_for_extension("photo.gif"), "image/gif");
    assert_eq!(content_type_for_extension("photo.webp"), "image/webp");
    assert_eq!(content_type_for_extension("photo.avif"), "image/avif");
    assert_eq!(content_type_for_extension("photo.bmp"), "image/bmp");
    assert_eq!(content_type_for_extension("photo.tiff"), "image/tiff");
    assert_eq!(content_type_for_extension("photo.tif"), "image/tiff");
    assert_eq!(content_type_for_extension("data.json"), "application/json");
    assert_eq!(content_type_for_extension("index.html"), "text/html");
    assert_eq!(content_type_for_extension("styles.css"), "text/css");
    assert_eq!(content_type_for_extension("app.js"), "application/javascript");
    assert_eq!(content_type_for_extension("file.xyz"), "application/octet-stream");
}

#[test]
fn content_type_ignores_case_and_directories() {
    assert_eq!(content_type_for_extension("Sunset/IMG_01.JPG"), "image/jpeg");
    assert_eq!(content_type_for_extension("site/favicon.ico"), "image/x-icon");
    assert_eq!(content_type_for_extension("a.b/noext"), "application/octet-stream");
    assert_eq!(content_type_for_extension(".json"), "application/octet-stream");
    assert_eq!(content_type_for_extension(""), "application/octet-stream");
}

#[test]
fn test_is_syncable_file() {
    assert!(is_syncable_file("photo.jpg"));
    assert!(is_syncable_file("photo.JPEG"));
    assert!(is_syncable_file("photo.png"));
    assert!(is_syncable_file("data.json"));
    assert!(is_syncable_file("index.html"));
    assert!(is_syncable_file("styles.css"));
    assert!(is_syncable_file("app.js"));
    assert!(!is_syncable_file(".DS_Store"));
    assert!(!is_syncable_file("readme.txt"));
    assert!(!is_syncable_file("file.md"));
    assert!(!is_syncable_file(".gitignore"));
}

#[test]
fn extension_follows_the_last_dot_of_the_file_name() {
    assert_eq!(extension("a/b.tar.gz"), Some("gz".to_string()));
    assert_eq!(extension("dir.d/file"), None);
    assert_eq!(extension(".hidden"), None);
    assert_eq!(extension("name."), Some("".to_string()));
    assert!(is_image_file("x/Y.Png"));
    assert!(!is_image_file("x/y.json"));
}

#[test]
fn test_s3_key_construction_gallery_files() {
    let root = PathBuf::from("/workspace/galleries");
    let file = root.join("coastal-sunset/01.jpg");
    let relative = file
        .strip_prefix(&root)
        .unwrap()
        .to_string_lossy()
        .replace('\\', "/");

    let s3_key = gallery_file_key("", &relative);
    assert_eq!(s3_key, "galleries/coastal-sunset/01.jpg");

    let s3_key = gallery_file_key("my-site/", &relative);
    assert_eq!(s3_key, "my-site/galleries/coastal-sunset/01.jpg");
}

#[test]
fn test_managed_area_safety_check() {
    let s3_root = "";
    let is_managed = |key: &str| -> bool { is_managed_key(key, s3_root) };

    assert!(is_managed("galleries/coastal-sunset/01.jpg"));
    assert!(is_managed("galleries/galleries.json"));
    assert!(is_managed("afterglow/css/styles.css"));
    assert!(is_managed("afterglow/js/app.js"));
    assert!(is_managed("index.html"));
    assert!(!is_managed("other/file.jpg"));
    assert!(!is_managed("index.html.bak"));
}

#[test]
fn test_managed_area_safety_check_with_s3_root() {
    let s3_root = "my-site/";
    let is_managed = |key: &str| -> bool { is_managed_key(key, s3_root) };

    assert!(is_managed("my-site/galleries/photo.jpg"));
    assert!(is_managed("my-site/afterglow/css/styles.css"));
    assert!(is_managed("my-site/index.html"));
    assert!(!is_managed("galleries/photo.jpg"));
    assert!(!is_managed("other-site/index.html"));
}

#[test]
fn managed_areas_include_the_icons() {
    assert!(is_managed_key("favicon.ico", ""));
    assert!(is_managed_key("site/favicon.png", "site/"));
    assert!(!is_managed_key("favicon.gif", ""));
    assert!(!is_managed_key("galleries", ""));
}

#[test]
fn test_etag_comparison_exact_match() {
    let local_md5 = "d41d8cd98f00b204e9800998ecf8427e";
    let etag = "d41d8cd98f00b204e9800998ecf8427e";
    assert!(etag_matches(etag, local_md5));
}

#[test]
fn test_etag_comparison_multipart() {
    let etag = "d41d8cd98f00b204e9800998ecf8427e-2";
    assert!(etag.contains('-'));
    assert!(!etag_matches(etag, etag));
    assert!(!etag_matches(etag, "d41d8cd98f00b204e9800998ecf8427e"));
}

#[test]
fn etag_quotes_are_stripped() {
    assert_eq!(strip_etag_quotes("\"abc\""), "abc");
    assert_eq!(strip_etag_quotes("abc"), "abc");
    assert_eq!(strip_etag_quotes("\"\""), "");
}

#[test]
fn root_is_normalized_with_a_trailing_slash() {
    assert_eq!(normalize_root(""), "");
    assert_eq!(normalize_root("site"), "site/");
    assert_eq!(normalize_root("site/"), "site/");
}

#[test]
fn website_keys_and_invalidation_path() {
    assert_eq!(
        website_keys("my-site/"),
        vec![
            "my-site/index.html".to_string(),
            "my-site/afterglow/css/styles.css".to_string(),
            "my-site/afterglow/js/app.js".to_string(),
            "my-site/favicon.ico".to_string(),
            "my-site/favicon.png".to_string(),
        ]
    );
    assert_eq!(invalidation_path("my-site/"), "/my-site/*");
    assert_eq!(invalidation_path(""), "/*");
}

#[test]
fn tables_on_lower_case_extensions() {
    assert_eq!(content_type_for_lower_extension("html"), "text/html");
    assert_eq!(content_type_for_lower_extension("ico"), "image/x-icon");
    assert_eq!(content_type_for_lower_extension("JPG"), "application/octet-stream");
    assert_eq!(content_type_for_lower_extension(""), "application/octet-stream");
    assert!(is_image_lower_extension("tif"));
    assert!(!is_image_lower_extension("PNG"));
    assert!(is_syncable_lower_extension("js"));
    assert!(!is_syncable_lower_extension("txt"));
}
