use afterglow_manager::fs_events::classify_fs_event;

fn kind(path: &str, exists: bool, is_dir: bool) -> Option<(String, Option<String>, Option<String>)> {
    classify_fs_event(path, "/ws", exists, is_dir).map(|e| (e.kind, e.gallery_slug, e.filename))
}

#[test]
fn gallery_directories_appear_and_disappear() {
    assert_eq!(kind("/ws/sunset", true, true), Some(("dir-created".to_string(), Some("sunset".to_string()), None)));
    assert_eq!(kind("/ws/sunset", false, false), Some(("dir-removed".to_string(), Some("sunset".to_string()), None)));
    assert_eq!(kind("/ws/notes.txt", true, false), None);
    assert_eq!(kind("/ws/galleries.json", false, false), None);
}

#[test]
fn images_in_galleries_are_reported() {
    assert_eq!(
        kind("/ws/sunset/01.JPG", true, false),
        Some(("image-created".to_string(), Some("sunset".to_string()), Some("01.JPG".to_string())))
    );
    assert_eq!(
        kind("/ws/sunset/01.jpg", false, false),
        Some(("image-removed".to_string(), Some("sunset".to_string()), Some("01.jpg".to_string())))
    );
    assert_eq!(kind("/ws/sunset/gallery-details.json", true, false), None);
    assert_eq!(kind("/ws/sunset/readme.md", true, false), None);
}

#[test]
fn hidden_deep_and_outside_paths_are_ignored() {
    assert_eq!(kind("/ws/.data/thumbnails/x.webp", true, false), None);
    assert_eq!(kind("/ws/sunset/.thumbs", true, true), None);
    assert_eq!(kind("/ws/a/b/c.jpg", true, false), None);
    assert_eq!(kind("/other/a.jpg", true, false), None);
    assert_eq!(kind("/ws", true, true), None);
    assert_eq!(kind("/wsx/a", true, true), None);
}
