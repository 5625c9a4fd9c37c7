use afterglow_manager::json::{parse_galleries_array, Json, JsonMember};
use afterglow_manager::tags::{get_all_tags, remove_photo_entries};
use afterglow_manager::workspace::{collect_referenced_files, GalleryDetailsFile, Workspace};

fn to_json(v: &serde_json::Value) -> Json {
    match v {
        serde_json::Value::Null => Json::Null,
        serde_json::Value::Bool(b) => Json::Bool(*b),
        serde_json::Value::Number(n) => Json::Number(n.to_string()),
        serde_json::Value::String(s) => Json::Str(s.clone()),
        serde_json::Value::Array(a) => Json::Array(a.iter().map(to_json).collect()),
        serde_json::Value::Object(o) => Json::Object(
            o.iter()
                .map(|(k, v)| JsonMember { key: k.clone(), value: to_json(v) })
                .collect(),
        ),
    }
}

fn parse(text: &str) -> Json {
    to_json(&serde_json::from_str::<serde_json::Value>(text).unwrap())
}

fn details(slug: &str, text: &str) -> GalleryDetailsFile {
    GalleryDetailsFile { slug: slug.to_string(), content: Some(parse(text)) }
}

fn workspace(index: &str, details: Vec<GalleryDetailsFile>, files: &[&str]) -> Workspace {
    Workspace {
        index: parse(index),
        details,
        files: files.iter().map(|f| f.to_string()).collect(),
    }
}

fn contains(result: &[String], p: &str) -> bool {
    result.iter().any(|r| r == p)
}

#[test]
fn test_collect_referenced_files_basic() {
    let ws = workspace(
        r#"{"schemaVersion":1,"galleries":[{"name":"Sunset","slug":"sunset","date":"Feb 2026","cover":"sunset/01.jpg"}]}"#,
        vec![
            details(
                "sunset",
                r#"{"name":"Sunset","slug":"sunset","date":"Feb 2026","description":"","photos":[
                {"thumbnail":"01.jpg","full":"01.jpg","alt":"01"},
                {"thumbnail":"02.jpg","full":"02.jpg","alt":"02"}
            ]}"#,
            ),
            details("untracked", r#"{"name":"Untracked","slug":"untracked","photos":[]}"#),
        ],
        &["sunset/01.jpg", "sunset/02.jpg", "untracked/photo.jpg"],
    );
    let result = collect_referenced_files(&ws).unwrap();
    assert_eq!(result.len(), 4);
    assert!(contains(&result, "galleries.json"));
    assert!(contains(&result, "sunset/gallery-details.json"));
    assert!(contains(&result, "sunset/01.jpg"));
    assert!(contains(&result, "sunset/02.jpg"));
    assert!(!contains(&result, "untracked/photo.jpg"));
    assert!(!contains(&result, "untracked/gallery-details.json"));
}

#[test]
fn test_collect_referenced_files_legacy_format() {
    let ws = workspace(
        r#"[{"name":"Sunset","slug":"sunset","date":"Feb 2026","cover":"sunset/01.jpg"}]"#,
        vec![details(
            "sunset",
            r#"{"name":"Sunset","slug":"sunset","date":"Feb 2026","description":"","photos":[
                {"thumbnail":"01.jpg","full":"01.jpg","alt":"01"}
            ]}"#,
        )],
        &["sunset/01.jpg"],
    );
    let result = collect_referenced_files(&ws).unwrap();
    assert_eq!(result.len(), 3);
    assert!(contains(&result, "galleries.json"));
    assert!(contains(&result, "sunset/gallery-details.json"));
    assert!(contains(&result, "sunset/01.jpg"));
}

#[test]
fn test_collect_referenced_files_empty_galleries() {
    let ws = workspace(r#"{"schemaVersion":1,"galleries":[]}"#, vec![], &[]);
    let result = collect_referenced_files(&ws).unwrap();
    assert_eq!(result.len(), 1);
    assert!(contains(&result, "galleries.json"));
}

#[test]
fn test_collect_referenced_files_missing_gallery_details() {
    let ws = workspace(
        r#"{"schemaVersion":1,"galleries":[{"name":"Sunset","slug":"sunset","date":"Feb 2026","cover":"sunset/01.jpg"}]}"#,
        vec![],
        &["sunset/01.jpg"],
    );
    let result = collect_referenced_files(&ws).unwrap();
    assert_eq!(result.len(), 2);
    assert!(contains(&result, "galleries.json"));
    assert!(contains(&result, "sunset/01.jpg"));
}

#[test]
fn test_collect_referenced_files_deduplication() {
    let ws = workspace(
        r#"{"schemaVersion":1,"galleries":[{"name":"Sunset","slug":"sunset","date":"Feb 2026","cover":"sunset/01.jpg"}]}"#,
        vec![details(
            "sunset",
            r#"{"name":"Sunset","slug":"sunset","date":"Feb 2026","description":"","photos":[
                {"thumbnail":"01.jpg","full":"01.jpg","alt":"01"}
            ]}"#,
        )],
        &["sunset/01.jpg"],
    );
    let result = collect_referenced_files(&ws).unwrap();
    assert_eq!(result.len(), 3);
}

#[test]
fn test_collect_referenced_files_ignores_untracked_folders() {
    let ws = workspace(
        r#"{"schemaVersion":1,"galleries":[{"name":"A","slug":"a","date":"","cover":""}]}"#,
        vec![
            details("a", r#"{"name":"A","slug":"a","date":"","description":"","photos":[]}"#),
            details("b", "{}"),
        ],
        &["b/photo1.jpg", "b/photo2.png", "c/nested/deep/img.webp"],
    );
    let result = collect_referenced_files(&ws).unwrap();
    assert_eq!(result.len(), 2);
    assert!(contains(&result, "galleries.json"));
    assert!(contains(&result, "a/gallery-details.json"));
}

#[test]
fn test_collect_referenced_files_missing_image_on_disk() {
    let ws = workspace(
        r#"{"schemaVersion":1,"galleries":[{"name":"Sunset","slug":"sunset","date":"","cover":"sunset/missing.jpg"}]}"#,
        vec![details(
            "sunset",
            r#"{"name":"Sunset","slug":"sunset","date":"","description":"","photos":[
                {"thumbnail":"missing.jpg","full":"missing.jpg","alt":"missing"}
            ]}"#,
        )],
        &[],
    );
    let result = collect_referenced_files(&ws).unwrap();
    assert_eq!(result.len(), 2);
    assert!(contains(&result, "galleries.json"));
    assert!(contains(&result, "sunset/gallery-details.json"));
}

#[test]
fn test_collect_referenced_files_multiple_galleries() {
    let ws = workspace(
        r#"{"schemaVersion":1,"galleries":[
                {"name":"A","slug":"a","date":"","cover":"a/img.jpg"},
                {"name":"B","slug":"b","date":"","cover":"b/img.jpg"}
            ]}"#,
        vec![
            details(
                "a",
                r#"{"name":"A","slug":"a","date":"","description":"","photos":[
                {"thumbnail":"img.jpg","full":"img.jpg","alt":"img"}
            ]}"#,
            ),
            details(
                "b",
                r#"{"name":"B","slug":"b","date":"","description":"","photos":[
                {"thumbnail":"img.jpg","full":"img.jpg","alt":"img"}
            ]}"#,
            ),
        ],
        &["a/img.jpg", "b/img.jpg", "c/img.jpg"],
    );
    let result = collect_referenced_files(&ws).unwrap();
    assert_eq!(result.len(), 5);
    assert!(!contains(&result, "c/img.jpg"));
}

#[test]
fn collect_referenced_files_rejects_an_index_of_another_shape() {
    let ws = workspace("42", vec![], &[]);
    assert_eq!(
        collect_referenced_files(&ws),
        Err("galleries.json has unexpected format".to_string())
    );
}

#[test]
fn unreadable_details_contribute_only_themselves() {
    let ws = Workspace {
        index: parse(r#"[{"slug":"s","cover":"s/c.jpg"}]"#),
        details: vec![GalleryDetailsFile { slug: "s".to_string(), content: None }],
        files: vec!["s/c.jpg".to_string(), "s/p.jpg".to_string()],
    };
    let mut result = collect_referenced_files(&ws).unwrap();
    result.sort();
    assert_eq!(result, vec!["galleries.json", "s/c.jpg", "s/gallery-details.json"]);
}

#[test]
fn both_index_shapes_list_the_same_galleries() {
    let bare = parse(r#"[{"slug":"a"},{"slug":"b"}]"#);
    let wrapped = parse(r#"{"schemaVersion":1,"galleries":[{"slug":"a"},{"slug":"b"}]}"#);
    let a = parse_galleries_array(&bare).unwrap();
    let b = parse_galleries_array(&wrapped).unwrap();
    assert_eq!(a.len(), 2);
    assert_eq!(b.len(), 2);
    for (x, y) in a.iter().zip(b.iter()) {
        match (x, y) {
            (Json::Object(p), Json::Object(q)) => {
                assert_eq!(p.len(), q.len());
                for (m, n) in p.iter().zip(q.iter()) {
                    assert_eq!(m.key, n.key);
                    match (&m.value, &n.value) {
                        (Json::Str(s), Json::Str(t)) => assert_eq!(s, t),
                        _ => panic!("slug is not a string"),
                    }
                }
            }
            _ => panic!("gallery is not an object"),
        }
    }
    assert!(parse_galleries_array(&parse("\"x\"")).is_none());
    assert!(parse_galleries_array(&parse(r#"{"schemaVersion":1}"#)).is_none());
}

#[test]
fn all_tags_are_sorted_and_distinct() {
    let ws = workspace(
        r#"[{"slug":"a","tags":["sea","beach"]},{"tags":["zoo"]},{"slug":"b","tags":["beach"]}]"#,
        vec![details("a", r#"{"photos":[{"tags":["Sky","sea"]},{"tags":[1,"ant"]}]}"#)],
        &[],
    );
    assert_eq!(get_all_tags(&ws), vec!["Sky", "ant", "beach", "sea", "zoo"]);
    let empty = workspace("{}", vec![], &[]);
    assert!(get_all_tags(&empty).is_empty());
}

#[test]
fn removing_a_photo_drops_its_entries_only() {
    let d = parse(r#"{"name":"S","photos":[{"thumbnail":"01.jpg","full":"01.jpg"},{"thumbnail":"t/02.jpg","full":"02.jpg"},{"full":"sub/01.jpg"}]}"#);
    let out = remove_photo_entries(d, "01.jpg");
    let photos = match &out {
        Json::Object(ms) => ms.iter().find(|m| m.key == "photos").map(|m| &m.value),
        _ => None,
    };
    match photos {
        Some(Json::Array(v)) => {
            assert_eq!(v.len(), 1);
            match &v[0] {
                Json::Object(ms) => assert!(ms.iter().any(|m| m.key == "full" && matches!(&m.value, Json::Str(s) if s == "02.jpg"))),
                _ => panic!("photo is not an object"),
            }
        }
        _ => panic!("photos missing"),
    }
}

#[test]
fn referenced_files_come_in_ascending_order() {
    let ws = workspace(
        r#"[{"slug":"b","cover":"b/z.jpg"},{"slug":"a","cover":"a/y.jpg"}]"#,
        vec![details("b", r#"{"photos":[{"thumbnail":"c.jpg","full":"a.jpg"}]}"#)],
        &["b/z.jpg", "a/y.jpg", "b/c.jpg", "b/a.jpg"],
    );
    let result = collect_referenced_files(&ws).unwrap();
    assert_eq!(result, vec!["a/y.jpg", "b/a.jpg", "b/c.jpg", "b/gallery-details.json", "b/z.jpg", "galleries.json"]);
}
