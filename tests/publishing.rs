use afterglow_manager::artifacts::{publish_artifacts, ArtifactSource};
use afterglow_manager::json::{Json, JsonMember};
use afterglow_manager::plan::{
    build_plan, local_artifact, preview_plan, LocalArtifact, LocalFiles, PublishPlan,
    RemoteInventory,
};
use afterglow_manager::publish::{
    next_listing_token, no_thumbnails_progress, thumbnail_progress, ExecAction, ExecPhase,
    Executor, PublishState,
};
use afterglow_manager::rewrite::{
    generate_search_index, rewrite_galleries_json_for_publish,
    rewrite_gallery_details_json_for_publish, thumb_maps, ThumbMap,
};
use afterglow_manager::thumbnails::{
    build_thumbnail_specs, ensure_thumbnails, ensure_thumbnails_with_progress, is_thumbnail_fresh,
    stale_thumbnails, thumbnail_dimensions, ThumbnailSpec,
};
use afterglow_manager::workspace::{collect_referenced_files, GalleryDetailsFile, Workspace};
use std::cell::Cell;

fn to_json(v: &serde_json::Value) -> Json {
    match v {
        serde_json::Value::Null => Json::Null,
        serde_json::Value::Bool(b) => Json::Bool(*b),
        serde_json::Value::Number(n) => Json::Number(n.to_string()),
        serde_json::Value::String(s) => Json::Str(s.clone()),
        serde_json::Value::Array(a) => Json::Array(a.iter().map(to_json).collect()),
        serde_json::Value::Object(o) => Json::Object(
            o.iter()
                .map(|(k, v)| JsonMember { key: k.clone(), value: to_json(v) })
                .collect(),
        ),
    }
}

fn parse(text: &str) -> Json {
    to_json(&serde_json::from_str::<serde_json::Value>(text).unwrap())
}

fn field<'a>(j: &'a Json, k: &str) -> Option<&'a Json> {
    match j {
        Json::Object(ms) => ms.iter().find(|m| m.key == k).map(|m| &m.value),
        _ => None,
    }
}

fn text<'a>(j: &'a Json, k: &str) -> Option<&'a str> {
    match field(j, k) {
        Some(Json::Str(s)) => Some(s.as_str()),
        _ => None,
    }
}

fn spec(source: &str, dest: &str) -> ThumbnailSpec {
    ThumbnailSpec {
        source_path: source.to_string(),
        dest_path: dest.to_string(),
        s3_key: "galleries/test/.thumbs/src.webp".to_string(),
        slug: "test".to_string(),
        thumb_filename: "src.webp".to_string(),
    }
}

fn artifact(key: &str, md5: &str) -> LocalArtifact {
    LocalArtifact {
        s3_key: key.to_string(),
        local_path: format!("/ws/{}", key),
        md5: md5.to_string(),
        size_bytes: 10,
    }
}

fn local(items: Vec<LocalArtifact>) -> LocalFiles {
    let mut l = LocalFiles::new();
    for a in items {
        l.insert(a);
    }
    l
}

fn remote(items: &[(&str, &str)]) -> RemoteInventory {
    let mut r = RemoteInventory::new();
    for (k, e) in items {
        r.record(k, e);
    }
    r
}

fn upload_keys(plan: &PublishPlan) -> Vec<String> {
    plan.to_upload.iter().map(|f| f.s3_key.clone()).collect()
}

// ----- thumbnails -----

#[test]
fn build_thumbnail_specs_empty_galleries() {
    let ws = Workspace { index: parse(r#"{"schemaVersion":1,"galleries":[]}"#), details: vec![], files: vec![] };
    let specs = build_thumbnail_specs(&ws, "/tmp/ws", "");
    assert!(specs.is_empty());
}

#[test]
fn build_thumbnail_specs_cover_and_photo() {
    let ws = Workspace {
        index: parse(
            r#"{"schemaVersion":1,"galleries":[{"name":"Sunset","slug":"sunset","date":"2024-01-01","cover":"sunset/cover.jpg"}]}"#,
        ),
        details: vec![GalleryDetailsFile {
            slug: "sunset".to_string(),
            content: Some(parse(
                r#"{"schemaVersion":1,"name":"Sunset","slug":"sunset","date":"2024-01-01","description":"","photos":[{"thumbnail":"photo.jpg","full":"photo.jpg","alt":""}]}"#,
            )),
        }],
        files: vec!["sunset/cover.jpg".to_string(), "sunset/photo.jpg".to_string()],
    };
    let specs = build_thumbnail_specs(&ws, "/tmp/ws", "");
    assert_eq!(specs.len(), 2);
    let cover_spec = specs.iter().find(|s| s.source_path.ends_with("cover.jpg")).unwrap();
    assert_eq!(cover_spec.s3_key, "galleries/sunset/.thumbs/cover.webp");
    assert_eq!(cover_spec.thumb_filename, "cover.webp");
    assert_eq!(cover_spec.source_path, "/tmp/ws/sunset/cover.jpg");
    assert_eq!(cover_spec.dest_path, "/tmp/ws/.data/thumbnails/sunset/cover.webp");
    let photo_spec = specs.iter().find(|s| s.source_path.ends_with("photo.jpg")).unwrap();
    assert_eq!(photo_spec.s3_key, "galleries/sunset/.thumbs/photo.webp");
    assert_eq!(photo_spec.slug, "sunset");
}

#[test]
fn build_thumbnail_specs_deduplicates_same_image() {
    let ws = Workspace {
        index: parse(
            r#"{"schemaVersion":1,"galleries":[{"name":"Beach","slug":"beach","date":"2024-01-01","cover":"beach/01.jpg"}]}"#,
        ),
        details: vec![GalleryDetailsFile {
            slug: "beach".to_string(),
            content: Some(parse(
                r#"{"schemaVersion":1,"name":"Beach","slug":"beach","date":"2024-01-01","description":"","photos":[{"thumbnail":"01.jpg","full":"01.jpg","alt":""}]}"#,
            )),
        }],
        files: vec!["beach/01.jpg".to_string()],
    };
    let specs = build_thumbnail_specs(&ws, "/tmp/ws", "");
    assert_eq!(specs.len(), 1);
}

#[test]
fn build_thumbnail_specs_use_the_remote_root_and_skip_missing_sources() {
    let ws = Workspace {
        index: parse(r#"[{"slug":"a","cover":"a/x.png"},{"cover":"b/y.jpg"}]"#),
        details: vec![],
        files: vec!["a/x.png".to_string(), "b/y.jpg".to_string()],
    };
    let specs = build_thumbnail_specs(&ws, "/r", "site/");
    assert_eq!(specs.len(), 1);
    assert_eq!(specs[0].s3_key, "site/galleries/a/.thumbs/x.webp");
    let none = Workspace { index: parse(r#"[{"slug":"a","cover":"a/x.png"}]"#), details: vec![], files: vec![] };
    assert!(build_thumbnail_specs(&none, "/r", "").is_empty());
}

#[test]
fn ensure_thumbnails_generates_missing() {
    let made = Cell::new(0usize);
    let specs = vec![spec("/t/src.jpg", "/t/thumbs/src.webp")];
    let results = ensure_thumbnails(&specs, |_s: &ThumbnailSpec| false, |_s: &ThumbnailSpec| {
        made.set(made.get() + 1);
        Ok(())
    });
    assert_eq!(results.generated, 1);
    assert_eq!(results.skipped, 0);
    assert!(results.errors.is_empty());
    assert_eq!(made.get(), 1);
}

#[test]
fn ensure_thumbnails_skips_fresh() {
    let specs = vec![spec("/t/src.jpg", "/t/src.webp")];
    let results = ensure_thumbnails(&specs, |_s: &ThumbnailSpec| true, |_s: &ThumbnailSpec| {
        Err("must not be called".to_string())
    });
    assert_eq!(results.generated, 0);
    assert_eq!(results.skipped, 1);
}

#[test]
fn ensure_thumbnails_collects_failures_and_reports_every_spec() {
    let specs = vec![spec("/t/a.jpg", "/t/a.webp"), spec("/t/b.jpg", "/t/b.webp"), spec("/t/c.jpg", "/t/c.webp")];
    let seen = Cell::new(0usize);
    let results = ensure_thumbnails_with_progress(
        &specs,
        |s: &ThumbnailSpec| s.source_path == "/t/a.jpg",
        |s: &ThumbnailSpec| if s.source_path == "/t/b.jpg" { Err("bad".to_string()) } else { Ok(()) },
        |current: usize, total: usize, _s: &ThumbnailSpec| {
            assert_eq!(total, 3);
            assert_eq!(current, seen.get() + 1);
            seen.set(current);
        },
    );
    assert_eq!(seen.get(), 3);
    assert_eq!(results.skipped, 1);
    assert_eq!(results.generated, 1);
    assert_eq!(results.errors, vec![("/t/b.jpg".to_string(), "bad".to_string())]);
}

#[test]
fn cleanup_stale_thumbnails_no_op_when_cache_missing() {
    let stale = stale_thumbnails(&vec![], &vec![]);
    assert_eq!(stale.len(), 0);
}

#[test]
fn cleanup_stale_thumbnails_removes_stale_keeps_expected() {
    let found = vec![
        "/t/thumbnails/sunset/stale.webp".to_string(),
        "/t/thumbnails/sunset/kept.webp".to_string(),
    ];
    let specs = vec![spec("/t/sunset/kept.jpg", "/t/thumbnails/sunset/kept.webp")];
    let stale = stale_thumbnails(&found, &specs);
    assert_eq!(stale, vec!["/t/thumbnails/sunset/stale.webp".to_string()]);
}

#[test]
fn cleanup_stale_thumbnails_removes_empty_subdir() {
    let found = vec!["/t/thumbnails/old_gallery/photo.webp".to_string()];
    let stale = stale_thumbnails(&found, &vec![]);
    assert_eq!(stale.len(), 1);
}

#[test]
fn stale_thumbnails_only_considers_webp_files() {
    let found = vec!["/c/a/x.WebP".to_string(), "/c/a/notes.txt".to_string(), "/c/a/y.webp.tmp".to_string()];
    assert_eq!(stale_thumbnails(&found, &vec![]), vec!["/c/a/x.WebP".to_string()]);
}

#[test]
fn is_thumbnail_fresh_missing_dest_returns_false() {
    assert!(!is_thumbnail_fresh(false, 100, 200));
}

#[test]
fn is_thumbnail_fresh_dest_exists_returns_true() {
    assert!(is_thumbnail_fresh(true, 100, 200));
    assert!(is_thumbnail_fresh(true, 100, 100));
    assert!(!is_thumbnail_fresh(true, 200, 100));
}

#[test]
fn generate_thumbnail_creates_webp() {
    let (w, h) = thumbnail_dimensions(200, 150);
    assert!(w <= 200);
    assert!(h <= 150);
    assert_eq!((w, h), (200, 150));
}

#[test]
fn generate_thumbnail_downscales_large_image() {
    let (w, h) = thumbnail_dimensions(3200, 2400);
    assert!(w <= 800);
    assert!(h <= 800);
}

#[test]
fn generate_thumbnail_preserves_aspect_ratio() {
    let (w, h) = thumbnail_dimensions(3200, 2400);
    assert_eq!(w, 800);
    assert_eq!(h, 600);
}

#[test]
fn thumbnail_dimensions_round_and_keep_a_pixel() {
    assert_eq!(thumbnail_dimensions(2400, 3200), (600, 800));
    assert_eq!(thumbnail_dimensions(1000, 333), (800, 266));
    assert_eq!(thumbnail_dimensions(1000, 334), (800, 267));
    assert_eq!(thumbnail_dimensions(10000, 1), (800, 1));
    assert_eq!(thumbnail_dimensions(800, 800), (800, 800));
    assert_eq!(thumbnail_dimensions(801, 801), (800, 800));
}

// ----- plans -----

#[test]
fn matching_digest_is_unchanged_and_mismatch_or_missing_is_uploaded() {
    let l = local(vec![artifact("galleries/a.jpg", "aaa"), artifact("galleries/b.jpg", "bbb"), artifact("galleries/c.jpg", "ccc")]);
    let r = remote(&[("galleries/a.jpg", "\"aaa\""), ("galleries/b.jpg", "\"xxx\"")]);
    let plan = build_plan("id".to_string(), &l, &r, "");
    assert_eq!(plan.unchanged, 1);
    assert_eq!(upload_keys(&plan), vec!["galleries/b.jpg", "galleries/c.jpg"]);
    assert_eq!(plan.to_upload[0].content_type, "image/jpeg");
    assert_eq!(plan.to_upload[0].local_path, "/ws/galleries/b.jpg");
    assert_eq!(plan.to_upload[0].size_bytes, 10);
    assert!(plan.to_delete.is_empty());
    assert_eq!(plan.total_files, 3);
    assert_eq!(plan.plan_id, "id");
}

#[test]
fn composite_fingerprint_is_always_uploaded() {
    let l = local(vec![artifact("galleries/a.jpg", "aaa-2")]);
    let r = remote(&[("galleries/a.jpg", "aaa-2")]);
    let plan = build_plan("id".to_string(), &l, &r, "");
    assert_eq!(plan.unchanged, 0);
    assert_eq!(upload_keys(&plan), vec!["galleries/a.jpg"]);
}

#[test]
fn orphans_are_deleted_only_inside_managed_areas() {
    let l = local(vec![artifact("site/galleries/a.jpg", "aaa")]);
    let r = remote(&[
        ("site/galleries/a.jpg", "aaa"),
        ("site/galleries/old.jpg", "x"),
        ("site/other/file.jpg", "x"),
        ("site/index.html", "x"),
        ("site/index.html.bak", "x"),
        ("site/afterglow/js/old.js", "x"),
        ("site/favicon.png", "x"),
    ]);
    let plan = build_plan("id".to_string(), &l, &r, "site/");
    assert_eq!(
        plan.to_delete,
        vec!["site/galleries/old.jpg", "site/index.html", "site/afterglow/js/old.js", "site/favicon.png"]
    );
    assert_eq!(plan.unchanged, 1);
    assert_eq!(plan.total_files, 5);
}

#[test]
fn later_artifact_for_a_key_replaces_the_earlier_one() {
    let l = local(vec![artifact("galleries/galleries.json", "old"), artifact("galleries/galleries.json", "new")]);
    assert_eq!(l.len(), 1);
    let r = remote(&[("galleries/galleries.json", "new"), ("", "ignored"), ("galleries/galleries.json", "\"new\"")]);
    assert_eq!(r.len(), 1);
    let plan = build_plan("id".to_string(), &l, &r, "");
    assert_eq!(plan.unchanged, 1);
}

#[test]
fn artifact_digest_comes_from_the_contents() {
    let a = local_artifact("k".to_string(), "/p/file.json".to_string(), &vec![]);
    assert_eq!(a.md5, "d41d8cd98f00b204e9800998ecf8427e");
    assert_eq!(a.size_bytes, 0);
    let b = local_artifact("k".to_string(), "/p/file.json".to_string(), &b"abc".to_vec());
    assert_eq!(b.md5, "900150983cd24fb0d6963f7d28e17f72");
    assert_eq!(b.size_bytes, 3);
}

#[test]
fn preview_plans_get_fresh_identifiers() {
    let l = local(vec![]);
    let r = remote(&[]);
    let a = preview_plan(&l, &r, "");
    let b = preview_plan(&l, &r, "");
    assert_eq!(a.plan_id.len(), 36);
    assert_ne!(a.plan_id, b.plan_id);
}

#[test]
fn one_gallery_one_photo_and_an_empty_remote() {
    let ws = Workspace {
        index: parse(r#"{"schemaVersion":1,"galleries":[{"name":"Sunset","slug":"sunset","date":"","cover":"sunset/01.jpg"}]}"#),
        details: vec![],
        files: vec!["sunset/01.jpg".to_string()],
    };
    let files = collect_referenced_files(&ws).unwrap();
    let mut l = LocalFiles::new();
    for f in &files {
        l.insert(local_artifact(format!("galleries/{}", f), format!("/ws/{}", f), &f.as_bytes().to_vec()));
    }
    let plan = build_plan("p".to_string(), &l, &RemoteInventory::new(), "");
    assert_eq!(plan.to_upload.len(), 2);
    let types: Vec<&str> = plan.to_upload.iter().map(|f| f.content_type.as_str()).collect();
    assert!(types.contains(&"application/json"));
    assert!(types.contains(&"image/jpeg"));
    assert!(plan.to_delete.is_empty());
    assert_eq!(plan.unchanged, 0);
}

#[test]
fn orphan_is_proposed_and_a_cancelled_run_stops_before_any_transfer() {
    let l = local(vec![artifact("galleries/a.jpg", "aaa"), artifact("galleries/b.jpg", "bbb")]);
    let r = remote(&[("galleries/a.jpg", "aaa"), ("galleries/orphan/x.jpg", "zzz")]);
    let plan = build_plan("p".to_string(), &l, &r, "");
    assert_eq!(plan.to_delete, vec!["galleries/orphan/x.jpg"]);
    assert_eq!(plan.unchanged, 1);
    let mut state = PublishState::new();
    state.insert_plan(plan);
    state.cancel("p");
    let plan = state.get_plan("p").unwrap();
    let mut e = Executor::new(plan);
    match e.step(plan, "", state.is_cancelled("p"), true) {
        ExecAction::Cancelled(res) => {
            assert_eq!(res.uploaded, 0);
            assert_eq!(res.deleted, 0);
            assert_eq!(res.unchanged, 1);
        }
        _ => panic!("expected the run to stop"),
    }
    assert!(e.phase == ExecPhase::Cancelled);
}

#[test]
fn a_run_uploads_then_deletes_then_invalidates() {
    let plan = PublishPlan {
        plan_id: "p".to_string(),
        to_upload: build_plan("x".to_string(), &local(vec![artifact("s/galleries/a.jpg", "a")]), &RemoteInventory::new(), "s/").to_upload,
        to_delete: vec!["s/outside.txt".to_string(), "s/galleries/old.jpg".to_string()],
        unchanged: 4,
        total_files: 7,
    };
    let mut e = Executor::new(&plan);
    match e.step(&plan, "s/", false, true) {
        ExecAction::Upload { index, progress } => {
            assert_eq!(index, 0);
            assert_eq!(progress.current, 1);
            assert_eq!(progress.total, 3);
            assert_eq!(progress.file, "s/galleries/a.jpg");
            assert_eq!(progress.action, "upload");
        }
        _ => panic!("expected an upload"),
    }
    e.transfer_succeeded();
    match e.step(&plan, "s/", false, true) {
        ExecAction::Delete { index, progress } => {
            assert_eq!(index, 1);
            assert_eq!(progress.current, 2);
            assert_eq!(progress.file, "s/galleries/old.jpg");
            assert_eq!(progress.action, "delete");
        }
        _ => panic!("expected a deletion"),
    }
    e.transfer_succeeded();
    match e.step(&plan, "s/", true, true) {
        ExecAction::Invalidate { path, progress } => {
            assert_eq!(path, "/s/*");
            assert_eq!(progress.current, 3);
            assert_eq!(progress.total, 3);
            assert_eq!(progress.file, "");
            assert_eq!(progress.action, "invalidate");
        }
        _ => panic!("expected the invalidation"),
    }
    match e.step(&plan, "s/", true, true) {
        ExecAction::Complete(res) => {
            assert_eq!((res.uploaded, res.deleted, res.unchanged), (1, 1, 4));
        }
        _ => panic!("expected completion"),
    }
    assert!(e.phase == ExecPhase::Complete);
}

#[test]
fn without_a_distribution_the_run_completes_after_deleting() {
    let plan = PublishPlan { plan_id: "p".to_string(), to_upload: vec![], to_delete: vec![], unchanged: 2, total_files: 2 };
    let mut e = Executor::new(&plan);
    match e.step(&plan, "", true, false) {
        ExecAction::Complete(res) => assert_eq!((res.uploaded, res.deleted, res.unchanged), (0, 0, 2)),
        _ => panic!("expected completion"),
    }
}

#[test]
fn plan_registry_tracks_plans_and_cancellation() {
    let mut state = PublishState::new();
    assert!(state.get_plan("a").is_none());
    assert!(!state.is_cancelled("a"));
    let plan = PublishPlan { plan_id: "a".to_string(), to_upload: vec![], to_delete: vec![], unchanged: 0, total_files: 0 };
    state.insert_plan(plan);
    assert!(state.get_plan("a").is_some());
    assert!(!state.is_cancelled("a"));
    state.cancel("b");
    assert!(state.is_cancelled("b"));
    assert!(state.get_plan("b").is_none());
    state.cancel("a");
    assert!(state.is_cancelled("a"));
    assert_eq!(state.get_plan("a").unwrap().plan_id, "a");
    state.remove_plan("a");
    assert!(state.get_plan("a").is_none());
    assert!(!state.is_cancelled("a"));
    assert!(state.is_cancelled("b"));
}

#[test]
fn listing_goes_on_only_while_truncated_with_a_token() {
    assert_eq!(next_listing_token(Some(true), Some("t".to_string())), Some("t".to_string()));
    assert_eq!(next_listing_token(Some(false), Some("t".to_string())), None);
    assert_eq!(next_listing_token(None, Some("t".to_string())), None);
    assert_eq!(next_listing_token(Some(true), None), None);
}

#[test]
fn thumbnail_progress_events() {
    let p = thumbnail_progress(2, 5, "sunset", "photo01.webp");
    assert_eq!((p.current, p.total), (2, 5));
    assert_eq!(p.filename, "sunset/photo01.webp");
    let z = no_thumbnails_progress();
    assert_eq!((z.current, z.total, z.filename.as_str()), (0, 0, ""));
}

// ----- metadata -----

fn sample_specs() -> Vec<ThumbnailSpec> {
    vec![
        ThumbnailSpec {
            source_path: "/ws/sunset/01.jpg".to_string(),
            dest_path: "/ws/.data/thumbnails/sunset/01.webp".to_string(),
            s3_key: "galleries/sunset/.thumbs/01.webp".to_string(),
            slug: "sunset".to_string(),
            thumb_filename: "01.webp".to_string(),
        },
        ThumbnailSpec {
            source_path: "/ws/sunset/02.jpg".to_string(),
            dest_path: "/ws/.data/thumbnails/sunset/02.webp".to_string(),
            s3_key: "galleries/sunset/.thumbs/02.webp".to_string(),
            slug: "sunset".to_string(),
            thumb_filename: "02.webp".to_string(),
        },
    ]
}

fn maps() -> (ThumbMap, ThumbMap) {
    thumb_maps(&sample_specs(), &vec![true, false])
}

#[test]
fn thumb_maps_cover_existing_thumbnails_only() {
    let (photo, cover) = maps();
    assert_eq!(photo.len(), 1);
    assert_eq!(photo.lookup("/ws/sunset/01.jpg"), Some(".thumbs/01.webp".to_string()));
    assert_eq!(cover.lookup("/ws/sunset/01.jpg"), Some("sunset/.thumbs/01.webp".to_string()));
    assert_eq!(photo.lookup("/ws/sunset/02.jpg"), None);
}

#[test]
fn gallery_index_covers_are_redirected_in_both_shapes() {
    let (_, cover) = maps();
    let wrapped = parse(r#"{"schemaVersion":1,"galleries":[{"slug":"sunset","cover":"sunset/01.jpg","name":"S"},{"slug":"b","cover":"b/x.jpg"}]}"#);
    let out = rewrite_galleries_json_for_publish(wrapped, "/ws", &cover);
    let list = match field(&out, "galleries") {
        Some(Json::Array(v)) => v,
        _ => panic!("galleries missing"),
    };
    assert_eq!(text(&list[0], "cover"), Some("sunset/.thumbs/01.webp"));
    assert_eq!(text(&list[0], "name"), Some("S"));
    assert_eq!(text(&list[1], "cover"), Some("b/x.jpg"));
    assert!(matches!(field(&out, "schemaVersion"), Some(Json::Number(n)) if n == "1"));

    let bare = parse(r#"[{"slug":"sunset","cover":"sunset/01.jpg"}]"#);
    match rewrite_galleries_json_for_publish(bare, "/ws", &cover) {
        Json::Array(v) => assert_eq!(text(&v[0], "cover"), Some("sunset/.thumbs/01.webp")),
        _ => panic!("shape changed"),
    }
}

#[test]
fn detail_file_thumbnails_are_redirected() {
    let (photo, _) = maps();
    let d = parse(r#"{"slug":"sunset","photos":[{"thumbnail":"01.jpg","full":"01.jpg"},{"thumbnail":"02.jpg","full":"02.jpg"},{"thumbnail":""}]}"#);
    let out = rewrite_gallery_details_json_for_publish(d, "/ws", "sunset", &photo);
    let photos = match field(&out, "photos") {
        Some(Json::Array(v)) => v,
        _ => panic!("photos missing"),
    };
    assert_eq!(text(&photos[0], "thumbnail"), Some(".thumbs/01.webp"));
    assert_eq!(text(&photos[0], "full"), Some("01.jpg"));
    assert_eq!(text(&photos[1], "thumbnail"), Some("02.jpg"));
    assert_eq!(text(&photos[2], "thumbnail"), Some(""));
}

#[test]
fn search_index_lists_galleries_and_photos() {
    let (photo, _) = maps();
    let ws = Workspace {
        index: parse(r#"[{"slug":"sunset","name":"Sunset","date":"Feb","tags":["sea",1,"sky"]},{"name":"no slug"}]"#),
        details: vec![GalleryDetailsFile {
            slug: "sunset".to_string(),
            content: Some(parse(r#"{"description":"Evening","photos":[{"thumbnail":"01.jpg","full":"01-full.jpg","alt":"one","tags":["a"]},{"thumbnail":"02.jpg"}]}"#)),
        }],
        files: vec![],
    };
    let index = generate_search_index(&ws, "/ws", &photo);
    assert_eq!(index.version, 1);
    assert_eq!(index.galleries.len(), 1);
    let g = &index.galleries[0];
    assert_eq!((g.slug.as_str(), g.name.as_str(), g.date.as_str(), g.description.as_str()), ("sunset", "Sunset", "Feb", "Evening"));
    assert_eq!(g.tags, vec!["sea", "sky"]);
    assert_eq!(index.photos.len(), 2);
    assert_eq!(index.photos[0].gallery_slug, "sunset");
    assert_eq!(index.photos[0].thumbnail, ".thumbs/01.webp");
    assert_eq!(index.photos[0].full, "01-full.jpg");
    assert_eq!(index.photos[0].alt, "one");
    assert_eq!(index.photos[0].tags, vec!["a"]);
    assert_eq!(index.photos[1].thumbnail, "02.jpg");
    assert_eq!(index.photos[1].full, "");
}

fn describe(a: &afterglow_manager::artifacts::PlannedArtifact) -> String {
    let source = match &a.source {
        ArtifactSource::WorkspaceFile(p) => format!("file {}", p),
        ArtifactSource::RewrittenIndex => "index".to_string(),
        ArtifactSource::RewrittenDetails(s) => format!("details {}", s),
        ArtifactSource::Thumbnail(p) => format!("thumb {}", p),
        ArtifactSource::SearchIndex => "search".to_string(),
        ArtifactSource::SiteFile(p) => format!("site {}", p),
    };
    format!("{} <- {}", a.s3_key, source)
}

#[test]
fn publish_artifacts_list_every_key_and_its_source() {
    let (photo, cover) = maps();
    let ds = vec![GalleryDetailsFile { slug: "sunset".to_string(), content: None }];
    let referenced = vec!["galleries.json".to_string(), "sunset/01.jpg".to_string()];
    let planned = publish_artifacts("s/", &referenced, &ds, &sample_specs(), &vec![true, false], &photo, &cover);
    let got: Vec<String> = planned.iter().map(describe).collect();
    assert_eq!(
        got,
        vec![
            "s/galleries/galleries.json <- file galleries.json",
            "s/galleries/sunset/01.jpg <- file sunset/01.jpg",
            "s/galleries/galleries.json <- index",
            "s/galleries/sunset/gallery-details.json <- details sunset",
            "galleries/sunset/.thumbs/01.webp <- thumb /ws/.data/thumbnails/sunset/01.webp",
            "s/galleries/search-index.json <- search",
            "s/index.html <- site index.html",
            "s/afterglow/css/styles.css <- site afterglow/css/styles.css",
            "s/afterglow/js/app.js <- site afterglow/js/app.js",
            "s/favicon.ico <- site favicon.ico",
            "s/favicon.png <- site favicon.png",
        ]
    );
}

#[test]
fn without_thumbnails_metadata_is_published_as_it_is() {
    let empty = ThumbMap::new();
    let planned = publish_artifacts("", &vec!["galleries.json".to_string()], &vec![], &vec![], &vec![], &empty, &empty);
    let got: Vec<String> = planned.iter().map(describe).collect();
    assert_eq!(got.len(), 7);
    assert_eq!(got[0], "galleries/galleries.json <- file galleries.json");
    assert_eq!(got[1], "galleries/search-index.json <- search");
}
