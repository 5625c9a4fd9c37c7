//! What a publish uploads from: each remote key with the local source of
//! its content.
use vstd::prelude::*;
use vstd::string::StringExecFns;
use crate::publish::{gallery_file_key, gallery_key_of};
use crate::rewrite::ThumbMap;
use crate::text::concat;
use crate::thumbnails::ThumbnailSpec;
use crate::workspace::GalleryDetailsFile;

verus! {

/// Where the content published under a key comes from.
pub enum ArtifactSource {
    /// A workspace file, by its workspace-relative path.
    WorkspaceFile(String),
    /// The gallery index with covers redirected to thumbnails.
    RewrittenIndex,
    /// The detail file of the gallery with this slug, thumbnails redirected.
    RewrittenDetails(String),
    /// A generated thumbnail, by its path in the cache.
    Thumbnail(String),
    /// The generated search index.
    SearchIndex,
    /// One of the site's own files, by its path among them.
    SiteFile(String),
}

/// One remote key and its source.
pub struct PlannedArtifact {
    pub s3_key: String,
    pub source: ArtifactSource,
}

pub ghost enum SourceView {
    WorkspaceFile(Seq<char>),
    RewrittenIndex,
    RewrittenDetails(Seq<char>),
    Thumbnail(Seq<char>),
    SearchIndex,
    SiteFile(Seq<char>),
}

pub ghost struct PlannedView {
    pub key: Seq<char>,
    pub source: SourceView,
}

impl View for PlannedArtifact {
    type V = PlannedView;

    open spec fn view(&self) -> PlannedView {
        PlannedView {
            key: self.s3_key@,
            source: match self.source {
                ArtifactSource::WorkspaceFile(p) => SourceView::WorkspaceFile(p@),
                ArtifactSource::RewrittenIndex => SourceView::RewrittenIndex,
                ArtifactSource::RewrittenDetails(s) => SourceView::RewrittenDetails(s@),
                ArtifactSource::Thumbnail(p) => SourceView::Thumbnail(p@),
                ArtifactSource::SearchIndex => SourceView::SearchIndex,
                ArtifactSource::SiteFile(p) => SourceView::SiteFile(p@),
            },
        }
    }
}

pub open spec fn planned_views(v: Seq<PlannedArtifact>) -> Seq<PlannedView> {
    v.map_values(|a: PlannedArtifact| a@)
}

/// The site's own files, by their paths among them (and below the remote root).
pub open spec fn site_files_of() -> Seq<Seq<char>> {
    seq![
        "index.html"@,
        "afterglow/css/styles.css"@,
        "afterglow/js/app.js"@,
        "favicon.ico"@,
        "favicon.png"@,
    ]
}

pub open spec fn referenced_part(root: Seq<char>, refs: Seq<String>) -> Seq<PlannedView> {
    refs.map_values(
        |r: String| PlannedView { key: gallery_key_of(root, r@), source: SourceView::WorkspaceFile(r@) },
    )
}

pub open spec fn details_key_of(root: Seq<char>, slug: Seq<char>) -> Seq<char> {
    gallery_key_of(root, slug + "/gallery-details.json"@)
}

pub open spec fn details_part(root: Seq<char>, ds: Seq<GalleryDetailsFile>) -> Seq<PlannedView> {
    ds.map_values(
        |d: GalleryDetailsFile|
            PlannedView {
                key: details_key_of(root, d.slug@),
                source: SourceView::RewrittenDetails(d.slug@),
            },
    )
}

/// The thumbnails that exist (`exists[i]` for `specs[i]`), in order.
pub open spec fn thumbnails_part(specs: Seq<ThumbnailSpec>, exists: Seq<bool>) -> Seq<PlannedView>
    decreases specs.len(),
{
    if specs.len() == 0 || exists.len() < specs.len() {
        Seq::empty()
    } else {
        let r = thumbnails_part(specs.drop_last(), exists.subrange(0, specs.len() - 1));
        if exists[specs.len() - 1] {
            r.push(
                PlannedView {
                    key: specs.last().s3_key@,
                    source: SourceView::Thumbnail(specs.last().dest_path@),
                },
            )
        } else {
            r
        }
    }
}

pub open spec fn site_part(root: Seq<char>) -> Seq<PlannedView> {
    site_files_of().map_values(|f: Seq<char>| PlannedView { key: root + f, source: SourceView::SiteFile(f) })
}

/// Every key a publish below `root` compares, in the order a later entry for
/// a key replaces an earlier one: the referenced workspace files; the
/// rewritten index when some cover got a thumbnail; the rewritten detail
/// files when some photo did; the thumbnails that exist; the search index;
/// the site's own files.
pub open spec fn planned_of(
    root: Seq<char>,
    refs: Seq<String>,
    ds: Seq<GalleryDetailsFile>,
    specs: Seq<ThumbnailSpec>,
    exists: Seq<bool>,
    rewrite_index: bool,
    rewrite_details: bool,
) -> Seq<PlannedView> {
    referenced_part(root, refs) + (if rewrite_index {
        seq![
            PlannedView {
                key: gallery_key_of(root, "galleries.json"@),
                source: SourceView::RewrittenIndex,
            },
        ]
    } else {
        Seq::empty()
    }) + (if rewrite_details {
        details_part(root, ds)
    } else {
        Seq::empty()
    }) + thumbnails_part(specs, exists) + seq![
        PlannedView {
            key: gallery_key_of(root, "search-index.json"@),
            source: SourceView::SearchIndex,
        },
    ] + site_part(root)
}

fn push_artifact(out: &mut Vec<PlannedArtifact>, a: PlannedArtifact)
    ensures
        planned_views(final(out)@) == planned_views(old(out)@).push(a@),
{
    let ghost before = out@;
    let ghost av = a@;
    out.push(a);
    assert(planned_views(out@) =~= planned_views(before).push(av));
}

/// The artifacts of a publish below `root`: `referenced` are the workspace
/// files to publish, `ds` the detail files read, `dest_exists[i]` whether
/// the thumbnail of `specs[i]` exists; the maps decide which metadata is
/// published rewritten.
pub fn publish_artifacts(
    root: &str,
    referenced: &Vec<String>,
    ds: &Vec<GalleryDetailsFile>,
    specs: &Vec<ThumbnailSpec>,
    dest_exists: &Vec<bool>,
    photo_map: &ThumbMap,
    cover_map: &ThumbMap,
) -> (r: Vec<PlannedArtifact>)
    requires
        specs@.len() == dest_exists@.len(),
    ensures
        planned_views(r@) == planned_of(
            root@,
            referenced@,
            ds@,
            specs@,
            dest_exists@,
            cover_map@.len() > 0,
            photo_map@.len() > 0,
        ),
{
    let mut out: Vec<PlannedArtifact> = Vec::new();
    let n = referenced.len();
    let mut i: usize = 0;
    while i < n
        invariant
            n == referenced@.len(),
            i <= n,
            planned_views(out@) == referenced_part(root@, referenced@.subrange(0, i as int)),
        decreases n - i,
    {
        let r = &referenced[i];
        push_artifact(
            &mut out,
            PlannedArtifact {
                s3_key: gallery_file_key(root, r.as_str()),
                source: ArtifactSource::WorkspaceFile(r.clone()),
            },
        );
        assert(referenced_part(root@, referenced@.subrange(0, i + 1)) =~= referenced_part(
            root@,
            referenced@.subrange(0, i as int),
        ).push(
            PlannedView {
                key: gallery_key_of(root@, r@),
                source: SourceView::WorkspaceFile(r@),
            },
        ));
        i = i + 1;
    }
    assert(referenced@.subrange(0, n as int) == referenced@);
    if cover_map.len() > 0 {
        push_artifact(
            &mut out,
            PlannedArtifact {
                s3_key: gallery_file_key(root, "galleries.json"),
                source: ArtifactSource::RewrittenIndex,
            },
        );
    }
    let ghost part2 = planned_views(out@);
    if photo_map.len() > 0 {
        let m = ds.len();
        let mut j: usize = 0;
        while j < m
            invariant
                m == ds@.len(),
                j <= m,
                planned_views(out@) == part2 + details_part(root@, ds@.subrange(0, j as int)),
            decreases m - j,
        {
            let d = &ds[j];
            let rel = concat(d.slug.as_str(), "/gallery-details.json");
            push_artifact(
                &mut out,
                PlannedArtifact {
                    s3_key: gallery_file_key(root, rel.as_str()),
                    source: ArtifactSource::RewrittenDetails(d.slug.clone()),
                },
            );
            assert(details_part(root@, ds@.subrange(0, j + 1)) =~= details_part(
                root@,
                ds@.subrange(0, j as int),
            ).push(
                PlannedView {
                    key: details_key_of(root@, d.slug@),
                    source: SourceView::RewrittenDetails(d.slug@),
                },
            ));
            j = j + 1;
        }
        assert(ds@.subrange(0, m as int) == ds@);
    } else {
        assert(part2 + Seq::<PlannedView>::empty() =~= part2);
    }
    let ghost part3 = planned_views(out@);
    let k = specs.len();
    let mut t: usize = 0;
    assert(part3 + thumbnails_part(specs@.subrange(0, 0), dest_exists@.subrange(0, 0)) =~= part3);
    while t < k
        invariant
            k == specs@.len(),
            k == dest_exists@.len(),
            t <= k,
            planned_views(out@) == part3 + thumbnails_part(
                specs@.subrange(0, t as int),
                dest_exists@.subrange(0, t as int),
            ),
        decreases k - t,
    {
        let ghost s = specs@.subrange(0, t + 1);
        let ghost e = dest_exists@.subrange(0, t + 1);
        assert(s.drop_last() == specs@.subrange(0, t as int));
        assert(e.subrange(0, t as int) == dest_exists@.subrange(0, t as int));
        assert(s.last() == specs@[t as int]);
        assert(e[t as int] == dest_exists@[t as int]);
        if dest_exists[t] {
            let spec = &specs[t];
            push_artifact(
                &mut out,
                PlannedArtifact {
                    s3_key: spec.s3_key.clone(),
                    source: ArtifactSource::Thumbnail(spec.dest_path.clone()),
                },
            );
            assert(planned_views(out@) =~= part3 + thumbnails_part(s, e));
        }
        t = t + 1;
    }
    assert(specs@.subrange(0, k as int) == specs@);
    assert(dest_exists@.subrange(0, k as int) == dest_exists@);
    push_artifact(
        &mut out,
        PlannedArtifact {
            s3_key: gallery_file_key(root, "search-index.json"),
            source: ArtifactSource::SearchIndex,
        },
    );
    let ghost part4 = planned_views(out@);
    let names = ["index.html", "afterglow/css/styles.css", "afterglow/js/app.js", "favicon.ico", "favicon.png"];
    let mut f: usize = 0;
    assert(part4 + site_part(root@).subrange(0, 0) =~= part4);
    while f < 5
        invariant
            f <= 5,
            names@.len() == 5,
            forall|x: int| 0 <= x < 5 ==> (#[trigger] names@[x])@ == site_files_of()[x],
            planned_views(out@) == part4 + site_part(root@).subrange(0, f as int),
        decreases 5 - f,
    {
        let name = names[f];
        push_artifact(
            &mut out,
            PlannedArtifact {
                s3_key: concat(root, name),
                source: ArtifactSource::SiteFile(String::from_str(name)),
            },
        );
        assert(site_part(root@)[f as int] == PlannedView {
            key: root@ + site_files_of()[f as int],
            source: SourceView::SiteFile(site_files_of()[f as int]),
        });
        assert(site_part(root@).subrange(0, f + 1) =~= site_part(root@).subrange(0, f as int).push(
            site_part(root@)[f as int],
        ));
        f = f + 1;
    }
    assert(site_part(root@).subrange(0, 5) =~= site_part(root@));
    assert(planned_views(out@) =~= planned_of(
        root@,
        referenced@,
        ds@,
        specs@,
        dest_exists@,
        cover_map@.len() > 0,
        photo_map@.len() > 0,
    ));
    out
}

} // verus!
