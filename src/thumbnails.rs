//! Thumbnail planning: which resized variants to derive, where they are
//! cached and published, how large they are, when they are fresh, and which
//! cached files have gone stale.
use vstd::prelude::*;
use vstd::string::{StrSliceExecFns, StringExecFns};
use crate::json::{gallery_list, get_str, parse_galleries_array, str_field, Json};
use crate::paths::{extension, extension_of, file_name, file_name_of, join, join_of};
use crate::text::{concat, concat3, last_index, last_index_of, slice, str_eq};
use crate::workspace::{
    details_photos, file_exists, has_file, photos_of, Workspace,
};

verus! {

/// The longest side, in pixels, that a thumbnail may have.
pub const THUMBNAIL_MAX_SIDE: u32 = 800;

/// One derived image: its source, its place in the cache, and its remote key.
pub struct ThumbnailSpec {
    pub source_path: String,
    pub dest_path: String,
    /// Remote key, e.g. "galleries/sunset/.thumbs/01.webp".
    pub s3_key: String,
    /// Gallery slug (or the cover's directory) that the thumbnail belongs to.
    pub slug: String,
    /// File name of the thumbnail, e.g. "01.webp".
    pub thumb_filename: String,
}

/// The fields of a [`ThumbnailSpec`] as sequences of characters.
pub ghost struct ThumbView {
    pub source: Seq<char>,
    pub dest: Seq<char>,
    pub key: Seq<char>,
    pub slug: Seq<char>,
    pub file: Seq<char>,
}

impl View for ThumbnailSpec {
    type V = ThumbView;

    open spec fn view(&self) -> ThumbView {
        ThumbView {
            source: self.source_path@,
            dest: self.dest_path@,
            key: self.s3_key@,
            slug: self.slug@,
            file: self.thumb_filename@,
        }
    }
}

/// What became of one spec in a thumbnail run.
pub ghost enum ThumbOutcome {
    Fresh,
    Generated,
    Failed,
}

/// The outcome of a thumbnail run.
pub struct ThumbnailResults {
    pub generated: usize,
    pub skipped: usize,
    /// Source path and message of each thumbnail that could not be made.
    pub errors: Vec<(String, String)>,
    /// The outcome for each spec, in order.
    pub outcomes: Ghost<Seq<ThumbOutcome>>,
}

/// How many of `s` are `o`.
pub open spec fn count_of(s: Seq<ThumbOutcome>, o: ThumbOutcome) -> nat
    decreases s.len(),
{
    if s.len() == 0 {
        0
    } else {
        count_of(s.drop_last(), o) + if s.last() == o {
            1nat
        } else {
            0nat
        }
    }
}

/// The sources of the specs that failed, in order.
pub open spec fn failed_sources(specs: Seq<ThumbnailSpec>, outs: Seq<ThumbOutcome>) -> Seq<
    Seq<char>,
>
    decreases outs.len(),
{
    if outs.len() == 0 || specs.len() < outs.len() {
        Seq::empty()
    } else {
        let r = failed_sources(specs, outs.drop_last());
        if outs.last() == ThumbOutcome::Failed {
            r.push(specs[outs.len() - 1].source_path@)
        } else {
            r
        }
    }
}

/// The outcome `o` for spec `t` is one the freshness check and the generator allow.
pub open spec fn outcome_allowed<F, G>(is_fresh: F, generate: G, t: &ThumbnailSpec, o: ThumbOutcome) -> bool where
    F: Fn(&ThumbnailSpec) -> bool,
    G: Fn(&ThumbnailSpec) -> Result<(), String>,
 {
    match o {
        ThumbOutcome::Fresh => is_fresh.ensures((t,), true),
        ThumbOutcome::Generated => is_fresh.ensures((t,), false) && exists|r: Result<(), String>|
            r is Ok && generate.ensures((t,), r),
        ThumbOutcome::Failed => is_fresh.ensures((t,), false) && exists|e: String|
            generate.ensures((t,), Err(e)),
    }
}

pub open spec fn error_sources(errors: Seq<(String, String)>) -> Seq<Seq<char>> {
    errors.map_values(|e: (String, String)| e.0@)
}

// ----- naming -----

/// The file name without its extension.
pub open spec fn stem_of(name: Seq<char>) -> Seq<char> {
    let d = last_index_of(name, '.');
    if d <= 0 {
        name
    } else {
        name.subrange(0, d)
    }
}

/// The thumbnail file name for an image path: its stem with ".webp".
pub open spec fn thumb_file_of(p: Seq<char>) -> Seq<char> {
    stem_of(file_name_of(p)) + ".webp"@
}

/// The directory part of a path: what precedes its last '/', or nothing.
pub open spec fn dir_of(p: Seq<char>) -> Seq<char> {
    let i = last_index_of(p, '/');
    if i < 0 {
        Seq::empty()
    } else {
        p.subrange(0, i)
    }
}

/// The thumbnail cache below a workspace root.
pub open spec fn cache_root_of(root: Seq<char>) -> Seq<char> {
    join_of(root, ".data/thumbnails"@)
}

/// The remote key of a thumbnail.
pub open spec fn thumb_key_of(prefix: Seq<char>, dir: Seq<char>, file: Seq<char>) -> Seq<char> {
    prefix + "galleries/"@ + dir + "/.thumbs/"@ + file
}

fn stem(name: &str) -> (r: String)
    ensures
        r@ == stem_of(name@),
{
    proof {
        crate::text::lemma_last_index_of_bounds(name@, '.');
    }
    match last_index(name, '.') {
        Some(d) => if d == 0 {
            String::from_str(name)
        } else {
            slice(name, 0, d)
        },
        None => String::from_str(name),
    }
}

fn thumb_file(p: &str) -> (r: String)
    ensures
        r@ == thumb_file_of(p@),
{
    let name = file_name(p);
    let s = stem(name.as_str());
    concat(s.as_str(), ".webp")
}

fn dir_part(p: &str) -> (r: String)
    ensures
        r@ == dir_of(p@),
{
    proof {
        crate::text::lemma_last_index_of_bounds(p@, '/');
    }
    match last_index(p, '/') {
        Some(i) => slice(p, 0, i),
        None => String::new(),
    }
}

fn thumb_key(prefix: &str, dir: &str, file: &str) -> (r: String)
    ensures
        r@ == thumb_key_of(prefix@, dir@, file@),
{
    let a = concat3(prefix, "galleries/", dir);
    concat3(a.as_str(), "/.thumbs/", file)
}

// ----- candidates and deduplication -----

/// The thumbnail for a gallery's cover (a workspace-relative path), if it has one.
pub open spec fn cover_candidate(
    files: Seq<String>,
    root: Seq<char>,
    prefix: Seq<char>,
    g: Json,
) -> Seq<ThumbView> {
    match str_field(g, "cover"@) {
        Some(c) => if c.len() > 0 && has_file(files, c) && file_name_of(c).len() > 0 {
            let dir = dir_of(c);
            let file = thumb_file_of(c);
            seq![
                ThumbView {
                    source: join_of(root, c),
                    dest: join_of(cache_root_of(root), join_of(dir, file)),
                    key: thumb_key_of(prefix, dir, file),
                    slug: dir,
                    file: file,
                },
            ]
        } else {
            Seq::empty()
        },
        None => Seq::empty(),
    }
}

/// The thumbnail for a photo entry of gallery `slug`, if it has one.
pub open spec fn photo_candidate(
    files: Seq<String>,
    root: Seq<char>,
    prefix: Seq<char>,
    slug: Seq<char>,
    photo: Json,
) -> Seq<ThumbView> {
    match str_field(photo, "thumbnail"@) {
        Some(t) => if t.len() > 0 && has_file(files, join_of(slug, t)) && file_name_of(t).len()
            > 0 {
            let file = thumb_file_of(t);
            seq![
                ThumbView {
                    source: join_of(root, join_of(slug, t)),
                    dest: join_of(cache_root_of(root), join_of(slug, file)),
                    key: thumb_key_of(prefix, slug, file),
                    slug: slug,
                    file: file,
                },
            ]
        } else {
            Seq::empty()
        },
        None => Seq::empty(),
    }
}

pub open spec fn photo_candidates(
    files: Seq<String>,
    root: Seq<char>,
    prefix: Seq<char>,
    slug: Seq<char>,
    photos: Seq<Json>,
) -> Seq<ThumbView>
    decreases photos.len(),
{
    if photos.len() == 0 {
        Seq::empty()
    } else {
        photo_candidates(files, root, prefix, slug, photos.drop_last()) + photo_candidate(
            files,
            root,
            prefix,
            slug,
            photos.last(),
        )
    }
}

/// The thumbnails a gallery asks for: its cover's, then its photos'.
pub open spec fn gallery_candidates(
    ws: Workspace,
    root: Seq<char>,
    prefix: Seq<char>,
    g: Json,
) -> Seq<ThumbView> {
    match str_field(g, "slug"@) {
        None => Seq::empty(),
        Some(s) => cover_candidate(ws.files@, root, prefix, g) + photo_candidates(
            ws.files@,
            root,
            prefix,
            s,
            details_photos(ws.details@, s),
        ),
    }
}

pub open spec fn candidates_of(
    ws: Workspace,
    root: Seq<char>,
    prefix: Seq<char>,
    gl: Seq<Json>,
) -> Seq<ThumbView>
    decreases gl.len(),
{
    if gl.len() == 0 {
        Seq::empty()
    } else {
        candidates_of(ws, root, prefix, gl.drop_last()) + gallery_candidates(
            ws,
            root,
            prefix,
            gl.last(),
        )
    }
}

pub open spec fn has_dest(v: Seq<ThumbView>, d: Seq<char>) -> bool {
    exists|i: int| 0 <= i < v.len() && (#[trigger] v[i]).dest == d
}

/// The first thumbnail for each destination, in order.
pub open spec fn dedup_by_dest(v: Seq<ThumbView>) -> Seq<ThumbView>
    decreases v.len(),
{
    if v.len() == 0 {
        Seq::empty()
    } else {
        let r = dedup_by_dest(v.drop_last());
        if has_dest(r, v.last().dest) {
            r
        } else {
            r.push(v.last())
        }
    }
}

pub open spec fn spec_views(v: Seq<ThumbnailSpec>) -> Seq<ThumbView> {
    v.map_values(|t: ThumbnailSpec| t@)
}

/// Deduplication keeps one thumbnail per destination: no two share one, every
/// asked-for destination is present, and each kept thumbnail was asked for.
pub proof fn law_one_thumbnail_per_destination(v: Seq<ThumbView>)
    ensures
        forall|i: int, j: int|
            0 <= i < dedup_by_dest(v).len() && 0 <= j < dedup_by_dest(v).len() && i != j ==> (
            #[trigger] dedup_by_dest(v)[i]).dest != (#[trigger] dedup_by_dest(v)[j]).dest,
        forall|k: int| 0 <= k < v.len() ==> has_dest(dedup_by_dest(v), (#[trigger] v[k]).dest),
        forall|i: int| 0 <= i < dedup_by_dest(v).len() ==> v.contains(#[trigger] dedup_by_dest(v)[i]),
    decreases v.len(),
{
    if v.len() > 0 {
        let init = v.drop_last();
        law_one_thumbnail_per_destination(init);
        let r = dedup_by_dest(init);
        let x = v.last();
        assert(v[v.len() - 1] == x);
        assert forall|k: int| 0 <= k < v.len() implies has_dest(
            dedup_by_dest(v),
            (#[trigger] v[k]).dest,
        ) by {
            if k < v.len() - 1 {
                assert(init[k] == v[k]);
                let j = choose|j: int| 0 <= j < r.len() && (#[trigger] r[j]).dest == init[k].dest;
                if !has_dest(r, x.dest) {
                    assert(r.push(x)[j] == r[j]);
                }
            } else {
                if !has_dest(r, x.dest) {
                    assert(r.push(x)[r.len() as int] == x);
                }
            }
        }
        assert forall|i: int| 0 <= i < dedup_by_dest(v).len() implies v.contains(
            #[trigger] dedup_by_dest(v)[i],
        ) by {
            if i < r.len() {
                if !has_dest(r, x.dest) {
                    assert(r.push(x)[i] == r[i]);
                }
                assert(init.contains(r[i]));
                let j = choose|j: int| 0 <= j < init.len() && init[j] == r[i];
                assert(v[j] == init[j]);
            } else {
                assert(dedup_by_dest(v)[i] == x);
            }
        }
        if !has_dest(r, x.dest) {
            assert forall|i: int, j: int|
                0 <= i < dedup_by_dest(v).len() && 0 <= j < dedup_by_dest(v).len() && i != j
                    implies (#[trigger] dedup_by_dest(v)[i]).dest != (
            #[trigger] dedup_by_dest(v)[j]).dest by {
                let d = r.push(x);
                if i < r.len() {
                    assert(d[i] == r[i]);
                }
                if j < r.len() {
                    assert(d[j] == r[j]);
                }
            }
        }
    }
}

/// A cover that is one of the gallery's own photo thumbnails asks for the
/// same destination as that photo, so deduplication keeps one spec for both.
pub proof fn law_cover_reused_as_photo_shares_destination(
    files: Seq<String>,
    root: Seq<char>,
    prefix: Seq<char>,
    g: Json,
    photo: Json,
    slug: Seq<char>,
    t: Seq<char>,
)
    requires
        str_field(g, "cover"@) == Some(slug + "/"@ + t),
        str_field(photo, "thumbnail"@) == Some(t),
        slug.len() > 0,
        t.len() > 0,
        !t.contains('/'),
        has_file(files, slug + "/"@ + t),
    ensures
        cover_candidate(files, root, prefix, g).len() == 1,
        photo_candidate(files, root, prefix, slug, photo).len() == 1,
        cover_candidate(files, root, prefix, g)[0].dest == photo_candidate(
            files,
            root,
            prefix,
            slug,
            photo,
        )[0].dest,
{
    reveal_strlit("/");
    let c = slug + "/"@ + t;
    let k = slug.len() as int;
    assert(c[k] == '/');
    assert forall|j: int| k < j < c.len() implies c[j] != '/' by {
        assert(c[j] == t[j - k - 1]);
    }
    crate::text::lemma_last_index_of_char(c, '/', k);
    assert forall|j: int| -1 < j < t.len() implies t[j] != '/' by {
        if t[j] == '/' {
            assert(t.contains('/'));
        }
    }
    crate::text::lemma_last_index_of_char(t, '/', -1);
    assert(c.subrange(k + 1, c.len() as int) =~= t);
    assert(c.subrange(0, k) =~= slug);
    assert(file_name_of(c) == t);
    assert(file_name_of(t) =~= t);
    assert(join_of(slug, t) == c);
}

fn find_dest(out: &Vec<ThumbnailSpec>, d: &str) -> (r: bool)
    ensures
        r == has_dest(spec_views(out@), d@),
{
    let n = out.len();
    let mut i: usize = 0;
    while i < n
        invariant
            n == out@.len(),
            i <= n,
            forall|j: int| 0 <= j < i ==> out@[j].dest_path@ != d@,
        decreases n - i,
    {
        if str_eq(out[i].dest_path.as_str(), d) {
            assert(spec_views(out@)[i as int].dest == d@);
            return true;
        }
        i = i + 1;
    }
    proof {
        if has_dest(spec_views(out@), d@) {
            let j = choose|j: int|
                0 <= j < spec_views(out@).len() && (#[trigger] spec_views(out@)[j]).dest == d@;
            assert(out@[j].dest_path@ == d@);
        }
    }
    false
}

fn add_spec(out: &mut Vec<ThumbnailSpec>, t: ThumbnailSpec)
    ensures
        has_dest(spec_views(old(out)@), t@.dest) ==> final(out)@ == old(out)@,
        !has_dest(spec_views(old(out)@), t@.dest) ==> spec_views(final(out)@) == spec_views(
            old(out)@,
        ).push(t@),
{
    if !find_dest(out, t.dest_path.as_str()) {
        let ghost before = out@;
        let ghost tv = t@;
        out.push(t);
        assert(spec_views(out@) =~= spec_views(before).push(tv));
    }
}

fn cover_spec(files: &Vec<String>, root: &str, prefix: &str, g: &Json) -> (r: Option<
    ThumbnailSpec,
>)
    ensures
        match r {
            Some(t) => cover_candidate(files@, root@, prefix@, *g) == seq![t@],
            None => cover_candidate(files@, root@, prefix@, *g) == Seq::<ThumbView>::empty(),
        },
{
    let c = match get_str(g, "cover") {
        Some(c) => c,
        None => return None,
    };
    if c.as_str().unicode_len() == 0 || !file_exists(files, c.as_str()) || file_name(
        c.as_str(),
    ).as_str().unicode_len() == 0 {
        return None;
    }
    let dir = dir_part(c.as_str());
    let file = thumb_file(c.as_str());
    let cache = join(root, ".data/thumbnails");
    let inner = join(dir.as_str(), file.as_str());
    let t = ThumbnailSpec {
        source_path: join(root, c.as_str()),
        dest_path: join(cache.as_str(), inner.as_str()),
        s3_key: thumb_key(prefix, dir.as_str(), file.as_str()),
        slug: dir,
        thumb_filename: file,
    };
    Some(t)
}

fn photo_spec(files: &Vec<String>, root: &str, prefix: &str, slug: &str, photo: &Json) -> (r:
    Option<ThumbnailSpec>)
    ensures
        match r {
            Some(t) => photo_candidate(files@, root@, prefix@, slug@, *photo) == seq![t@],
            None => photo_candidate(files@, root@, prefix@, slug@, *photo) == Seq::<
                ThumbView,
            >::empty(),
        },
{
    let t = match get_str(photo, "thumbnail") {
        Some(t) => t,
        None => return None,
    };
    if t.as_str().unicode_len() == 0 {
        return None;
    }
    let rel = join(slug, t.as_str());
    if !file_exists(files, rel.as_str()) || file_name(t.as_str()).as_str().unicode_len() == 0 {
        return None;
    }
    let file = thumb_file(t.as_str());
    let cache = join(root, ".data/thumbnails");
    let inner = join(slug, file.as_str());
    let spec = ThumbnailSpec {
        source_path: join(root, rel.as_str()),
        dest_path: join(cache.as_str(), inner.as_str()),
        s3_key: thumb_key(prefix, slug, file.as_str()),
        slug: String::from_str(slug),
        thumb_filename: file,
    };
    Some(spec)
}

fn add_gallery_specs(
    out: &mut Vec<ThumbnailSpec>,
    ws: &Workspace,
    root: &str,
    prefix: &str,
    g: &Json,
    Ghost(base): Ghost<Seq<ThumbView>>,
)
    requires
        spec_views(old(out)@) == dedup_by_dest(base),
    ensures
        spec_views(final(out)@) == dedup_by_dest(
            base + gallery_candidates(*ws, root@, prefix@, *g),
        ),
{
    let slug = match get_str(g, "slug") {
        Some(s) => s,
        None => {
            assert(base + gallery_candidates(*ws, root@, prefix@, *g) =~= base);
            return;
        },
    };
    let ghost cover = cover_candidate(ws.files@, root@, prefix@, *g);
    match cover_spec(&ws.files, root, prefix, g) {
        Some(t) => {
            add_spec(out, t);
            assert((base + cover).drop_last() =~= base);
        },
        None => {
            assert(base + cover =~= base);
        },
    }
    let ghost head = base + cover;
    match photos_of(&ws.details, slug.as_str()) {
        Some(photos) => {
            let n = photos.len();
            let mut i: usize = 0;
            while i < n
                invariant
                    n == photos@.len(),
                    photos@ == details_photos(ws.details@, slug@),
                    i <= n,
                    spec_views(out@) == dedup_by_dest(
                        head + photo_candidates(
                            ws.files@,
                            root@,
                            prefix@,
                            slug@,
                            photos@.subrange(0, i as int),
                        ),
                    ),
                decreases n - i,
            {
                let ghost pre = photos@.subrange(0, i + 1);
                assert(pre.drop_last() == photos@.subrange(0, i as int));
                assert(pre.last() == photos@[i as int]);
                let ghost done = head + photo_candidates(
                    ws.files@,
                    root@,
                    prefix@,
                    slug@,
                    photos@.subrange(0, i as int),
                );
                match photo_spec(&ws.files, root, prefix, slug.as_str(), &photos[i]) {
                    Some(t) => {
                        let ghost tv = t@;
                        add_spec(out, t);
                        assert(head + photo_candidates(ws.files@, root@, prefix@, slug@, pre)
                            =~= done.push(tv));
                        assert(done.push(tv).drop_last() =~= done);
                    },
                    None => {
                        assert(head + photo_candidates(ws.files@, root@, prefix@, slug@, pre)
                            =~= done);
                    },
                }
                i = i + 1;
            }
            assert(photos@.subrange(0, n as int) == photos@);
            assert(head + photo_candidates(ws.files@, root@, prefix@, slug@, photos@) =~= base
                + gallery_candidates(*ws, root@, prefix@, *g));
        },
        None => {
            assert(photo_candidates(
                ws.files@,
                root@,
                prefix@,
                slug@,
                details_photos(ws.details@, slug@),
            ) =~= Seq::<ThumbView>::empty());
            assert(head =~= base + gallery_candidates(*ws, root@, prefix@, *g));
        },
    }
}

/// The thumbnails to derive for the workspace at `root` (paths in the specs
/// are joined to it), with remote keys below `s3_root`: one per cover and
/// per photo thumbnail that exists, in index order, the first one kept for
/// each cache destination.
pub fn build_thumbnail_specs(ws: &Workspace, root: &str, s3_root: &str) -> (r: Vec<ThumbnailSpec>)
    ensures
        spec_views(r@) == dedup_by_dest(
            candidates_of(*ws, root@, s3_root@, gallery_list(ws.index)),
        ),
{
    let mut out: Vec<ThumbnailSpec> = Vec::new();
    assert(spec_views(out@) =~= dedup_by_dest(Seq::empty()));
    match parse_galleries_array(&ws.index) {
        Some(gl) => {
            let n = gl.len();
            let mut i: usize = 0;
            while i < n
                invariant
                    n == gl@.len(),
                    gl@ == gallery_list(ws.index),
                    i <= n,
                    spec_views(out@) == dedup_by_dest(
                        candidates_of(*ws, root@, s3_root@, gl@.subrange(0, i as int)),
                    ),
                decreases n - i,
            {
                let ghost pre = gl@.subrange(0, i + 1);
                assert(pre.drop_last() == gl@.subrange(0, i as int));
                assert(pre.last() == gl@[i as int]);
                add_gallery_specs(
                    &mut out,
                    ws,
                    root,
                    s3_root,
                    &gl[i],
                    Ghost(candidates_of(*ws, root@, s3_root@, gl@.subrange(0, i as int))),
                );
                i = i + 1;
            }
            assert(gl@.subrange(0, n as int) == gl@);
        },
        None => {},
    }
    out
}

// ----- size and freshness -----

/// `n / d` rounded to the nearest integer, halves up.
pub open spec fn div_round(n: nat, d: nat) -> nat
    recommends
        d > 0,
{
    ((2 * n + d) / (2 * d)) as nat
}

/// The size of the thumbnail of a `w`×`h` image: unchanged when both sides
/// fit in 800 pixels, else scaled so the longer side is 800 and the shorter
/// one in proportion (at least 1).
pub open spec fn thumbnail_size(w: nat, h: nat) -> (nat, nat) {
    if w <= 800 && h <= 800 {
        (w, h)
    } else if w >= h {
        let s = div_round(h * 800, w);
        (800, if s == 0 { 1 } else { s })
    } else {
        let s = div_round(w * 800, h);
        (if s == 0 { 1 } else { s }, 800)
    }
}

/// The size that an image of `width`×`height` is brought to.
pub fn thumbnail_dimensions(width: u32, height: u32) -> (r: (u32, u32))
    ensures
        (r.0 as nat, r.1 as nat) == thumbnail_size(width as nat, height as nat),
        r.0 <= THUMBNAIL_MAX_SIDE && r.1 <= THUMBNAIL_MAX_SIDE,
{
    if width <= THUMBNAIL_MAX_SIDE && height <= THUMBNAIL_MAX_SIDE {
        return (width, height);
    }
    if width >= height {
        let n: u64 = 2 * (height as u64) * 800 + width as u64;
        let d: u64 = 2 * (width as u64);
        let s: u64 = n / d;
        assert(s <= 800) by (nonlinear_arith)
            requires
                s == n / d,
                n == 2 * (height as u64) * 800 + width as u64,
                d == 2 * (width as u64),
                height <= width,
                width > 800,
        ;
        (800, if s == 0 { 1 } else { s as u32 })
    } else {
        let n: u64 = 2 * (width as u64) * 800 + height as u64;
        let d: u64 = 2 * (height as u64);
        let s: u64 = n / d;
        assert(s <= 800) by (nonlinear_arith)
            requires
                s == n / d,
                n == 2 * (width as u64) * 800 + height as u64,
                d == 2 * (height as u64),
                width < height,
                height > 800,
        ;
        (if s == 0 { 1 } else { s as u32 }, 800)
    }
}

/// No thumbnail is wider or taller than 800 pixels.
pub proof fn law_thumbnail_bounded(w: nat, h: nat)
    ensures
        thumbnail_size(w, h).0 <= 800,
        thumbnail_size(w, h).1 <= 800,
{
    if !(w <= 800 && h <= 800) {
        if w >= h {
            assert((2 * (h * 800) + w) / (2 * w) <= 800) by (nonlinear_arith)
                requires
                    h <= w,
                    w > 800,
            ;
        } else {
            assert((2 * (w * 800) + h) / (2 * h) <= 800) by (nonlinear_arith)
                requires
                    w < h,
                    h > 800,
            ;
        }
    }
}

/// A cached thumbnail is fresh when it exists and was modified no earlier
/// than its source (modification times in nanoseconds since the epoch).
pub fn is_thumbnail_fresh(dest_exists: bool, source_mtime: u128, dest_mtime: u128) -> (r: bool)
    ensures
        r == (dest_exists && dest_mtime >= source_mtime),
        !dest_exists ==> !r,
{
    dest_exists && dest_mtime >= source_mtime
}

// ----- the run over all specs -----

/// Makes every thumbnail that is not fresh, in order: `is_fresh` tells
/// whether a spec's cached file is up to date, `generate` makes it, and
/// `on_progress(index_1_based, total, spec)` is told after each spec whatever
/// its outcome. Failures are collected, not fatal.
pub fn ensure_thumbnails_with_progress<F, G, P>(
    specs: &Vec<ThumbnailSpec>,
    is_fresh: F,
    generate: G,
    on_progress: P,
) -> (r: ThumbnailResults) where
    F: Fn(&ThumbnailSpec) -> bool,
    G: Fn(&ThumbnailSpec) -> Result<(), String>,
    P: Fn(usize, usize, &ThumbnailSpec),

    requires
        forall|t: &ThumbnailSpec| #[trigger] is_fresh.requires((t,)),
        forall|t: &ThumbnailSpec| #[trigger] generate.requires((t,)),
        forall|i: usize, n: usize, t: &ThumbnailSpec| #[trigger] on_progress.requires((i, n, t)),
    ensures
        r.outcomes@.len() == specs@.len(),
        forall|i: int|
            0 <= i < specs@.len() ==> outcome_allowed(
                is_fresh,
                generate,
                &specs@[i],
                #[trigger] r.outcomes@[i],
            ),
        r.skipped == count_of(r.outcomes@, ThumbOutcome::Fresh),
        r.generated == count_of(r.outcomes@, ThumbOutcome::Generated),
        error_sources(r.errors@) == failed_sources(specs@, r.outcomes@),
        r.generated + r.skipped + r.errors@.len() == specs@.len(),
{
    let total = specs.len();
    let ghost mut outs: Seq<ThumbOutcome> = Seq::empty();
    let mut generated: usize = 0;
    let mut skipped: usize = 0;
    let mut errors: Vec<(String, String)> = Vec::new();
    let mut i: usize = 0;
    while i < total
        invariant
            total == specs@.len(),
            i <= total,
            generated + skipped + errors@.len() == i,
            outs.len() == i,
            forall|j: int|
                0 <= j < i ==> outcome_allowed(is_fresh, generate, &specs@[j], #[trigger] outs[j]),
            skipped == count_of(outs, ThumbOutcome::Fresh),
            generated == count_of(outs, ThumbOutcome::Generated),
            errors@.len() == count_of(outs, ThumbOutcome::Failed),
            error_sources(errors@) == failed_sources(specs@, outs),
            forall|t: &ThumbnailSpec| #[trigger] is_fresh.requires((t,)),
            forall|t: &ThumbnailSpec| #[trigger] generate.requires((t,)),
            forall|a: usize, n: usize, t: &ThumbnailSpec| #[trigger] on_progress.requires((a, n, t)),
        decreases total - i,
    {
        let spec = &specs[i];
        let ghost before = outs;
        assert(*spec == specs@[i as int]);
        let fresh = is_fresh(spec);
        if fresh {
            skipped = skipped + 1;
            proof {
                outs = outs.push(ThumbOutcome::Fresh);
                assert(outcome_allowed(is_fresh, generate, &specs@[i as int], ThumbOutcome::Fresh));
            }
        } else {
            let made = generate(spec);
            match made {
                Ok(()) => {
                    generated = generated + 1;
                    proof {
                        outs = outs.push(ThumbOutcome::Generated);
                        assert(generate.ensures((spec,), made));
                        assert(outcome_allowed(
                            is_fresh,
                            generate,
                            &specs@[i as int],
                            ThumbOutcome::Generated,
                        ));
                    }
                },
                Err(e) => {
                    let ghost ev = e;
                    let ghost errs = errors@;
                    errors.push((spec.source_path.clone(), e));
                    proof {
                        outs = outs.push(ThumbOutcome::Failed);
                        assert(error_sources(errors@) =~= error_sources(errs).push(
                            spec.source_path@,
                        ));
                        assert(generate.ensures((spec,), Err(ev)));
                        assert(outcome_allowed(
                            is_fresh,
                            generate,
                            &specs@[i as int],
                            ThumbOutcome::Failed,
                        ));
                    }
                },
            }
        }
        proof {
            assert(outs.drop_last() == before);
            assert forall|j: int| 0 <= j < i + 1 implies outcome_allowed(
                is_fresh,
                generate,
                &specs@[j],
                #[trigger] outs[j],
            ) by {
                if j < i {
                    assert(outs[j] == before[j]);
                }
            }
        }
        on_progress(i + 1, total, spec);
        i = i + 1;
    }
    ThumbnailResults { generated, skipped, errors, outcomes: Ghost(outs) }
}

/// [`ensure_thumbnails_with_progress`] without progress reports.
pub fn ensure_thumbnails<F, G>(specs: &Vec<ThumbnailSpec>, is_fresh: F, generate: G) -> (r:
    ThumbnailResults) where F: Fn(&ThumbnailSpec) -> bool, G: Fn(&ThumbnailSpec) -> Result<(), String>
    requires
        forall|t: &ThumbnailSpec| #[trigger] is_fresh.requires((t,)),
        forall|t: &ThumbnailSpec| #[trigger] generate.requires((t,)),
    ensures
        r.outcomes@.len() == specs@.len(),
        forall|i: int|
            0 <= i < specs@.len() ==> outcome_allowed(
                is_fresh,
                generate,
                &specs@[i],
                #[trigger] r.outcomes@[i],
            ),
        r.skipped == count_of(r.outcomes@, ThumbOutcome::Fresh),
        r.generated == count_of(r.outcomes@, ThumbOutcome::Generated),
        error_sources(r.errors@) == failed_sources(specs@, r.outcomes@),
        r.generated + r.skipped + r.errors@.len() == specs@.len(),
{
    ensure_thumbnails_with_progress(specs, is_fresh, generate, |_i: usize, _n: usize, _t: &ThumbnailSpec| {})
}

// ----- stale cache files -----

/// An extension equal to "webp" when ASCII case is ignored.
pub open spec fn is_webp_extension(e: Seq<char>) -> bool {
    e.len() == 4 && (e[0] == 'w' || e[0] == 'W') && (e[1] == 'e' || e[1] == 'E') && (e[2] == 'b'
        || e[2] == 'B') && (e[3] == 'p' || e[3] == 'P')
}

pub open spec fn is_expected_dest(specs: Seq<ThumbnailSpec>, p: Seq<char>) -> bool {
    exists|i: int| 0 <= i < specs.len() && (#[trigger] specs[i]).dest_path@ == p
}

/// A cached file is stale when it is a WebP file that no spec produces.
pub open spec fn is_stale(specs: Seq<ThumbnailSpec>, p: Seq<char>) -> bool {
    match extension_of(p) {
        Some(e) => is_webp_extension(e) && !is_expected_dest(specs, p),
        None => false,
    }
}

fn webp_ext(e: &str) -> (r: bool)
    ensures
        r == is_webp_extension(e@),
{
    if e.unicode_len() != 4 {
        return false;
    }
    let a = e.get_char(0);
    let b = e.get_char(1);
    let c = e.get_char(2);
    let d = e.get_char(3);
    (a == 'w' || a == 'W') && (b == 'e' || b == 'E') && (c == 'b' || c == 'B') && (d == 'p' || d
        == 'P')
}

fn expected_dest(specs: &Vec<ThumbnailSpec>, p: &str) -> (r: bool)
    ensures
        r == is_expected_dest(specs@, p@),
{
    let n = specs.len();
    let mut i: usize = 0;
    while i < n
        invariant
            n == specs@.len(),
            i <= n,
            forall|j: int| 0 <= j < i ==> specs@[j].dest_path@ != p@,
        decreases n - i,
    {
        if str_eq(specs[i].dest_path.as_str(), p) {
            return true;
        }
        i = i + 1;
    }
    false
}

/// The stale files among `found`, in order.
pub open spec fn stale_of(specs: Seq<ThumbnailSpec>, found: Seq<String>) -> Seq<Seq<char>>
    decreases found.len(),
{
    if found.len() == 0 {
        Seq::empty()
    } else if is_stale(specs, found.last()@) {
        stale_of(specs, found.drop_last()).push(found.last()@)
    } else {
        stale_of(specs, found.drop_last())
    }
}

/// Of the files found in the thumbnail cache, those to delete: the WebP
/// files that are no spec's destination, in the order found.
pub fn stale_thumbnails(found: &Vec<String>, specs: &Vec<ThumbnailSpec>) -> (r: Vec<String>)
    ensures
        r@.map_values(|s: String| s@) == stale_of(specs@, found@),
{
    let mut out: Vec<String> = Vec::new();
    let n = found.len();
    let mut i: usize = 0;
    while i < n
        invariant
            n == found@.len(),
            i <= n,
            out@.map_values(|s: String| s@) == stale_of(specs@, found@.subrange(0, i as int)),
        decreases n - i,
    {
        let ghost pre = found@.subrange(0, i + 1);
        assert(pre.drop_last() == found@.subrange(0, i as int));
        assert(pre.last() == found@[i as int]);
        let p = &found[i];
        let stale = match extension(p.as_str()) {
            Some(e) => webp_ext(e.as_str()) && !expected_dest(specs, p.as_str()),
            None => false,
        };
        let ghost before = out@;
        if stale {
            out.push(p.clone());
            assert(out@.map_values(|s: String| s@) =~= before.map_values(|s: String| s@).push(
                p@,
            ));
        }
        i = i + 1;
    }
    assert(found@.subrange(0, n as int) == found@);
    out
}

} // verus!
