//! The workspace as the publisher sees it: the gallery index, each gallery's
//! detail file, and which referenced files exist. From it come the exact set
//! of files that may be published.
use vstd::prelude::*;
use vstd::string::StringExecFns;
use crate::json::{
    array_field, gallery_list, get_array, get_str, parse_galleries_array, str_field, Json,
};
use crate::paths::{join, join_of};
use crate::text::str_eq;
use vstd::string::StrSliceExecFns;

verus! {

/// The name of the gallery index file at the workspace root.
pub const GALLERY_INDEX_FILE: &'static str = "galleries.json";

/// The name of the detail file in each gallery directory.
pub const GALLERY_DETAILS_FILE: &'static str = "gallery-details.json";

/// A gallery's detail file, for a gallery whose file exists; `content` is
/// `None` when it could not be read or parsed.
pub struct GalleryDetailsFile {
    pub slug: String,
    pub content: Option<Json>,
}

/// What publishing reads of a workspace: the parsed gallery index, the
/// detail files present, and the workspace-relative paths (with '/') of the
/// referenced files that exist as regular files.
pub struct Workspace {
    pub index: Json,
    pub details: Vec<GalleryDetailsFile>,
    pub files: Vec<String>,
}

/// The set of paths held by a list of strings.
pub open spec fn paths_set(v: Seq<String>) -> Set<Seq<char>> {
    Set::new(|p: Seq<char>| exists|i: int| 0 <= i < v.len() && (#[trigger] v[i])@ == p)
}

/// No path occurs twice.
pub open spec fn paths_unique(v: Seq<String>) -> bool {
    forall|i: int, j: int|
        0 <= i < v.len() && 0 <= j < v.len() && i != j ==> (#[trigger] v[i])@ != (#[trigger] v[j])@
}

pub open spec fn has_file(files: Seq<String>, p: Seq<char>) -> bool {
    paths_set(files).contains(p)
}

/// The detail file recorded for `slug` (the first one).
pub open spec fn details_entry(ds: Seq<GalleryDetailsFile>, slug: Seq<char>) -> Option<
    GalleryDetailsFile,
>
    decreases ds.len(),
{
    if ds.len() == 0 {
        None
    } else if ds[0].slug@ == slug {
        Some(ds[0])
    } else {
        details_entry(ds.drop_first(), slug)
    }
}

/// The photo entries of the detail file of `slug`; none when it is absent or unreadable.
pub open spec fn details_photos(ds: Seq<GalleryDetailsFile>, slug: Seq<char>) -> Seq<Json> {
    match details_entry(ds, slug) {
        Some(d) => match d.content {
            Some(j) => array_field(j, "photos"@),
            None => Seq::empty(),
        },
        None => Seq::empty(),
    }
}

/// A referenced path `rel` counts when it is not empty and the file exists.
pub open spec fn existing_ref(files: Seq<String>, rel: Option<Seq<char>>) -> Set<Seq<char>> {
    match rel {
        Some(p) => if p.len() > 0 && has_file(files, p) {
            set![p]
        } else {
            Set::empty()
        },
        None => Set::empty(),
    }
}

pub open spec fn opt_view(o: Option<String>) -> Option<Seq<char>> {
    match o {
        Some(s) => Some(s@),
        None => None,
    }
}

pub open spec fn joined(slug: Seq<char>, rel: Option<Seq<char>>) -> Option<Seq<char>> {
    match rel {
        Some(p) => if p.len() > 0 {
            Some(join_of(slug, p))
        } else {
            Some(p)
        },
        None => None,
    }
}

/// The files that one photo entry of gallery `slug` references.
pub open spec fn photo_refs(files: Seq<String>, slug: Seq<char>, photo: Json) -> Set<Seq<char>> {
    existing_ref(files, joined(slug, str_field(photo, "thumbnail"@))).union(
        existing_ref(files, joined(slug, str_field(photo, "full"@))),
    )
}

pub open spec fn photos_refs(files: Seq<String>, slug: Seq<char>, photos: Seq<Json>) -> Set<
    Seq<char>,
>
    decreases photos.len(),
{
    if photos.len() == 0 {
        Set::empty()
    } else {
        photos_refs(files, slug, photos.drop_last()).union(photo_refs(files, slug, photos.last()))
    }
}

/// The files that one gallery of the index references: its cover, its detail
/// file, and the images of its photos. A gallery without a slug references none.
pub open spec fn gallery_refs(ws: Workspace, g: Json) -> Set<Seq<char>> {
    match str_field(g, "slug"@) {
        None => Set::empty(),
        Some(s) => {
            let cover = existing_ref(ws.files@, str_field(g, "cover"@));
            if details_entry(ws.details@, s).is_some() {
                cover.insert(join_of(s, GALLERY_DETAILS_FILE@)).union(
                    photos_refs(ws.files@, s, details_photos(ws.details@, s)),
                )
            } else {
                cover
            }
        },
    }
}

pub open spec fn galleries_refs(ws: Workspace, gl: Seq<Json>) -> Set<Seq<char>>
    decreases gl.len(),
{
    if gl.len() == 0 {
        Set::empty()
    } else {
        galleries_refs(ws, gl.drop_last()).union(gallery_refs(ws, gl.last()))
    }
}

/// Every file that may be published: the gallery index and what it references.
pub open spec fn referenced_files(ws: Workspace) -> Set<Seq<char>> {
    galleries_refs(ws, gallery_list(ws.index)).insert(GALLERY_INDEX_FILE@)
}

/// An index that is neither a bare list nor a wrapping object.
pub open spec fn index_shape_ok(index: Json) -> bool {
    index is Array || index is Object
}

/// Strict order of strings: lexicographic by code point (the order of their
/// UTF-8 bytes).
pub open spec fn str_lt(a: Seq<char>, b: Seq<char>) -> bool
    decreases a.len(),
{
    if b.len() == 0 {
        false
    } else if a.len() == 0 {
        true
    } else if a[0] != b[0] {
        (a[0] as u32) < (b[0] as u32)
    } else {
        str_lt(a.drop_first(), b.drop_first())
    }
}

proof fn lemma_lt_irreflexive(a: Seq<char>)
    ensures
        !str_lt(a, a),
    decreases a.len(),
{
    if a.len() > 0 {
        lemma_lt_irreflexive(a.drop_first());
    }
}

/// A strictly sorted list holds no path twice.
proof fn lemma_sorted_unique(v: Seq<String>)
    requires
        sorted_unique(v),
    ensures
        paths_unique(v),
{
    assert forall|i: int, j: int|
        0 <= i < v.len() && 0 <= j < v.len() && i != j implies (#[trigger] v[i])@ != (
        #[trigger] v[j])@ by {
        if i < j {
            if v[i]@ == v[j]@ {
                lemma_lt_irreflexive(v[i]@);
            }
        } else {
            if v[i]@ == v[j]@ {
                lemma_lt_irreflexive(v[j]@);
            }
        }
    }
}

proof fn lemma_lt_total(a: Seq<char>, b: Seq<char>)
    ensures
        str_lt(a, b) || str_lt(b, a) || a == b,
    decreases a.len(),
{
    if a.len() > 0 && b.len() > 0 && a[0] == b[0] {
        lemma_lt_total(a.drop_first(), b.drop_first());
        if a.drop_first() == b.drop_first() {
            assert(a =~= seq![a[0]] + a.drop_first());
            assert(b =~= seq![b[0]] + b.drop_first());
        }
    } else if a.len() > 0 && b.len() > 0 {
        let x = a[0];
        let y = b[0];
        vstd::utf8::char_u32_cast(x, x as u32);
        vstd::utf8::char_u32_cast(y, y as u32);
        assert((x as u32) != (y as u32));
    } else if a.len() == 0 && b.len() == 0 {
        assert(a =~= b);
    }
}

proof fn lemma_lt_transitive(a: Seq<char>, b: Seq<char>, c: Seq<char>)
    requires
        str_lt(a, b),
        str_lt(b, c),
    ensures
        str_lt(a, c),
    decreases a.len(),
{
    if a.len() > 0 && b.len() > 0 && c.len() > 0 && a[0] == b[0] && b[0] == c[0] {
        lemma_lt_transitive(a.drop_first(), b.drop_first(), c.drop_first());
    }
}

pub open spec fn sorted_unique(v: Seq<String>) -> bool {
    forall|i: int, j: int| 0 <= i < j < v.len() ==> str_lt((#[trigger] v[i])@, (#[trigger] v[j])@)
}

fn lt(a: &str, b: &str) -> (r: bool)
    ensures
        r == str_lt(a@, b@),
{
    let n = a.unicode_len();
    let m = b.unicode_len();
    let mut i: usize = 0;
    assert(a@.subrange(0, n as int) == a@);
    assert(b@.subrange(0, m as int) == b@);
    while i < n && i < m
        invariant
            n == a@.len(),
            m == b@.len(),
            i <= n,
            i <= m,
            str_lt(a@, b@) == str_lt(a@.subrange(i as int, n as int), b@.subrange(i as int, m as int)),
        decreases n - i,
    {
        let x = a.get_char(i);
        let y = b.get_char(i);
        let ghost sa = a@.subrange(i as int, n as int);
        let ghost sb = b@.subrange(i as int, m as int);
        assert(sa[0] == x && sb[0] == y);
        if x != y {
            return (x as u32) < (y as u32);
        }
        assert(sa.drop_first() == a@.subrange(i + 1, n as int));
        assert(sb.drop_first() == b@.subrange(i + 1, m as int));
        i = i + 1;
    }
    i < m
}

/// Adds `s` to a strictly sorted list unless it is there already.
pub(crate) fn insert_sorted(out: &mut Vec<String>, s: &String)
    requires
        sorted_unique(old(out)@),
    ensures
        sorted_unique(final(out)@),
        paths_set(final(out)@) == paths_set(old(out)@).insert(s@),
{
    let n = out.len();
    let mut p: usize = 0;
    while p < n && lt(out[p].as_str(), s.as_str())
        invariant
            n == out@.len(),
            p <= n,
            forall|i: int| 0 <= i < p ==> str_lt(out@[i]@, s@),
        decreases n - p,
    {
        p = p + 1;
    }
    if p < n && crate::text::str_eq(out[p].as_str(), s.as_str()) {
        assert(paths_set(out@) =~= paths_set(out@).insert(s@)) by {
            assert(out@[p as int]@ == s@);
        }
        return;
    }
    proof {
        if p < n {
            lemma_lt_total(out@[p as int]@, s@);
        }
    }
    let ghost before = out@;
    out.insert(p, s.clone());
    assert forall|i: int, j: int| 0 <= i < j < out@.len() implies str_lt(
        (#[trigger] out@[i])@,
        (#[trigger] out@[j])@,
    ) by {
        if i < p && j < p {
            assert(out@[i] == before[i] && out@[j] == before[j]);
        } else if i < p && j == p {
        } else if i < p {
            assert(out@[i] == before[i] && out@[j] == before[j - 1]);
        } else if i == p {
            assert(out@[j] == before[j - 1]);
            if j - 1 > p {
                lemma_lt_transitive(s@, before[p as int]@, before[j - 1]@);
            }
        } else {
            assert(out@[i] == before[i - 1] && out@[j] == before[j - 1]);
        }
    }
    assert(paths_set(out@) =~= paths_set(before).insert(s@)) by {
        assert(out@[p as int]@ == s@);
        assert forall|q: Seq<char>| paths_set(before).contains(q) implies paths_set(out@).contains(
            q,
        ) by {
            let j = choose|j: int| 0 <= j < before.len() && (#[trigger] before[j])@ == q;
            if j < p {
                assert(out@[j] == before[j]);
            } else {
                assert(out@[j + 1] == before[j]);
            }
        }
        assert forall|q: Seq<char>| paths_set(out@).contains(q) implies paths_set(before).insert(
            s@,
        ).contains(q) by {
            let j = choose|j: int| 0 <= j < out@.len() && (#[trigger] out@[j])@ == q;
            if j < p {
                assert(out@[j] == before[j]);
            } else if j > p {
                assert(out@[j] == before[j - 1]);
            }
        }
    }
}

fn add_path(out: &mut Vec<String>, p: String)
    requires
        sorted_unique(old(out)@),
    ensures
        sorted_unique(final(out)@),
        paths_set(final(out)@) == paths_set(old(out)@).insert(p@),
{
    insert_sorted(out, &p);
}

/// Whether the workspace-relative path `p` is a file that exists.
pub fn file_exists(files: &Vec<String>, p: &str) -> (r: bool)
    ensures
        r == has_file(files@, p@),
{
    let n = files.len();
    let mut i: usize = 0;
    while i < n
        invariant
            n == files@.len(),
            i <= n,
            forall|j: int| 0 <= j < i ==> files@[j]@ != p@,
        decreases n - i,
    {
        if str_eq(files[i].as_str(), p) {
            assert(files@[i as int]@ == p@);
            return true;
        }
        i = i + 1;
    }
    false
}

/// The detail file recorded for `slug`.
pub fn find_details<'a>(ds: &'a Vec<GalleryDetailsFile>, slug: &str) -> (r: Option<
    &'a GalleryDetailsFile,
>)
    ensures
        match r {
            Some(d) => details_entry(ds@, slug@) == Some(*d),
            None => details_entry(ds@, slug@).is_none(),
        },
{
    let n = ds.len();
    let mut i: usize = 0;
    assert(ds@.subrange(0, n as int) == ds@);
    while i < n
        invariant
            n == ds@.len(),
            i <= n,
            details_entry(ds@, slug@) == details_entry(ds@.subrange(i as int, n as int), slug@),
        decreases n - i,
    {
        let ghost rest = ds@.subrange(i as int, n as int);
        assert(rest[0] == ds@[i as int]);
        assert(rest.drop_first() == ds@.subrange(i + 1, n as int));
        if str_eq(ds[i].slug.as_str(), slug) {
            return Some(&ds[i]);
        }
        i = i + 1;
    }
    None
}

/// The photo entries of the detail file of `slug`, if there are any.
pub fn photos_of<'a>(ds: &'a Vec<GalleryDetailsFile>, slug: &str) -> (r: Option<&'a Vec<Json>>)
    ensures
        match r {
            Some(v) => v@ == details_photos(ds@, slug@),
            None => details_photos(ds@, slug@).len() == 0,
        },
{
    match find_details(ds, slug) {
        Some(d) => match &d.content {
            Some(j) => get_array(j, "photos"),
            None => None,
        },
        None => None,
    }
}

fn joined_exec(slug: &str, rel: Option<&String>) -> (r: Option<String>)
    ensures
        match rel {
            Some(p) => r is Some && joined(slug@, Some(p@)) == Some(r->0@),
            None => r is None,
        },
{
    match rel {
        Some(p) => if p.as_str().unicode_len() > 0 {
            Some(join(slug, p.as_str()))
        } else {
            Some(p.clone())
        },
        None => None,
    }
}

fn add_existing(out: &mut Vec<String>, files: &Vec<String>, rel: Option<String>)
    requires
        sorted_unique(old(out)@),
    ensures
        sorted_unique(final(out)@),
        paths_set(final(out)@) == paths_set(old(out)@).union(
            existing_ref(files@, opt_view(rel)),
        ),
{
    match rel {
        Some(p) => {
            if p.as_str().unicode_len() > 0 && file_exists(files, p.as_str()) {
                let ghost pv = p@;
                add_path(out, p);
                assert(paths_set(out@) =~= paths_set(old(out)@).union(set![pv]));
            } else {
                assert(paths_set(out@) =~= paths_set(out@).union(Set::empty()));
            }
        },
        None => {
            assert(paths_set(out@) =~= paths_set(out@).union(Set::empty()));
        },
    }
}

/// The files of the workspace that publishing may touch: the gallery index,
/// and each file reachable from it through the galleries' covers, detail
/// files and photos, each once, in ascending order. Fails only when the index
/// has neither of its two shapes.
pub fn collect_referenced_files(ws: &Workspace) -> (r: Result<Vec<String>, String>)
    ensures
        r.is_err() == !index_shape_ok(ws.index),
        r matches Ok(v) ==> sorted_unique(v@) && paths_unique(v@) && paths_set(v@)
            == referenced_files(*ws),
{
    match &ws.index {
        Json::Array(_) | Json::Object(_) => {},
        _ => {
            return Err(String::from_str("galleries.json has unexpected format"));
        },
    }
    let mut out: Vec<String> = Vec::new();
    add_path(&mut out, String::from_str(GALLERY_INDEX_FILE));
    assert(paths_set(out@) =~= galleries_refs(*ws, Seq::empty()).insert(GALLERY_INDEX_FILE@));
    match parse_galleries_array(&ws.index) {
        Some(gl) => {
            let n = gl.len();
            let mut i: usize = 0;
            while i < n
                invariant
                    n == gl@.len(),
                    gl@ == gallery_list(ws.index),
                    i <= n,
                    sorted_unique(out@),
                    paths_set(out@) == galleries_refs(*ws, gl@.subrange(0, i as int)).insert(
                        GALLERY_INDEX_FILE@,
                    ),
                decreases n - i,
            {
                let ghost pre = gl@.subrange(0, i + 1);
                assert(pre.drop_last() == gl@.subrange(0, i as int));
                assert(pre.last() == gl@[i as int]);
                add_gallery_refs(&mut out, ws, &gl[i]);
                assert(paths_set(out@) =~= galleries_refs(*ws, pre).insert(GALLERY_INDEX_FILE@));
                i = i + 1;
            }
            assert(gl@.subrange(0, n as int) == gl@);
        },
        None => {},
    }
    proof {
        lemma_sorted_unique(out@);
    }
    Ok(out)
}

fn add_gallery_refs(out: &mut Vec<String>, ws: &Workspace, g: &Json)
    requires
        sorted_unique(old(out)@),
    ensures
        sorted_unique(final(out)@),
        paths_set(final(out)@) == paths_set(old(out)@).union(gallery_refs(*ws, *g)),
{
    let slug = match get_str(g, "slug") {
        Some(s) => s,
        None => {
            assert(paths_set(out@) =~= paths_set(out@).union(Set::empty()));
            return;
        },
    };
    let cover = match get_str(g, "cover") {
        Some(c) => Some(c.clone()),
        None => None,
    };
    add_existing(out, &ws.files, cover);
    if find_details(&ws.details, slug.as_str()).is_some() {
        add_path(out, join(slug.as_str(), GALLERY_DETAILS_FILE));
        let ghost after_details = paths_set(out@);
        match photos_of(&ws.details, slug.as_str()) {
            Some(photos) => {
                let n = photos.len();
                let mut i: usize = 0;
                while i < n
                    invariant
                        n == photos@.len(),
                        photos@ == details_photos(ws.details@, slug@),
                        i <= n,
                        sorted_unique(out@),
                        paths_set(out@) == after_details.union(
                            photos_refs(ws.files@, slug@, photos@.subrange(0, i as int)),
                        ),
                    decreases n - i,
                {
                    let ghost pre = photos@.subrange(0, i + 1);
                    assert(pre.drop_last() == photos@.subrange(0, i as int));
                    assert(pre.last() == photos@[i as int]);
                    let t = joined_exec(slug.as_str(), get_str(&photos[i], "thumbnail"));
                    add_existing(out, &ws.files, t);
                    let f = joined_exec(slug.as_str(), get_str(&photos[i], "full"));
                    add_existing(out, &ws.files, f);
                    assert(paths_set(out@) =~= after_details.union(
                        photos_refs(ws.files@, slug@, pre),
                    ));
                    i = i + 1;
                }
                assert(photos@.subrange(0, n as int) == photos@);
            },
            None => {
                assert(paths_set(out@) =~= after_details.union(
                    photos_refs(ws.files@, slug@, Seq::empty()),
                ));
            },
        }
        assert(paths_set(out@) =~= paths_set(old(out)@).union(gallery_refs(*ws, *g)));
    } else {
        assert(paths_set(out@) =~= paths_set(old(out)@).union(gallery_refs(*ws, *g)));
    }
}

} // verus!
