//! Publish-time metadata: the gallery index and detail files with image
//! paths redirected to generated thumbnails, and the flat search index.
use vstd::prelude::*;
use vstd::string::{StrSliceExecFns, StringExecFns};
use crate::json::{
    array_field, gallery_list, get_str, member_of, parse_galleries_array, str_field,
    str_field_or_empty, string_items, strings_of, Json, JsonMember,
};
use crate::paths::{join, join_of};
use crate::text::{concat, concat3, str_eq};
use crate::thumbnails::ThumbnailSpec;
use crate::workspace::{details_entry, details_photos, find_details, photos_of, Workspace};

verus! {

// ----- thumbnail maps -----

/// A source path and the value that replaces references to it.
pub struct ThumbEntry {
    pub source: String,
    pub value: String,
}

/// Replacement values by source path; a later entry for a path wins.
pub struct ThumbMap {
    entries: Vec<ThumbEntry>,
}

pub open spec fn entry_views(s: Seq<ThumbEntry>) -> Seq<(Seq<char>, Seq<char>)> {
    s.map_values(|e: ThumbEntry| (e.source@, e.value@))
}

impl View for ThumbMap {
    type V = Seq<(Seq<char>, Seq<char>)>;

    closed spec fn view(&self) -> Seq<(Seq<char>, Seq<char>)> {
        entry_views(self.entries@)
    }
}

/// The value recorded for `source` (the latest entry wins).
pub open spec fn lookup_of(m: Seq<(Seq<char>, Seq<char>)>, source: Seq<char>) -> Option<Seq<char>>
    decreases m.len(),
{
    if m.len() == 0 {
        None
    } else if m.last().0 == source {
        Some(m.last().1)
    } else {
        lookup_of(m.drop_last(), source)
    }
}

impl ThumbMap {
    pub fn new() -> (r: ThumbMap)
        ensures
            r@.len() == 0,
    {
        ThumbMap { entries: Vec::new() }
    }

    pub fn len(&self) -> (r: usize)
        ensures
            r == self@.len(),
    {
        self.entries.len()
    }

    pub fn insert(&mut self, source: String, value: String)
        ensures
            final(self)@ == old(self)@.push((source@, value@)),
    {
        let ghost before = self.entries@;
        self.entries.push(ThumbEntry { source, value });
        assert(entry_views(self.entries@) =~= entry_views(before).push((source@, value@)));
    }

    /// The value recorded for `source`.
    pub fn lookup(&self, source: &str) -> (r: Option<String>)
        ensures
            match r {
                Some(v) => lookup_of(self@, source@) == Some(v@),
                None => lookup_of(self@, source@).is_none(),
            },
    {
        let mut i: usize = self.entries.len();
        assert(self@.subrange(0, i as int) == self@);
        while i > 0
            invariant
                i <= self@.len(),
                self@.len() == self.entries@.len(),
                self@ == entry_views(self.entries@),
                lookup_of(self@, source@) == lookup_of(self@.subrange(0, i as int), source@),
            decreases i,
        {
            let ghost pre = self@.subrange(0, i as int);
            assert(pre.drop_last() == self@.subrange(0, i - 1));
            assert(pre.last() == self@[i - 1]);
            if str_eq(self.entries[i - 1].source.as_str(), source) {
                return Some(self.entries[i - 1].value.clone());
            }
            i = i - 1;
        }
        None
    }
}

/// The replacement used inside a gallery's own detail file.
pub open spec fn photo_value_of(t: ThumbnailSpec) -> Seq<char> {
    ".thumbs/"@ + t.thumb_filename@
}

/// The replacement used in the gallery index.
pub open spec fn cover_value_of(t: ThumbnailSpec) -> Seq<char> {
    t.slug@ + "/.thumbs/"@ + t.thumb_filename@
}

/// The entries for the specs whose thumbnail exists, in order.
pub open spec fn thumb_entries_of(
    specs: Seq<ThumbnailSpec>,
    exists: Seq<bool>,
    cover: bool,
) -> Seq<(Seq<char>, Seq<char>)>
    decreases specs.len(),
{
    if specs.len() == 0 || exists.len() < specs.len() {
        Seq::empty()
    } else {
        let r = thumb_entries_of(specs.drop_last(), exists.subrange(0, specs.len() - 1), cover);
        if exists[specs.len() - 1] {
            r.push(
                (
                    specs.last().source_path@,
                    if cover {
                        cover_value_of(specs.last())
                    } else {
                        photo_value_of(specs.last())
                    },
                ),
            )
        } else {
            r
        }
    }
}

/// The maps for rewriting metadata: for each spec whose thumbnail exists
/// (`dest_exists[i]` for `specs[i]`), its source mapped to `.thumbs/{file}`
/// for detail files and to `{slug}/.thumbs/{file}` for the gallery index.
pub fn thumb_maps(specs: &Vec<ThumbnailSpec>, dest_exists: &Vec<bool>) -> (r: (ThumbMap, ThumbMap))
    requires
        specs@.len() == dest_exists@.len(),
    ensures
        r.0@ == thumb_entries_of(specs@, dest_exists@, false),
        r.1@ == thumb_entries_of(specs@, dest_exists@, true),
{
    let mut photo = ThumbMap::new();
    let mut cover = ThumbMap::new();
    let n = specs.len();
    let mut i: usize = 0;
    while i < n
        invariant
            n == specs@.len(),
            n == dest_exists@.len(),
            i <= n,
            photo@ == thumb_entries_of(
                specs@.subrange(0, i as int),
                dest_exists@.subrange(0, i as int),
                false,
            ),
            cover@ == thumb_entries_of(
                specs@.subrange(0, i as int),
                dest_exists@.subrange(0, i as int),
                true,
            ),
        decreases n - i,
    {
        let ghost s = specs@.subrange(0, i + 1);
        let ghost e = dest_exists@.subrange(0, i + 1);
        assert(s.drop_last() == specs@.subrange(0, i as int));
        assert(e.subrange(0, i as int) == dest_exists@.subrange(0, i as int));
        assert(s.last() == specs@[i as int]);
        assert(e[i as int] == dest_exists@[i as int]);
        if dest_exists[i] {
            let t = &specs[i];
            photo.insert(t.source_path.clone(), concat(".thumbs/", t.thumb_filename.as_str()));
            cover.insert(
                t.source_path.clone(),
                concat3(t.slug.as_str(), "/.thumbs/", t.thumb_filename.as_str()),
            );
        }
        i = i + 1;
    }
    assert(specs@.subrange(0, n as int) == specs@);
    assert(dest_exists@.subrange(0, n as int) == dest_exists@);
    (photo, cover)
}

// ----- rewriting -----

/// The position of the first member named `k`, or -1.
pub open spec fn first_key_index(ms: Seq<JsonMember>, k: Seq<char>) -> int
    decreases ms.len(),
{
    if ms.len() == 0 {
        -1
    } else if ms[0].key@ == k {
        0
    } else {
        let r = first_key_index(ms.drop_first(), k);
        if r < 0 {
            -1
        } else {
            r + 1
        }
    }
}

/// The new value of member `field` of `g`: the replacement recorded for the
/// path it names (joined to `base`), when it is a non-empty string.
pub open spec fn replacement_of(
    g: Json,
    field: Seq<char>,
    base: Seq<char>,
    m: Seq<(Seq<char>, Seq<char>)>,
) -> Option<Seq<char>> {
    match str_field(g, field) {
        Some(v) => if v.len() > 0 {
            lookup_of(m, join_of(base, v))
        } else {
            None
        },
        None => None,
    }
}

/// A JSON string with the characters `v`.
pub open spec fn is_string_of(j: Json, v: Seq<char>) -> bool {
    match j {
        Json::Str(s) => s@ == v,
        _ => false,
    }
}

/// `new` has the members of `old`, by name and in order, with the same
/// values except the first member named `k`, which is the string `v`.
pub open spec fn member_replaced(
    old: Seq<JsonMember>,
    new: Seq<JsonMember>,
    k: Seq<char>,
    v: Seq<char>,
) -> bool {
    &&& new.len() == old.len()
    &&& forall|i: int| 0 <= i < old.len() ==> (#[trigger] new[i]).key@ == old[i].key@
    &&& forall|i: int|
        0 <= i < old.len() ==> if i == first_key_index(old, k) {
            is_string_of((#[trigger] new[i]).value, v)
        } else {
            new[i].value == old[i].value
        }
}

/// `new` is the item `old` with its member `field` redirected if it has a replacement.
pub open spec fn item_rewritten(
    old: Json,
    new: Json,
    field: Seq<char>,
    base: Seq<char>,
    m: Seq<(Seq<char>, Seq<char>)>,
) -> bool {
    match replacement_of(old, field, base, m) {
        Some(v) => match (old, new) {
            (Json::Object(a), Json::Object(b)) => member_replaced(a@, b@, field, v),
            _ => false,
        },
        None => new == old,
    }
}

pub open spec fn items_rewritten(
    old: Seq<Json>,
    new: Seq<Json>,
    field: Seq<char>,
    base: Seq<char>,
    m: Seq<(Seq<char>, Seq<char>)>,
) -> bool {
    new.len() == old.len() && forall|i: int|
        0 <= i < old.len() ==> item_rewritten(old[i], #[trigger] new[i], field, base, m)
}

pub proof fn lemma_first_key_index(ms: Seq<JsonMember>, k: Seq<char>)
    ensures
        -1 <= first_key_index(ms, k) < ms.len(),
        first_key_index(ms, k) >= 0 ==> ms[first_key_index(ms, k)].key@ == k,
        forall|j: int|
            0 <= j < ms.len() && (first_key_index(ms, k) < 0 || j < first_key_index(ms, k))
                ==> ms[j].key@ != k,
        first_key_index(ms, k) < 0 ==> member_of(ms, k).is_none(),
        first_key_index(ms, k) >= 0 ==> member_of(ms, k) == Some(ms[first_key_index(ms, k)].value),
    decreases ms.len(),
{
    if ms.len() > 0 && ms[0].key@ != k {
        lemma_first_key_index(ms.drop_first(), k);
        assert forall|j: int|
            0 <= j < ms.len() && (first_key_index(ms, k) < 0 || j < first_key_index(ms, k))
                implies ms[j].key@ != k by {
            if j > 0 {
                assert(ms[j] == ms.drop_first()[j - 1]);
            }
        }
    }
}

pub fn find_member(ms: &Vec<JsonMember>, k: &str) -> (r: Option<usize>)
    ensures
        match r {
            Some(i) => i as int == first_key_index(ms@, k@),
            None => first_key_index(ms@, k@) == -1,
        },
{
    proof {
        lemma_first_key_index(ms@, k@);
    }
    let n = ms.len();
    let mut i: usize = 0;
    while i < n
        invariant
            n == ms@.len(),
            i <= n,
            forall|j: int| 0 <= j < i ==> ms@[j].key@ != k@,
            -1 <= first_key_index(ms@, k@) < ms@.len(),
            first_key_index(ms@, k@) >= 0 ==> ms@[first_key_index(ms@, k@)].key@ == k@,
            forall|j: int|
                0 <= j < ms@.len() && (first_key_index(ms@, k@) < 0 || j < first_key_index(
                    ms@,
                    k@,
                )) ==> ms@[j].key@ != k@,
        decreases n - i,
    {
        if str_eq(ms[i].key.as_str(), k) {
            return Some(i);
        }
        i = i + 1;
    }
    None
}

/// Sets the value of the first member named `k` (which exists) to `v`.
fn replace_member(ms: &mut Vec<JsonMember>, i: usize, v: Json)
    requires
        0 <= i < old(ms)@.len(),
    ensures
        final(ms)@.len() == old(ms)@.len(),
        forall|j: int| 0 <= j < old(ms)@.len() ==> (#[trigger] final(ms)@[j]).key@ == old(ms)@[j].key@,
        forall|j: int|
            0 <= j < old(ms)@.len() ==> (#[trigger] final(ms)@[j]).value == (if j == i {
                v
            } else {
                old(ms)@[j].value
            }),
{
    let m = ms.remove(i);
    ms.insert(i, JsonMember { key: m.key, value: v });
}

/// Redirects the member `field` of one item.
fn rewrite_item(g: Json, field: &str, base: &str, m: &ThumbMap) -> (r: Json)
    ensures
        item_rewritten(g, r, field@, base@, m@),
{
    let v = match get_str(&g, field) {
        Some(s) => if s.as_str().unicode_len() > 0 {
            let source = join(base, s.as_str());
            m.lookup(source.as_str())
        } else {
            None
        },
        None => None,
    };
    match v {
        Some(v) => match g {
            Json::Object(ms) => {
                let mut ms = ms;
                let ghost old_ms = ms@;
                proof {
                    lemma_first_key_index(ms@, field@);
                }
                match find_member(&ms, field) {
                    Some(i) => {
                        let ghost sv = v@;
                        let s = Json::Str(v);
                        replace_member(&mut ms, i, s);
                        assert(member_replaced(old_ms, ms@, field@, sv));
                        Json::Object(ms)
                    },
                    None => Json::Object(ms),
                }
            },
            other => other,
        },
        None => g,
    }
}

/// Redirects the member `field` of each item, joined to `base`, through `m`.
pub fn rewrite_items(items: Vec<Json>, field: &str, base: &str, m: &ThumbMap) -> (r: Vec<Json>)
    ensures
        items_rewritten(items@, r@, field@, base@, m@),
{
    let ghost all = items@;
    let n = items.len();
    let mut rest = items;
    let mut out: Vec<Json> = Vec::new();
    while rest.len() > 0
        invariant
            n == all.len(),
            out@.len() + rest@.len() == n,
            rest@ == all.subrange(out@.len() as int, n as int),
            forall|i: int|
                0 <= i < out@.len() ==> item_rewritten(all[i], #[trigger] out@[i], field@, base@, m@),
        decreases rest@.len(),
    {
        let ghost k = out@.len();
        let x = rest.remove(0);
        assert(x == all[k as int]);
        let y = rewrite_item(x, field, base, m);
        out.push(y);
        assert(rest@ =~= all.subrange(out@.len() as int, n as int));
    }
    out
}

/// `new` has the members of `old`, and where the first member named `k`
/// holds an array, that array with its items rewritten.
pub open spec fn member_items_rewritten(
    old: Seq<JsonMember>,
    new: Seq<JsonMember>,
    k: Seq<char>,
    field: Seq<char>,
    base: Seq<char>,
    m: Seq<(Seq<char>, Seq<char>)>,
) -> bool {
    &&& new.len() == old.len()
    &&& forall|i: int| 0 <= i < old.len() ==> (#[trigger] new[i]).key@ == old[i].key@
    &&& forall|i: int|
        0 <= i < old.len() ==> (if i == first_key_index(old, k) && old[i].value is Array {
            match ((#[trigger] new[i]).value, old[i].value) {
                (Json::Array(b), Json::Array(a)) => items_rewritten(a@, b@, field, base, m),
                _ => false,
            }
        } else {
            new[i].value == old[i].value
        })
}

fn rewrite_member_items(ms: Vec<JsonMember>, k: &str, field: &str, base: &str, m: &ThumbMap) -> (r:
    Vec<JsonMember>)
    ensures
        member_items_rewritten(ms@, r@, k@, field@, base@, m@),
{
    let mut ms = ms;
    let ghost old_ms = ms@;
    proof {
        lemma_first_key_index(ms@, k@);
    }
    match find_member(&ms, k) {
        Some(i) => {
            let mem = ms.remove(i);
            match mem.value {
                Json::Array(items) => {
                    let new_items = rewrite_items(items, field, base, m);
                    ms.insert(i, JsonMember { key: mem.key, value: Json::Array(new_items) });
                    assert forall|j: int| 0 <= j < old_ms.len() implies (if j == first_key_index(
                        old_ms,
                        k@,
                    ) && old_ms[j].value is Array {
                        match ((#[trigger] ms@[j]).value, old_ms[j].value) {
                            (Json::Array(b), Json::Array(a)) => items_rewritten(
                                a@,
                                b@,
                                field@,
                                base@,
                                m@,
                            ),
                            _ => false,
                        }
                    } else {
                        ms@[j].value == old_ms[j].value
                    }) by {
                        if j < i {
                            assert(ms@[j] == old_ms[j]);
                        } else if j > i {
                            assert(ms@[j] == old_ms[j]);
                        }
                    }
                },
                other => {
                    ms.insert(i, JsonMember { key: mem.key, value: other });
                    assert(ms@ =~= old_ms);
                },
            }
            ms
        },
        None => ms,
    }
}

/// `new` is the gallery index `old` with each gallery's `cover` redirected
/// through `m` (paths joined to `root`), in either shape; anything else is
/// left as it is.
pub open spec fn galleries_rewritten(
    old: Json,
    new: Json,
    root: Seq<char>,
    m: Seq<(Seq<char>, Seq<char>)>,
) -> bool {
    match (old, new) {
        (Json::Array(a), Json::Array(b)) => items_rewritten(a@, b@, "cover"@, root, m),
        (Json::Object(a), Json::Object(b)) => member_items_rewritten(
            a@,
            b@,
            "galleries"@,
            "cover"@,
            root,
            m,
        ),
        _ => !(old is Array) && !(old is Object) && new == old,
    }
}

/// The gallery index as published: covers that received a thumbnail point at it.
pub fn rewrite_galleries_json_for_publish(raw: Json, root: &str, cover_map: &ThumbMap) -> (r: Json)
    ensures
        galleries_rewritten(raw, r, root@, cover_map@),
{
    match raw {
        Json::Array(items) => Json::Array(rewrite_items(items, "cover", root, cover_map)),
        Json::Object(ms) => Json::Object(
            rewrite_member_items(ms, "galleries", "cover", root, cover_map),
        ),
        other => other,
    }
}

/// `new` is the detail file `old` of a gallery whose directory is `dir`,
/// with each photo's `thumbnail` redirected through `m`.
pub open spec fn details_rewritten(
    old: Json,
    new: Json,
    dir: Seq<char>,
    m: Seq<(Seq<char>, Seq<char>)>,
) -> bool {
    match (old, new) {
        (Json::Object(a), Json::Object(b)) => member_items_rewritten(
            a@,
            b@,
            "photos"@,
            "thumbnail"@,
            dir,
            m,
        ),
        _ => !(old is Object) && new == old,
    }
}

/// A gallery's detail file as published: photo thumbnails that received a
/// generated variant point at it.
pub fn rewrite_gallery_details_json_for_publish(
    raw: Json,
    root: &str,
    slug: &str,
    photo_map: &ThumbMap,
) -> (r: Json)
    ensures
        details_rewritten(raw, r, join_of(root@, slug@), photo_map@),
{
    let dir = join(root, slug);
    match raw {
        Json::Object(ms) => Json::Object(
            rewrite_member_items(ms, "photos", "thumbnail", dir.as_str(), photo_map),
        ),
        other => other,
    }
}

// ----- search index -----

/// One gallery of the search index.
pub struct SearchIndexGallery {
    pub slug: String,
    pub name: String,
    pub date: String,
    pub description: String,
    pub tags: Vec<String>,
}

/// One photo of the search index.
pub struct SearchIndexPhoto {
    pub gallery_slug: String,
    pub thumbnail: String,
    pub full: String,
    pub alt: String,
    pub tags: Vec<String>,
}

/// The flat search index published next to the galleries.
pub struct SearchIndex {
    pub version: u32,
    pub galleries: Vec<SearchIndexGallery>,
    pub photos: Vec<SearchIndexPhoto>,
}

pub ghost struct GalleryEntryView {
    pub slug: Seq<char>,
    pub name: Seq<char>,
    pub date: Seq<char>,
    pub description: Seq<char>,
    pub tags: Seq<Seq<char>>,
}

pub ghost struct PhotoEntryView {
    pub gallery_slug: Seq<char>,
    pub thumbnail: Seq<char>,
    pub full: Seq<char>,
    pub alt: Seq<char>,
    pub tags: Seq<Seq<char>>,
}

pub open spec fn tag_views(v: Seq<String>) -> Seq<Seq<char>> {
    v.map_values(|s: String| s@)
}

impl View for SearchIndexGallery {
    type V = GalleryEntryView;

    open spec fn view(&self) -> GalleryEntryView {
        GalleryEntryView {
            slug: self.slug@,
            name: self.name@,
            date: self.date@,
            description: self.description@,
            tags: tag_views(self.tags@),
        }
    }
}

impl View for SearchIndexPhoto {
    type V = PhotoEntryView;

    open spec fn view(&self) -> PhotoEntryView {
        PhotoEntryView {
            gallery_slug: self.gallery_slug@,
            thumbnail: self.thumbnail@,
            full: self.full@,
            alt: self.alt@,
            tags: tag_views(self.tags@),
        }
    }
}

/// The description in the detail file of `slug`, or nothing.
pub open spec fn description_of(ws: Workspace, slug: Seq<char>) -> Seq<char> {
    match details_entry(ws.details@, slug) {
        Some(d) => match d.content {
            Some(j) => str_field_or_empty(j, "description"@),
            None => Seq::empty(),
        },
        None => Seq::empty(),
    }
}

/// The search entry of a photo of gallery `slug`; its thumbnail follows the
/// same redirection as the gallery's detail file.
pub open spec fn photo_entry_of(
    root: Seq<char>,
    slug: Seq<char>,
    m: Seq<(Seq<char>, Seq<char>)>,
    p: Json,
) -> PhotoEntryView {
    let raw = str_field_or_empty(p, "thumbnail"@);
    PhotoEntryView {
        gallery_slug: slug,
        thumbnail: match lookup_of(m, join_of(join_of(root, slug), raw)) {
            Some(v) => v,
            None => raw,
        },
        full: str_field_or_empty(p, "full"@),
        alt: str_field_or_empty(p, "alt"@),
        tags: strings_of(array_field(p, "tags"@)),
    }
}

pub open spec fn photo_entries_of(
    root: Seq<char>,
    slug: Seq<char>,
    m: Seq<(Seq<char>, Seq<char>)>,
    photos: Seq<Json>,
) -> Seq<PhotoEntryView>
    decreases photos.len(),
{
    if photos.len() == 0 {
        Seq::empty()
    } else {
        photo_entries_of(root, slug, m, photos.drop_last()).push(
            photo_entry_of(root, slug, m, photos.last()),
        )
    }
}

pub open spec fn gallery_entry_of(ws: Workspace, g: Json, slug: Seq<char>) -> GalleryEntryView {
    GalleryEntryView {
        slug: slug,
        name: str_field_or_empty(g, "name"@),
        date: str_field_or_empty(g, "date"@),
        description: description_of(ws, slug),
        tags: strings_of(array_field(g, "tags"@)),
    }
}

/// The gallery entries: one per gallery of the index that has a slug.
pub open spec fn gallery_entries_of(ws: Workspace, gl: Seq<Json>) -> Seq<GalleryEntryView>
    decreases gl.len(),
{
    if gl.len() == 0 {
        Seq::empty()
    } else {
        let r = gallery_entries_of(ws, gl.drop_last());
        match str_field(gl.last(), "slug"@) {
            Some(s) => r.push(gallery_entry_of(ws, gl.last(), s)),
            None => r,
        }
    }
}

/// The photo entries: those of every photo of every gallery with a slug.
pub open spec fn index_photos_of(
    ws: Workspace,
    root: Seq<char>,
    m: Seq<(Seq<char>, Seq<char>)>,
    gl: Seq<Json>,
) -> Seq<PhotoEntryView>
    decreases gl.len(),
{
    if gl.len() == 0 {
        Seq::empty()
    } else {
        let r = index_photos_of(ws, root, m, gl.drop_last());
        match str_field(gl.last(), "slug"@) {
            Some(s) => r + photo_entries_of(root, s, m, details_photos(ws.details@, s)),
            None => r,
        }
    }
}

fn str_or_empty(j: &Json, k: &str) -> (r: String)
    ensures
        r@ == str_field_or_empty(*j, k@),
{
    match get_str(j, k) {
        Some(s) => s.clone(),
        None => String::new(),
    }
}

fn photo_entry(root: &str, slug: &str, m: &ThumbMap, p: &Json) -> (r: SearchIndexPhoto)
    ensures
        r@ == photo_entry_of(root@, slug@, m@, *p),
{
    let raw = str_or_empty(p, "thumbnail");
    let dir = join(root, slug);
    let source = join(dir.as_str(), raw.as_str());
    let thumbnail = match m.lookup(source.as_str()) {
        Some(v) => v,
        None => raw,
    };
    let tags = string_items(p, "tags");
    SearchIndexPhoto {
        gallery_slug: String::from_str(slug),
        thumbnail,
        full: str_or_empty(p, "full"),
        alt: str_or_empty(p, "alt"),
        tags,
    }
}

pub open spec fn photo_views(v: Seq<SearchIndexPhoto>) -> Seq<PhotoEntryView> {
    v.map_values(|p: SearchIndexPhoto| p@)
}

pub open spec fn gallery_views(v: Seq<SearchIndexGallery>) -> Seq<GalleryEntryView> {
    v.map_values(|g: SearchIndexGallery| g@)
}

fn description(ws: &Workspace, slug: &str) -> (r: String)
    ensures
        r@ == description_of(*ws, slug@),
{
    match find_details(&ws.details, slug) {
        Some(d) => match &d.content {
            Some(j) => str_or_empty(j, "description"),
            None => String::new(),
        },
        None => String::new(),
    }
}

/// The search index of the workspace at `root`: its galleries with their
/// descriptions and tags, and all their photos, each photo's thumbnail
/// redirected through `photo_map` as in the detail files.
pub fn generate_search_index(ws: &Workspace, root: &str, photo_map: &ThumbMap) -> (r: SearchIndex)
    ensures
        r.version == 1,
        gallery_views(r.galleries@) == gallery_entries_of(*ws, gallery_list(ws.index)),
        photo_views(r.photos@) == index_photos_of(*ws, root@, photo_map@, gallery_list(ws.index)),
{
    let mut galleries: Vec<SearchIndexGallery> = Vec::new();
    let mut photos: Vec<SearchIndexPhoto> = Vec::new();
    assert(gallery_views(galleries@) =~= gallery_entries_of(*ws, Seq::empty()));
    assert(photo_views(photos@) =~= index_photos_of(*ws, root@, photo_map@, Seq::empty()));
    match parse_galleries_array(&ws.index) {
        Some(gl) => {
            let n = gl.len();
            let mut i: usize = 0;
            while i < n
                invariant
                    n == gl@.len(),
                    gl@ == gallery_list(ws.index),
                    i <= n,
                    gallery_views(galleries@) == gallery_entries_of(
                        *ws,
                        gl@.subrange(0, i as int),
                    ),
                    photo_views(photos@) == index_photos_of(
                        *ws,
                        root@,
                        photo_map@,
                        gl@.subrange(0, i as int),
                    ),
                decreases n - i,
            {
                let ghost pre = gl@.subrange(0, i + 1);
                assert(pre.drop_last() == gl@.subrange(0, i as int));
                assert(pre.last() == gl@[i as int]);
                let g = &gl[i];
                match get_str(g, "slug") {
                    Some(slug) => {
                        let ghost before = photo_views(photos@);
                        match photos_of(&ws.details, slug.as_str()) {
                            Some(ps) => {
                                let m = ps.len();
                                let mut j: usize = 0;
                                while j < m
                                    invariant
                                        m == ps@.len(),
                                        ps@ == details_photos(ws.details@, slug@),
                                        j <= m,
                                        photo_views(photos@) == before + photo_entries_of(
                                            root@,
                                            slug@,
                                            photo_map@,
                                            ps@.subrange(0, j as int),
                                        ),
                                    decreases m - j,
                                {
                                    let ghost pp = ps@.subrange(0, j + 1);
                                    assert(pp.drop_last() == ps@.subrange(0, j as int));
                                    assert(pp.last() == ps@[j as int]);
                                    let ghost pv = photo_views(photos@);
                                    let e = photo_entry(root, slug.as_str(), photo_map, &ps[j]);
                                    photos.push(e);
                                    assert(photo_views(photos@) =~= pv.push(e@));
                                    j = j + 1;
                                }
                                assert(ps@.subrange(0, m as int) == ps@);
                            },
                            None => {
                                assert(photo_views(photos@) =~= before + photo_entries_of(
                                    root@,
                                    slug@,
                                    photo_map@,
                                    details_photos(ws.details@, slug@),
                                ));
                            },
                        }
                        let tags = string_items(g, "tags");
                        let entry = SearchIndexGallery {
                            slug: slug.clone(),
                            name: str_or_empty(g, "name"),
                            date: str_or_empty(g, "date"),
                            description: description(ws, slug.as_str()),
                            tags,
                        };
                        let ghost gv = gallery_views(galleries@);
                        galleries.push(entry);
                        assert(gallery_views(galleries@) =~= gv.push(entry@));
                    },
                    None => {},
                }
                i = i + 1;
            }
            assert(gl@.subrange(0, n as int) == gl@);
        },
        None => {},
    }
    SearchIndex { version: 1, galleries, photos }
}

} // verus!
