//! Workspace-wide tag listing, and the removal of a photo's entries from a
//! gallery's detail file.
use vstd::prelude::*;
use crate::json::{
    array_field, gallery_list, get_str, parse_galleries_array, str_field,
    str_field_or_empty, strings_of, Json, JsonMember,
};
use crate::rewrite::first_key_index;
use crate::text::{ends_with, is_suffix};
use crate::workspace::{details_photos, insert_sorted, paths_set, photos_of, sorted_unique, Workspace};

verus! {

fn insert_all(out: &mut Vec<String>, tags: &Vec<String>)
    requires
        sorted_unique(old(out)@),
    ensures
        sorted_unique(final(out)@),
        paths_set(final(out)@) == paths_set(old(out)@).union(paths_set(tags@)),
{
    let n = tags.len();
    let mut i: usize = 0;
    while i < n
        invariant
            n == tags@.len(),
            i <= n,
            sorted_unique(out@),
            paths_set(out@) == paths_set(old(out)@).union(paths_set(tags@.subrange(0, i as int))),
        decreases n - i,
    {
        insert_sorted(out, &tags[i]);
        assert(paths_set(tags@.subrange(0, i + 1)) =~= paths_set(tags@.subrange(0, i as int)).insert(
            tags@[i as int]@,
        )) by {
            let a = tags@.subrange(0, i + 1);
            let b = tags@.subrange(0, i as int);
            assert(a[i as int] == tags@[i as int]);
            assert forall|q: Seq<char>| paths_set(a).contains(q) implies paths_set(b).insert(
                tags@[i as int]@,
            ).contains(q) by {
                let j = choose|j: int| 0 <= j < a.len() && (#[trigger] a[j])@ == q;
                if j < i {
                    assert(a[j] == b[j]);
                }
            }
            assert forall|q: Seq<char>| paths_set(b).contains(q) implies paths_set(a).contains(
                q,
            ) by {
                let j = choose|j: int| 0 <= j < b.len() && (#[trigger] b[j])@ == q;
                assert(a[j] == b[j]);
            }
        }
        assert(paths_set(out@) =~= paths_set(old(out)@).union(
            paths_set(tags@.subrange(0, i + 1)),
        ));
        i = i + 1;
    }
    assert(tags@.subrange(0, n as int) == tags@);
}

/// The tags of the string items of `v`.
pub open spec fn tag_set(v: Seq<Json>) -> Set<Seq<char>> {
    strings_of(v).to_set()
}

pub open spec fn photos_tags(photos: Seq<Json>) -> Set<Seq<char>>
    decreases photos.len(),
{
    if photos.len() == 0 {
        Set::empty()
    } else {
        photos_tags(photos.drop_last()).union(tag_set(array_field(photos.last(), "tags"@)))
    }
}

/// The tags one gallery contributes: its own, and, when it has a slug, those
/// of the photos in its detail file.
pub open spec fn gallery_tags(ws: Workspace, g: Json) -> Set<Seq<char>> {
    let own = tag_set(array_field(g, "tags"@));
    match str_field(g, "slug"@) {
        Some(s) => own.union(photos_tags(details_photos(ws.details@, s))),
        None => own,
    }
}

pub open spec fn galleries_tags(ws: Workspace, gl: Seq<Json>) -> Set<Seq<char>>
    decreases gl.len(),
{
    if gl.len() == 0 {
        Set::empty()
    } else {
        galleries_tags(ws, gl.drop_last()).union(gallery_tags(ws, gl.last()))
    }
}

proof fn lemma_tag_views(v: Vec<String>, items: Seq<Json>)
    requires
        v@.map_values(|s: String| s@) == strings_of(items),
    ensures
        paths_set(v@) == tag_set(items),
{
    let w = v@.map_values(|s: String| s@);
    assert forall|q: Seq<char>| paths_set(v@).contains(q) implies tag_set(items).contains(q) by {
        let j = choose|j: int| 0 <= j < v@.len() && (#[trigger] v@[j])@ == q;
        assert(w[j] == q);
    }
    assert forall|q: Seq<char>| tag_set(items).contains(q) implies paths_set(v@).contains(q) by {
        let j = choose|j: int| 0 <= j < w.len() && w[j] == q;
        assert(v@[j]@ == q);
    }
    assert(paths_set(v@) =~= tag_set(items));
}

fn add_tags(out: &mut Vec<String>, j: &Json)
    requires
        sorted_unique(old(out)@),
    ensures
        sorted_unique(final(out)@),
        paths_set(final(out)@) == paths_set(old(out)@).union(tag_set(array_field(*j, "tags"@))),
{
    let tags = crate::json::string_items(j, "tags");
    proof {
        lemma_tag_views(tags, array_field(*j, "tags"@));
    }
    insert_all(out, &tags);
}

/// Every tag used in the workspace, by galleries or their photos, each once,
/// in ascending order.
pub fn get_all_tags(ws: &Workspace) -> (r: Vec<String>)
    ensures
        sorted_unique(r@),
        paths_set(r@) == galleries_tags(*ws, gallery_list(ws.index)),
{
    let mut out: Vec<String> = Vec::new();
    assert(paths_set(out@) =~= galleries_tags(*ws, Seq::empty()));
    match parse_galleries_array(&ws.index) {
        Some(gl) => {
            let n = gl.len();
            let mut i: usize = 0;
            while i < n
                invariant
                    n == gl@.len(),
                    gl@ == gallery_list(ws.index),
                    i <= n,
                    sorted_unique(out@),
                    paths_set(out@) == galleries_tags(*ws, gl@.subrange(0, i as int)),
                decreases n - i,
            {
                let ghost pre = gl@.subrange(0, i + 1);
                assert(pre.drop_last() == gl@.subrange(0, i as int));
                assert(pre.last() == gl@[i as int]);
                let g = &gl[i];
                add_tags(&mut out, g);
                let ghost own = paths_set(out@);
                match get_str(g, "slug") {
                    Some(slug) => {
                        match photos_of(&ws.details, slug.as_str()) {
                            Some(ps) => {
                                let m = ps.len();
                                let mut k: usize = 0;
                                while k < m
                                    invariant
                                        m == ps@.len(),
                                        ps@ == details_photos(ws.details@, slug@),
                                        k <= m,
                                        sorted_unique(out@),
                                        paths_set(out@) == own.union(
                                            photos_tags(ps@.subrange(0, k as int)),
                                        ),
                                    decreases m - k,
                                {
                                    let ghost pp = ps@.subrange(0, k + 1);
                                    assert(pp.drop_last() == ps@.subrange(0, k as int));
                                    assert(pp.last() == ps@[k as int]);
                                    add_tags(&mut out, &ps[k]);
                                    assert(paths_set(out@) =~= own.union(photos_tags(pp)));
                                    k = k + 1;
                                }
                                assert(ps@.subrange(0, m as int) == ps@);
                            },
                            None => {
                                assert(paths_set(out@) =~= own.union(
                                    photos_tags(details_photos(ws.details@, slug@)),
                                ));
                            },
                        }
                    },
                    None => {},
                }
                assert(paths_set(out@) =~= galleries_tags(*ws, pre));
                i = i + 1;
            }
            assert(gl@.subrange(0, n as int) == gl@);
        },
        None => {},
    }
    out
}

// ----- removing a photo -----

/// A photo entry stays unless its thumbnail or full image path ends with `name`.
pub open spec fn keeps_photo(p: Json, name: Seq<char>) -> bool {
    !is_suffix(name, str_field_or_empty(p, "thumbnail"@)) && !is_suffix(
        name,
        str_field_or_empty(p, "full"@),
    )
}

/// The photo entries of `v` that stay.
pub open spec fn kept_photos(v: Seq<Json>, name: Seq<char>) -> Seq<Json>
    decreases v.len(),
{
    if v.len() == 0 {
        Seq::empty()
    } else if keeps_photo(v.last(), name) {
        kept_photos(v.drop_last(), name).push(v.last())
    } else {
        kept_photos(v.drop_last(), name)
    }
}

/// `new` is the detail file `old` without the photo entries that reference
/// `name`; everything else is as it was.
pub open spec fn photo_removed(old: Json, new: Json, name: Seq<char>) -> bool {
    match (old, new) {
        (Json::Object(a), Json::Object(b)) => {
            &&& b@.len() == a@.len()
            &&& forall|i: int| 0 <= i < a@.len() ==> (#[trigger] b@[i]).key@ == a@[i].key@
            &&& forall|i: int|
                0 <= i < a@.len() ==> (if i == first_key_index(a@, "photos"@) && a@[i].value is Array {
                    match ((#[trigger] b@[i]).value, a@[i].value) {
                        (Json::Array(y), Json::Array(x)) => y@ == kept_photos(x@, name),
                        _ => false,
                    }
                } else {
                    b@[i].value == a@[i].value
                })
        },
        _ => !(old is Object) && new == old,
    }
}

fn keep_photos(items: Vec<Json>, name: &str) -> (r: Vec<Json>)
    ensures
        r@ == kept_photos(items@, name@),
{
    let ghost all = items@;
    let n = items.len();
    let mut rest = items;
    let mut out: Vec<Json> = Vec::new();
    let mut done: usize = 0;
    while rest.len() > 0
        invariant
            n == all.len(),
            done + rest@.len() == n,
            rest@ == all.subrange(done as int, n as int),
            out@ == kept_photos(all.subrange(0, done as int), name@),
        decreases rest@.len(),
    {
        let x = rest.remove(0);
        assert(x == all[done as int]);
        let ghost pre = all.subrange(0, done + 1);
        assert(pre.drop_last() == all.subrange(0, done as int));
        assert(pre.last() == x);
        let thumb = match get_str(&x, "thumbnail") {
            Some(s) => ends_with(s.as_str(), name),
            None => ends_with("", name),
        };
        let full = match get_str(&x, "full") {
            Some(s) => ends_with(s.as_str(), name),
            None => ends_with("", name),
        };
        proof {
            reveal_strlit("");
            assert(""@ == Seq::<char>::empty());
            assert(thumb == is_suffix(name@, str_field_or_empty(x, "thumbnail"@)));
            assert(full == is_suffix(name@, str_field_or_empty(x, "full"@)));
        }
        if !thumb && !full {
            out.push(x);
        }
        assert(out@ == kept_photos(pre, name@));
        done = done + 1;
        assert(rest@ =~= all.subrange(done as int, n as int));
    }
    assert(all.subrange(0, n as int) == all);
    out
}

/// Drops from a gallery's detail file every photo entry whose thumbnail or
/// full image path ends with `filename`.
pub fn remove_photo_entries(details: Json, filename: &str) -> (r: Json)
    ensures
        photo_removed(details, r, filename@),
{
    match details {
        Json::Object(ms) => {
            let mut ms = ms;
            let ghost old_ms = ms@;
            proof {
                crate::rewrite::lemma_first_key_index(ms@, "photos"@);
            }
            match crate::rewrite::find_member(&ms, "photos") {
                Some(i) => {
                    let mem = ms.remove(i);
                    match mem.value {
                        Json::Array(items) => {
                            let kept = keep_photos(items, filename);
                            ms.insert(i, JsonMember { key: mem.key, value: Json::Array(kept) });
                            assert forall|j: int| 0 <= j < old_ms.len() && j != i implies ms@[j]
                                == old_ms[j] by {}
                        },
                        other => {
                            ms.insert(i, JsonMember { key: mem.key, value: other });
                            assert(ms@ =~= old_ms);
                        },
                    }
                    Json::Object(ms)
                },
                None => Json::Object(ms),
            }
        },
        other => other,
    }
}

} // verus!
