//! File-name rules on '/'-separated paths: extensions, which files are
//! published, and the content type each one is served with.
use vstd::prelude::*;
use vstd::string::StringExecFns;
use crate::text::{concat, last_index, last_index_of, slice, str_eq};

verus! {

/// What `str::to_lowercase` gives for a string.
pub uninterp spec fn lower_of(s: Seq<char>) -> Seq<char>;

/// Relies on `str::to_lowercase`: the result depends on the characters alone.
#[verifier::external_body]
fn lowercase(s: &str) -> (r: String)
    ensures
        r@ == lower_of(s@),
{
    s.to_lowercase()
}

/// The last component of a path: what follows its last '/'.
pub open spec fn file_name_of(p: Seq<char>) -> Seq<char> {
    p.subrange(last_index_of(p, '/') + 1, p.len() as int)
}

/// The extension of a path: what follows the last '.' of its file name,
/// when that dot is not the name's first character (so ".gitignore" has none).
pub open spec fn extension_of(p: Seq<char>) -> Option<Seq<char>> {
    let n = file_name_of(p);
    let d = last_index_of(n, '.');
    if n == ".."@ || d <= 0 {
        None
    } else {
        Some(n.subrange(d + 1, n.len() as int))
    }
}

/// The lower-cased extension, empty when there is none.
pub open spec fn lower_extension_of(p: Seq<char>) -> Seq<char> {
    match extension_of(p) {
        Some(e) => lower_of(e),
        None => Seq::empty(),
    }
}

pub open spec fn is_image_extension(e: Seq<char>) -> bool {
    e == "jpg"@ || e == "jpeg"@ || e == "png"@ || e == "gif"@ || e == "webp"@ || e == "avif"@
        || e == "bmp"@ || e == "tiff"@ || e == "tif"@
}

pub open spec fn is_syncable_extension(e: Seq<char>) -> bool {
    is_image_extension(e) || e == "json"@ || e == "html"@ || e == "css"@ || e == "js"@
}

/// The content type that an object with lower-cased extension `e` is stored with.
pub open spec fn content_type_of(e: Seq<char>) -> Seq<char> {
    if e == "jpg"@ || e == "jpeg"@ {
        "image/jpeg"@
    } else if e == "png"@ {
        "image/png"@
    } else if e == "gif"@ {
        "image/gif"@
    } else if e == "webp"@ {
        "image/webp"@
    } else if e == "avif"@ {
        "image/avif"@
    } else if e == "bmp"@ {
        "image/bmp"@
    } else if e == "tiff"@ || e == "tif"@ {
        "image/tiff"@
    } else if e == "ico"@ {
        "image/x-icon"@
    } else if e == "json"@ {
        "application/json"@
    } else if e == "html"@ {
        "text/html"@
    } else if e == "css"@ {
        "text/css"@
    } else if e == "js"@ {
        "application/javascript"@
    } else {
        "application/octet-stream"@
    }
}

/// The last component of `path`.
pub fn file_name(path: &str) -> (r: String)
    ensures
        r@ == file_name_of(path@),
{
    proof {
        crate::text::lemma_last_index_of_bounds(path@, '/');
    }
    let n = path.unicode_len();
    match last_index(path, '/') {
        Some(i) => slice(path, i + 1, n),
        None => slice(path, 0, n),
    }
}

/// The extension of `path`, if it has one.
pub fn extension(path: &str) -> (r: Option<String>)
    ensures
        match r {
            Some(e) => extension_of(path@) == Some(e@),
            None => extension_of(path@).is_none(),
        },
{
    let name = file_name(path);
    let n = name.as_str().unicode_len();
    proof {
        crate::text::lemma_last_index_of_bounds(name@, '.');
    }
    if str_eq(name.as_str(), "..") {
        return None;
    }
    match last_index(name.as_str(), '.') {
        Some(d) => {
            if d == 0 {
                None
            } else {
                Some(slice(name.as_str(), d + 1, n))
            }
        },
        None => None,
    }
}

/// The extension of `path` in lower case, or the empty string.
pub fn lower_extension(path: &str) -> (r: String)
    ensures
        r@ == lower_extension_of(path@),
{
    match extension(path) {
        Some(e) => lowercase(e.as_str()),
        None => String::new(),
    }
}

/// Whether an extension already in lower case is an image's.
pub fn is_image_lower_extension(e: &str) -> (r: bool)
    ensures
        r == is_image_extension(e@),
{
    str_eq(e, "jpg") || str_eq(e, "jpeg") || str_eq(e, "png") || str_eq(e, "gif") || str_eq(
        e,
        "webp",
    ) || str_eq(e, "avif") || str_eq(e, "bmp") || str_eq(e, "tiff") || str_eq(e, "tif")
}

/// Whether `path` names an image, judged by its extension in any case.
pub fn is_image_file(path: &str) -> (r: bool)
    ensures
        r == (extension_of(path@).is_some() && is_image_extension(lower_extension_of(path@))),
{
    match extension(path) {
        Some(e) => {
            let lower = lowercase(e.as_str());
            is_image_lower_extension(lower.as_str())
        },
        None => false,
    }
}

/// Whether `path` is of a kind that is published: an image, JSON, HTML, CSS or JavaScript.
pub fn is_syncable_file(path: &str) -> (r: bool)
    ensures
        r == is_syncable_extension(lower_extension_of(path@)),
{
    let e = lower_extension(path);
    is_syncable_lower_extension(e.as_str())
}

/// Whether an extension already in lower case is of a published kind.
pub fn is_syncable_lower_extension(s: &str) -> (r: bool)
    ensures
        r == is_syncable_extension(s@),
{
    is_image_lower_extension(s) || str_eq(s, "json") || str_eq(s, "html") || str_eq(s, "css") || str_eq(
        s,
        "js",
    )
}

/// The content type for an extension already in lower case; every
/// extension not in the table maps to `application/octet-stream`.
pub fn content_type_for_lower_extension(s: &str) -> (r: String)
    ensures
        r@ == content_type_of(s@),
{
    let t = if str_eq(s, "jpg") || str_eq(s, "jpeg") {
        "image/jpeg"
    } else if str_eq(s, "png") {
        "image/png"
    } else if str_eq(s, "gif") {
        "image/gif"
    } else if str_eq(s, "webp") {
        "image/webp"
    } else if str_eq(s, "avif") {
        "image/avif"
    } else if str_eq(s, "bmp") {
        "image/bmp"
    } else if str_eq(s, "tiff") || str_eq(s, "tif") {
        "image/tiff"
    } else if str_eq(s, "ico") {
        "image/x-icon"
    } else if str_eq(s, "json") {
        "application/json"
    } else if str_eq(s, "html") {
        "text/html"
    } else if str_eq(s, "css") {
        "text/css"
    } else if str_eq(s, "js") {
        "application/javascript"
    } else {
        "application/octet-stream"
    };
    String::from_str(t)
}

/// The content type for `path`, from its lower-cased extension.
pub fn content_type_for_extension(path: &str) -> (r: String)
    ensures
        r@ == content_type_of(lower_extension_of(path@)),
{
    let e = lower_extension(path);
    content_type_for_lower_extension(e.as_str())
}

/// `dir` and `name` joined by one '/' (just `name` when `dir` is empty).
pub open spec fn join_of(dir: Seq<char>, name: Seq<char>) -> Seq<char> {
    if dir.len() == 0 {
        name
    } else {
        dir + "/"@ + name
    }
}

/// Joins a relative `name` under `dir`.
pub fn join(dir: &str, name: &str) -> (r: String)
    ensures
        r@ == join_of(dir@, name@),
{
    if dir.unicode_len() == 0 {
        String::from_str(name)
    } else {
        let d = concat(dir, "/");
        concat(d.as_str(), name)
    }
}

} // verus!
