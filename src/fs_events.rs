//! Classification of file-system change notifications inside a workspace
//! into the coarse events the user interface refreshes on.
use vstd::prelude::*;
use vstd::string::{StrSliceExecFns, StringExecFns};
use crate::paths::{extension_of, is_image_extension, is_image_file, lower_extension_of};
use crate::workspace::opt_view;
use crate::text::{ends_with, first_index, first_index_of, is_prefix, is_suffix, slice, starts_with};

verus! {

/// A change in the workspace that the interface cares about.
pub struct FsChangeEvent {
    /// "dir-created", "dir-removed", "image-created" or "image-removed".
    pub kind: String,
    pub gallery_slug: Option<String>,
    pub filename: Option<String>,
}

/// What a directory listing shows: sub-directories and images.
pub struct DirListing {
    pub directories: Vec<String>,
    pub images: Vec<String>,
}

/// The non-empty '/'-separated parts of `s`, in order.
pub open spec fn segments_of(s: Seq<char>) -> Seq<Seq<char>>
    decreases s.len(),
{
    let i = first_index_of(s, '/');
    if i < 0 || i >= s.len() {
        if s.len() == 0 {
            Seq::empty()
        } else {
            seq![s]
        }
    } else {
        let head = s.subrange(0, i);
        let tail = segments_of(s.subrange(i + 1, s.len() as int));
        if head.len() == 0 {
            tail
        } else {
            seq![head] + tail
        }
    }
}

/// The path of `path` below `workspace`, if it lies below it.
pub open spec fn relative_of(path: Seq<char>, workspace: Seq<char>) -> Option<Seq<char>> {
    let w = if workspace.len() > 0 && workspace.last() == '/' {
        workspace
    } else {
        workspace.push('/')
    };
    if path == workspace {
        Some(Seq::empty())
    } else if is_prefix(w, path) {
        Some(path.subrange(w.len() as int, path.len() as int))
    } else {
        None
    }
}

pub ghost struct FsEventView {
    pub kind: Seq<char>,
    pub gallery_slug: Option<Seq<char>>,
    pub filename: Option<Seq<char>>,
}

impl View for FsChangeEvent {
    type V = FsEventView;

    open spec fn view(&self) -> FsEventView {
        FsEventView {
            kind: self.kind@,
            gallery_slug: opt_view(self.gallery_slug),
            filename: opt_view(self.filename),
        }
    }
}

pub open spec fn any_hidden(segs: Seq<Seq<char>>) -> bool {
    exists|i: int| 0 <= i < segs.len() && is_prefix("."@, #[trigger] segs[i])
}

/// The event for a change at `path` in `workspace`, given whether the path
/// exists now and is a directory: a gallery directory appearing or going
/// away, or an image in a gallery appearing or going away. Hidden paths,
/// JSON files and anything deeper are ignored.
pub open spec fn fs_event_of(
    path: Seq<char>,
    workspace: Seq<char>,
    exists: bool,
    is_dir: bool,
) -> Option<FsEventView> {
    match relative_of(path, workspace) {
        None => None,
        Some(rel) => {
            let segs = segments_of(rel);
            if segs.len() == 0 || any_hidden(segs) {
                None
            } else if segs.len() == 1 {
                if is_suffix(".json"@, segs[0]) {
                    None
                } else if exists {
                    if is_dir {
                        Some(
                            FsEventView {
                                kind: "dir-created"@,
                                gallery_slug: Some(segs[0]),
                                filename: None,
                            },
                        )
                    } else {
                        None
                    }
                } else {
                    Some(
                        FsEventView {
                            kind: "dir-removed"@,
                            gallery_slug: Some(segs[0]),
                            filename: None,
                        },
                    )
                }
            } else if segs.len() == 2 {
                if is_suffix(".json"@, segs[1]) || !(extension_of(path).is_some()
                    && is_image_extension(lower_extension_of(path))) {
                    None
                } else {
                    Some(
                        FsEventView {
                            kind: if exists {
                                "image-created"@
                            } else {
                                "image-removed"@
                            },
                            gallery_slug: Some(segs[0]),
                            filename: Some(segs[1]),
                        },
                    )
                }
            } else {
                None
            }
        },
    }
}

fn segments(s: &str) -> (r: Vec<String>)
    ensures
        r@.map_values(|x: String| x@) == segments_of(s@),
{
    let mut out: Vec<String> = Vec::new();
    let mut rest = String::from_str(s);
    assert(out@.map_values(|x: String| x@) + segments_of(rest@) =~= segments_of(s@));
    while rest.as_str().unicode_len() > 0
        invariant
            out@.map_values(|x: String| x@) + segments_of(rest@) == segments_of(s@),
        decreases rest@.len(),
    {
        proof {
            crate::text::lemma_first_index_of_bounds(rest@, '/');
        }
        let n = rest.as_str().unicode_len();
        let ghost before = out@.map_values(|x: String| x@);
        match first_index(rest.as_str(), '/') {
            Some(i) => {
                let head = slice(rest.as_str(), 0, i);
                let tail = slice(rest.as_str(), i + 1, n);
                if head.as_str().unicode_len() > 0 {
                    let ghost hv = head@;
                    out.push(head);
                    assert(out@.map_values(|x: String| x@) =~= before.push(hv));
                    assert(seq![hv] + segments_of(tail@) == segments_of(rest@));
                    assert(before.push(hv) + segments_of(tail@) =~= before + (seq![hv]
                        + segments_of(tail@)));
                }
                rest = tail;
            },
            None => {
                let ghost rv = rest@;
                out.push(rest);
                assert(out@.map_values(|x: String| x@) =~= before.push(rv));
                assert(segments_of(rv) == seq![rv]);
                rest = String::new();
                assert(segments_of(rest@) =~= Seq::<Seq<char>>::empty());
                assert(before.push(rv) + segments_of(rest@) =~= before + seq![rv]);
            },
        }
    }
    assert(segments_of(rest@) =~= Seq::<Seq<char>>::empty());
    assert(out@.map_values(|x: String| x@) + segments_of(rest@) =~= out@.map_values(
        |x: String| x@,
    ));
    out
}

fn relative(path: &str, workspace: &str) -> (r: Option<String>)
    ensures
        opt_view(r) == relative_of(path@, workspace@),
{
    let n = workspace.unicode_len();
    let w = if n > 0 && workspace.get_char(n - 1) == '/' {
        String::from_str(workspace)
    } else {
        let w = crate::text::concat(workspace, "/");
        proof {
            reveal_strlit("/");
        }
        assert(w@ =~= workspace@.push('/'));
        w
    };
    if crate::text::str_eq(path, workspace) {
        return Some(String::new());
    }
    if starts_with(path, w.as_str()) {
        Some(slice(path, w.as_str().unicode_len(), path.unicode_len()))
    } else {
        None
    }
}

fn hidden(segs: &Vec<String>) -> (r: bool)
    ensures
        r == any_hidden(segs@.map_values(|x: String| x@)),
{
    let n = segs.len();
    let mut i: usize = 0;
    while i < n
        invariant
            n == segs@.len(),
            i <= n,
            forall|j: int| 0 <= j < i ==> !is_prefix("."@, segs@[j]@),
        decreases n - i,
    {
        if starts_with(segs[i].as_str(), ".") {
            assert(segs@.map_values(|x: String| x@)[i as int] == segs@[i as int]@);
            return true;
        }
        i = i + 1;
    }
    proof {
        let v = segs@.map_values(|x: String| x@);
        assert forall|j: int| 0 <= j < v.len() implies !is_prefix("."@, #[trigger] v[j]) by {
            assert(v[j] == segs@[j]@);
        }
    }
    false
}

/// The event for a change at `path` (below `workspace`), given whether the
/// path exists now and whether it is a directory.
pub fn classify_fs_event(path: &str, workspace: &str, exists: bool, is_dir: bool) -> (r: Option<
    FsChangeEvent,
>)
    ensures
        match r {
            Some(e) => fs_event_of(path@, workspace@, exists, is_dir) == Some(e@),
            None => fs_event_of(path@, workspace@, exists, is_dir).is_none(),
        },
{
    let rel = match relative(path, workspace) {
        Some(r) => r,
        None => return None,
    };
    let segs = segments(rel.as_str());
    let ghost sv = segs@.map_values(|x: String| x@);
    if segs.len() == 0 || hidden(&segs) {
        return None;
    }
    assert(sv[0] == segs@[0]@);
    if segs.len() == 1 {
        if ends_with(segs[0].as_str(), ".json") {
            return None;
        }
        if exists {
            if is_dir {
                return Some(
                    FsChangeEvent {
                        kind: String::from_str("dir-created"),
                        gallery_slug: Some(segs[0].clone()),
                        filename: None,
                    },
                );
            }
            return None;
        }
        return Some(
            FsChangeEvent {
                kind: String::from_str("dir-removed"),
                gallery_slug: Some(segs[0].clone()),
                filename: None,
            },
        );
    }
    if segs.len() == 2 {
        assert(sv[1] == segs@[1]@);
        if ends_with(segs[1].as_str(), ".json") || !is_image_file(path) {
            return None;
        }
        let kind = if exists {
            String::from_str("image-created")
        } else {
            String::from_str("image-removed")
        };
        return Some(
            FsChangeEvent {
                kind,
                gallery_slug: Some(segs[0].clone()),
                filename: Some(segs[1].clone()),
            },
        );
    }
    None
}

} // verus!
