//! A JSON document tree, and the reading of gallery metadata from it.
use vstd::prelude::*;
use crate::text::str_eq;

verus! {

/// A JSON value. Numbers keep their textual form.
pub enum Json {
    Null,
    Bool(bool),
    Number(String),
    Str(String),
    Array(Vec<Json>),
    Object(Vec<JsonMember>),
}

/// One member of a JSON object.
pub struct JsonMember {
    pub key: String,
    pub value: Json,
}

/// The value of the first member named `k`.
pub open spec fn member_of(ms: Seq<JsonMember>, k: Seq<char>) -> Option<Json>
    decreases ms.len(),
{
    if ms.len() == 0 {
        None
    } else if ms[0].key@ == k {
        Some(ms[0].value)
    } else {
        member_of(ms.drop_first(), k)
    }
}

/// The member `k` of an object; nothing for any other value.
pub open spec fn field_of(j: Json, k: Seq<char>) -> Option<Json> {
    match j {
        Json::Object(ms) => member_of(ms@, k),
        _ => None,
    }
}

/// The member `k` of an object when it is a string.
pub open spec fn str_field(j: Json, k: Seq<char>) -> Option<Seq<char>> {
    match field_of(j, k) {
        Some(Json::Str(s)) => Some(s@),
        _ => None,
    }
}

/// The member `k` of an object when it is a string, else the empty string.
pub open spec fn str_field_or_empty(j: Json, k: Seq<char>) -> Seq<char> {
    match str_field(j, k) {
        Some(s) => s,
        None => Seq::empty(),
    }
}

/// The items of the member `k` of an object when it is an array, else none.
pub open spec fn array_field(j: Json, k: Seq<char>) -> Seq<Json> {
    match field_of(j, k) {
        Some(Json::Array(v)) => v@,
        _ => Seq::empty(),
    }
}

/// The galleries listed by a gallery index in either of its shapes: a bare
/// array of galleries, or an object whose `galleries` member is that array.
/// Any other value lists none.
pub open spec fn gallery_list(raw: Json) -> Seq<Json> {
    match raw {
        Json::Array(v) => v@,
        Json::Object(_) => array_field(raw, "galleries"@),
        _ => Seq::empty(),
    }
}

/// Both shapes of the gallery index list the same galleries.
pub proof fn law_index_shapes_agree(bare: Vec<Json>, wrapped: Vec<JsonMember>)
    requires
        member_of(wrapped@, "galleries"@) == Some(Json::Array(bare)),
    ensures
        gallery_list(Json::Array(bare)) == gallery_list(Json::Object(wrapped)),
{
}

fn member<'a>(ms: &'a Vec<JsonMember>, k: &str) -> (r: Option<&'a Json>)
    ensures
        match r {
            Some(v) => member_of(ms@, k@) == Some(*v),
            None => member_of(ms@, k@).is_none(),
        },
{
    let n = ms.len();
    let mut i: usize = 0;
    assert(ms@.subrange(0, n as int) == ms@);
    while i < n
        invariant
            n == ms@.len(),
            i <= n,
            member_of(ms@, k@) == member_of(ms@.subrange(i as int, n as int), k@),
        decreases n - i,
    {
        let ghost rest = ms@.subrange(i as int, n as int);
        assert(rest[0] == ms@[i as int]);
        assert(rest.drop_first() == ms@.subrange(i + 1, n as int));
        if str_eq(ms[i].key.as_str(), k) {
            return Some(&ms[i].value);
        }
        i = i + 1;
    }
    None
}

/// The member `k` of `j`, when `j` is an object that has one.
pub fn get_field<'a>(j: &'a Json, k: &str) -> (r: Option<&'a Json>)
    ensures
        match r {
            Some(v) => field_of(*j, k@) == Some(*v),
            None => field_of(*j, k@).is_none(),
        },
{
    match j {
        Json::Object(ms) => {
            assert(ms@.subrange(0, ms@.len() as int) == ms@);
            member(ms, k)
        },
        _ => None,
    }
}

/// The member `k` of `j` when it is a string.
pub fn get_str<'a>(j: &'a Json, k: &str) -> (r: Option<&'a String>)
    ensures
        match r {
            Some(s) => str_field(*j, k@) == Some(s@),
            None => str_field(*j, k@).is_none(),
        },
{
    match get_field(j, k) {
        Some(Json::Str(s)) => Some(s),
        _ => None,
    }
}

/// The items of the member `k` of `j` when it is an array.
pub fn get_array<'a>(j: &'a Json, k: &str) -> (r: Option<&'a Vec<Json>>)
    ensures
        match r {
            Some(v) => array_field(*j, k@) == v@,
            None => array_field(*j, k@).len() == 0,
        },
{
    match get_field(j, k) {
        Some(Json::Array(v)) => Some(v),
        _ => None,
    }
}

/// The galleries of a gallery index, in either shape.
pub fn parse_galleries_array(raw: &Json) -> (r: Option<&Vec<Json>>)
    ensures
        match r {
            Some(v) => gallery_list(*raw) == v@,
            None => gallery_list(*raw).len() == 0,
        },
{
    match raw {
        Json::Array(v) => Some(v),
        Json::Object(_) => get_array(raw, "galleries"),
        _ => None,
    }
}

/// The strings among the items of `v`, in order.
pub open spec fn strings_of(v: Seq<Json>) -> Seq<Seq<char>>
    decreases v.len(),
{
    if v.len() == 0 {
        Seq::empty()
    } else {
        match v.last() {
            Json::Str(s) => strings_of(v.drop_last()).push(s@),
            _ => strings_of(v.drop_last()),
        }
    }
}

/// The string items of the array member `k` of `j` (its tags, for instance).
pub fn string_items(j: &Json, k: &str) -> (r: Vec<String>)
    ensures
        r@.map_values(|s: String| s@) == strings_of(array_field(*j, k@)),
{
    let mut out: Vec<String> = Vec::new();
    match get_array(j, k) {
        Some(v) => {
            let n = v.len();
            let mut i: usize = 0;
            while i < n
                invariant
                    n == v@.len(),
                    v@ == array_field(*j, k@),
                    i <= n,
                    out@.map_values(|s: String| s@) == strings_of(v@.subrange(0, i as int)),
                decreases n - i,
            {
                let ghost pre = v@.subrange(0, i + 1);
                assert(pre.drop_last() == v@.subrange(0, i as int));
                assert(pre.last() == v@[i as int]);
                match &v[i] {
                    Json::Str(s) => {
                        let ghost before = out@;
                        out.push(s.clone());
                        assert(out@.map_values(|s: String| s@) == before.map_values(
                            |s: String| s@,
                        ).push(s@));
                    },
                    _ => {},
                }
                i = i + 1;
            }
            assert(v@.subrange(0, n as int) == v@);
        },
        None => {
            assert(out@.map_values(|s: String| s@) == Seq::<Seq<char>>::empty());
        },
    }
    out
}

} // verus!
