use vstd::prelude::*;

verus! {

/// A JSON document as the compiler's response holds it. Numbers that fit an
/// `i64` are kept as integers; any other number keeps its text. The members of
/// an object keep the response's order; a parsed response names each member of
/// an object once, and where a name repeats, lookups take its first member.
#[derive(Debug)]
pub enum Json {
    Null,
    Bool(bool),
    Int(i64),
    Number(String),
    Str(String),
    Array(Vec<Json>),
    Object(Vec<(String, Json)>),
}

/// The value of the first member of `fields` named `key`.
pub open spec fn field(fields: Seq<(String, Json)>, key: Seq<char>) -> Option<Json>
    decreases fields.len(),
{
    if fields.len() == 0 {
        None
    } else if fields[0].0@ == key {
        Some(fields[0].1)
    } else {
        field(fields.drop_first(), key)
    }
}

/// The member `key` of `v`, where `v` is an object that has one.
pub open spec fn member(v: Json, key: Seq<char>) -> Option<Json> {
    match v {
        Json::Object(fields) => field(fields@, key),
        _ => None,
    }
}

/// The text of the member `key` of `v`, where it is a string.
pub open spec fn str_member(v: Json, key: Seq<char>) -> Option<Seq<char>> {
    match member(v, key) {
        Some(Json::Str(s)) => Some(s@),
        _ => None,
    }
}

/// The members of the member `key` of `v`, where it is an object.
pub open spec fn object_member(v: Json, key: Seq<char>) -> Option<Seq<(String, Json)>> {
    match member(v, key) {
        Some(Json::Object(fields)) => Some(fields@),
        _ => None,
    }
}

/// Looks up the first member named `key`.
pub fn get_field<'a>(fields: &'a Vec<(String, Json)>, key: &String) -> (r: Option<&'a Json>)
    ensures
        match r {
            Some(v) => field(fields@, key@) == Some(*v),
            None => field(fields@, key@) is None,
        },
{
    let n = fields.len();
    let mut i: usize = 0;
    proof {
        assert(fields@.subrange(0, n as int) =~= fields@);
    }
    while i < n
        invariant
            n == fields@.len(),
            i <= n,
            field(fields@, key@) == field(fields@.subrange(i as int, n as int), key@),
        decreases n - i,
    {
        proof {
            assert(fields@.subrange(i as int, n as int).drop_first() =~= fields@.subrange(
                i + 1,
                n as int,
            ));
        }
        if fields[i].0 == *key {
            return Some(&fields[i].1);
        }
        i = i + 1;
    }
    None
}

/// The member `key` of `v`, where `v` is an object that has one.
pub fn get_member<'a>(v: &'a Json, key: &String) -> (r: Option<&'a Json>)
    ensures
        match r {
            Some(m) => member(*v, key@) == Some(*m),
            None => member(*v, key@) is None,
        },
{
    match v {
        Json::Object(fields) => get_field(fields, key),
        _ => None,
    }
}

/// The text of the member `key` of `v`, where it is a string.
pub fn get_str_member<'a>(v: &'a Json, key: &String) -> (r: Option<&'a String>)
    ensures
        match r {
            Some(s) => str_member(*v, key@) == Some(s@),
            None => str_member(*v, key@) is None,
        },
{
    match get_member(v, key) {
        Some(Json::Str(s)) => Some(s),
        _ => None,
    }
}

/// The members of the member `key` of `v`, where it is an object.
pub fn get_object_member<'a>(v: &'a Json, key: &String) -> (r: Option<&'a Vec<(String, Json)>>)
    ensures
        match r {
            Some(fields) => object_member(*v, key@) == Some(fields@),
            None => object_member(*v, key@) is None,
        },
{
    match get_member(v, key) {
        Some(Json::Object(fields)) => Some(fields),
        _ => None,
    }
}

} // verus!
