//! The frontmatter value model: a JSON document as plain data.
use vstd::prelude::*;
use crate::text::{chars_of, same_chars};

verus! {

/// A JSON value. Numbers keep their textual form; an object keeps its
/// entries in iteration order.
#[derive(Debug)]
pub enum Json {
    Null,
    Bool(bool),
    Number(String),
    String(String),
    Array(Vec<Json>),
    Object(Vec<(String, Json)>),
}

/// The value of the first entry at or after `i` whose key is `key`.
pub open spec fn entry_from(es: Seq<(String, Json)>, key: Seq<char>, i: int) -> Option<Json>
    decreases es.len() - i,
{
    if i < 0 || i >= es.len() {
        None
    } else if es[i].0@ == key {
        Some(es[i].1)
    } else {
        entry_from(es, key, i + 1)
    }
}

/// `Value::get` with a string index: the member `key` of an object, and
/// nothing for any other kind of value.
pub open spec fn json_get(v: Json, key: Seq<char>) -> Option<Json> {
    match v {
        Json::Object(es) => entry_from(es@, key, 0),
        _ => None,
    }
}

/// The member `key` of `v`, when `v` is an object that has one.
pub fn get<'a>(v: &'a Json, key: &Vec<char>) -> (r: Option<&'a Json>)
    ensures
        match r {
            Some(x) => json_get(*v, key@) == Some(*x),
            None => json_get(*v, key@) is None,
        },
{
    match v {
        Json::Object(es) => {
            let mut i: usize = 0;
            while i < es.len()
                invariant
                    i <= es.len(),
                    json_get(*v, key@) == entry_from(es@, key@, i as int),
                    *v == Json::Object(*es),
                decreases es.len() - i,
            {
                let k = chars_of(es[i].0.as_str());
                if same_chars(&k, key) {
                    return Some(&es[i].1);
                }
                i += 1;
            }
            None
        },
        _ => None,
    }
}

/// Whether a document with this frontmatter gets a frontmatter block when
/// emitted: `Null` and the empty object do not.
pub open spec fn has_frontmatter_spec(v: Json) -> bool {
    match v {
        Json::Null => false,
        Json::Object(es) => es.len() > 0,
        _ => true,
    }
}

pub fn has_frontmatter(v: &Json) -> (r: bool)
    ensures
        r == has_frontmatter_spec(*v),
{
    match v {
        Json::Null => false,
        Json::Object(es) => es.len() > 0,
        _ => true,
    }
}

} // verus!
