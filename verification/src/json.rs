//! JSON documents of `serde_json`, seen through what can be read from a value: the text of a
//! string, the number of an integer, the members of an object.
use crate::text::trimmed;
use vstd::prelude::*;

verus! {

/// A JSON value of `serde_json`.
#[verifier::external_type_specification]
#[verifier::external_body]
pub struct ExValue(serde_json::Value);

/// The value that `serde_json::from_str` reads from a text, `None` where it reports an error.
pub uninterp spec fn json_document(text: Seq<char>) -> Option<serde_json::Value>;

/// The text that `serde_json::to_string` writes for a value.
pub uninterp spec fn json_rendering(v: serde_json::Value) -> Seq<char>;

/// The text of a value that is a string.
pub uninterp spec fn json_string(v: serde_json::Value) -> Option<Seq<char>>;

/// The number of a value that is an integer within `i64`.
pub uninterp spec fn json_integer(v: serde_json::Value) -> Option<i64>;

/// The members of a value that is an object.
pub uninterp spec fn json_members(v: serde_json::Value) -> Option<
    Map<Seq<char>, serde_json::Value>,
>;

/// How deep arrays and objects are nested in a value; a value that is neither has depth zero.
pub uninterp spec fn json_depth(v: serde_json::Value) -> nat;

/// Whether a value holds, at any depth, a number that is not kept as an integer.
pub uninterp spec fn json_fractional(v: serde_json::Value) -> bool;

/// The deepest nesting that `serde_json::from_str` reads.
pub const MAX_DEPTH: u64 = 127;

/// The string that stands in the object member `outer` under the name `inner`.
pub open spec fn string_at(
    v: serde_json::Value,
    outer: Seq<char>,
    inner: Seq<char>,
) -> Option<Seq<char>> {
    match member_of(v, outer) {
        Some(o) => match member_of(o, inner) {
            Some(w) => json_string(w),
            None => None,
        },
        None => None,
    }
}

/// The member of an object under the name `key`.
pub open spec fn member_of(v: serde_json::Value, key: Seq<char>) -> Option<serde_json::Value> {
    match json_members(v) {
        Some(m) => if m.dom().contains(key) {
            Some(m[key])
        } else {
            None
        },
        None => None,
    }
}

/// `serde_json::from_str` into a `Value`: the document in a text, `None` for any error. What is
/// read is nested at most `MAX_DEPTH` deep, since deeper nesting is one of the errors.
#[verifier::external_body]
pub(crate) fn parse_document(text: &str) -> (r: Option<serde_json::Value>)
    ensures
        r == json_document(text@),
        r matches Some(v) ==> json_depth(v) <= MAX_DEPTH,
{
    serde_json::from_str(text).ok()
}

/// `Value::get` with a string: the member of an object, `None` where the value is no object or
/// has no such member.
#[verifier::external_body]
pub(crate) fn member<'a>(v: &'a serde_json::Value, key: &str) -> (r: Option<&'a serde_json::Value>)
    ensures
        match r {
            Some(w) => member_of(*v, key@) == Some(*w),
            None => member_of(*v, key@) is None,
        },
{
    v.get(key)
}

/// `Value::as_str`: the text of a string, `None` for any other value.
#[verifier::external_body]
pub(crate) fn as_string(v: &serde_json::Value) -> (r: Option<&str>)
    ensures
        match r {
            Some(t) => json_string(*v) == Some(t@),
            None => json_string(*v) is None,
        },
{
    v.as_str()
}

/// Mutable indexing of an object by a string: a place for the member under that name, which is
/// added as null where it is missing. What is put in the place becomes that member; the other
/// members stay. An object has depth one at least; its depth grows by no more than what is put
/// there needs, and no fractional number comes in from elsewhere.
#[verifier::external_body]
pub(crate) fn member_mut<'a>(v: &'a mut serde_json::Value, key: &str) -> (r:
    &'a mut serde_json::Value)
    requires
        json_members(*old(v)) is Some,
    ensures
        match member_of(*old(v), key@) {
            Some(w) => *r == w && json_depth(*r) < json_depth(*old(v)) && (json_fractional(*r)
                ==> json_fractional(*old(v))),
            None => json_string(*r) is None && json_integer(*r) is None && json_members(*r) is None
                && json_depth(*r) == 0 && !json_fractional(*r),
        },
        json_members(*final(v)) == Some(json_members(*old(v))->0.insert(key@, *final(r))),
        json_depth(*old(v)) >= 1,
        json_depth(*final(v)) <= json_depth(*old(v)) || json_depth(*final(v)) <= json_depth(
            *final(r),
        ) + 1,
        json_fractional(*final(v)) ==> json_fractional(*old(v)) || json_fractional(*final(r)),
{
    &mut v[key]
}

/// `Value::from` a string slice: a string with that text.
#[verifier::external_body]
pub(crate) fn string_value(text: &str) -> (r: serde_json::Value)
    ensures
        json_string(r) == Some(text@),
        json_members(r) is None,
        json_depth(r) == 0,
        !json_fractional(r),
{
    serde_json::Value::from(text)
}

/// `Value::from` an `i64`: that integer.
#[verifier::external_body]
pub(crate) fn integer_value(n: i64) -> (r: serde_json::Value)
    ensures
        json_integer(r) == Some(n),
        json_members(r) is None,
        json_depth(r) == 0,
        !json_fractional(r),
{
    serde_json::Value::from(n)
}

/// `serde_json::to_string` of a `Value`, which does not fail. The text is compact: it neither
/// starts nor ends with white space. Where the nesting is within what `serde_json::from_str`
/// reads and every number is an integer, that function reads the same value back; with other
/// numbers, whose digits may be read back with a rounding error, the strings come back where
/// the text is read at all.
#[verifier::external_body]
pub(crate) fn render(v: &serde_json::Value) -> (r: String)
    ensures
        r@ == json_rendering(*v),
        trimmed(r@) == r@,
        json_depth(*v) <= MAX_DEPTH && !json_fractional(*v) ==> json_document(r@) == Some(*v),
        json_document(r@) matches Some(w) ==> forall|outer: Seq<char>, inner: Seq<char>| #[trigger]
            string_at(w, outer, inner) == string_at(*v, outer, inner),
{
    serde_json::to_string(v).unwrap()
}

/// A string stands under two names exactly where the value is an object with a member of the first name,
/// which is an object with a member of the second name, which is that string.
pub proof fn law_string_stands_under_its_names(
    v: serde_json::Value,
    outer: Seq<char>,
    inner: Seq<char>,
    text: Seq<char>,
)
    ensures
        string_at(v, outer, inner) == Some(text) <==> {
            &&& json_members(v) is Some
            &&& json_members(v)->0.contains_key(outer)
            &&& json_members(json_members(v)->0[outer]) is Some
            &&& json_members(json_members(v)->0[outer])->0.contains_key(inner)
            &&& json_string(json_members(json_members(v)->0[outer])->0[inner]) == Some(text)
        },
{
}

} // verus!
