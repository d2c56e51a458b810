//! Requests to the API as plain data, and the classes of answers.
use vstd::prelude::*;

verus! {

/// After how many seconds a request is given up.
pub const TIMEOUT_SECS: u64 = 15;

/// A name and a value: a header, a query parameter or a field of a body.
pub struct Field {
    pub name: String,
    pub value: String,
}

impl View for Field {
    type V = (Seq<char>, Seq<char>);

    open spec fn view(&self) -> (Seq<char>, Seq<char>) {
        (self.name@, self.value@)
    }
}

/// Makes a field.
pub fn field(name: &str, value: &str) -> (r: Field)
    ensures
        r@ == (name@, value@),
{
    Field { name: name.to_owned(), value: value.to_owned() }
}

/// The views of a list of fields.
pub open spec fn fields(list: Seq<Field>) -> Seq<(Seq<char>, Seq<char>)> {
    list.map_values(|f: Field| f@)
}

/// A request without a body.
pub struct GetRequest {
    pub url: String,
    pub query: Vec<Field>,
    pub headers: Vec<Field>,
}

pub ghost struct GetRequestView {
    pub url: Seq<char>,
    pub query: Seq<(Seq<char>, Seq<char>)>,
    pub headers: Seq<(Seq<char>, Seq<char>)>,
}

impl View for GetRequest {
    type V = GetRequestView;

    open spec fn view(&self) -> GetRequestView {
        GetRequestView {
            url: self.url@,
            query: fields(self.query@),
            headers: fields(self.headers@),
        }
    }
}

/// A request whose body is a JSON object of strings.
pub struct PostRequest {
    pub url: String,
    pub body: Vec<Field>,
}

pub ghost struct PostRequestView {
    pub url: Seq<char>,
    pub body: Seq<(Seq<char>, Seq<char>)>,
}

impl View for PostRequest {
    type V = PostRequestView;

    open spec fn view(&self) -> PostRequestView {
        PostRequestView { url: self.url@, body: fields(self.body@) }
    }
}

/// Whether a status code is one of success.
pub open spec fn success(code: u16) -> bool {
    200 <= code <= 299
}

/// Whether a status code is one of success.
pub fn is_success(code: u16) -> (r: bool)
    ensures
        r == success(code),
{
    200 <= code && code <= 299
}

/// A status is one of success exactly if its first of three digits is a two.
pub proof fn law_success_is_two_hundred_and_something(code: u16)
    ensures
        success(code) <==> code / 100 == 2,
{
}

/// The fields of a request are seen as they are, one for one and in their order.
pub proof fn law_fields_one_for_one(list: Seq<Field>, i: int)
    requires
        0 <= i < list.len(),
    ensures
        fields(list).len() == list.len(),
        fields(list)[i].0 == list[i].name@,
        fields(list)[i].1 == list[i].value@,
{
}

/// A request is seen as it is, field by field.
pub proof fn law_requests_are_seen_as_they_are(get: GetRequest, post: PostRequest)
    ensures
        get@.url == get.url@,
        get@.query == fields(get.query@),
        get@.headers == fields(get.headers@),
        post@.url == post.url@,
        post@.body == fields(post.body@),
{
}

} // verus!
