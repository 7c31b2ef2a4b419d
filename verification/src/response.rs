use vstd::prelude::*;

verus! {

/// The request target. The server currently understands exactly one kind of
/// target: a URL path such as `/api/shipping/orders`.
pub enum Resource {
    Path(String),
}

/// A parsed HTTP request as this layer sees it. Method, headers and body are
/// consumed upstream and never reach the handlers.
pub struct Request {
    pub resource: Resource,
}

impl Request {
    /// The request's path, as a sequence of characters.
    pub open spec fn path(&self) -> Seq<char> {
        match self.resource {
            Resource::Path(p) => p@,
        }
    }
}

/// The mathematical image of a [`Response`]: the status token, the header
/// pairs and the body, all at the level of character sequences.
#[verifier::ext_equal]
pub struct ResponseModel {
    pub status: Seq<char>,
    pub headers: Option<Seq<(Seq<char>, Seq<char>)>>,
    pub body: Option<Seq<char>>,
}

/// A response: a status token (e.g. `"200"`, `"404"`), an optional list of
/// header name/value pairs, and an optional body. Built once by a handler and
/// handed to the caller for serialization.
#[derive(Debug)]
pub struct Response {
    pub status_code: String,
    pub headers: Option<Vec<(String, String)>>,
    pub body: Option<String>,
}

impl View for Response {
    type V = ResponseModel;

    open spec fn view(&self) -> ResponseModel {
        ResponseModel {
            status: self.status_code@,
            headers: match self.headers {
                Option::None => None,
                Option::Some(h) => Some(h@.map_values(|p: (String, String)| (p.0@, p.1@))),
            },
            body: match self.body {
                Option::None => None,
                Option::Some(b) => Some(b@),
            },
        }
    }
}

/// The view of an optional string, used to state handler contracts over the
/// optional file contents they are given.
pub open spec fn opt_text(o: Option<String>) -> Option<Seq<char>> {
    match o {
        Option::None => None,
        Option::Some(s) => Some(s@),
    }
}

impl Response {
    /// Assemble a response from its three parts.
    pub fn new(status_code: &str, headers: Option<Vec<(String, String)>>, body: Option<String>) -> (r: Response)
        ensures
            r@.status == status_code@,
            r@.headers == (match headers {
                Option::None => None::<Seq<(Seq<char>, Seq<char>)>>,
                Option::Some(h) => Some(h@.map_values(|p: (String, String)| (p.0@, p.1@))),
            }),
            r@.body == opt_text(body),
    {
        Response { status_code: status_code.to_owned(), headers, body }
    }
}

} // verus!
