use vstd::prelude::*;
use crate::json::{encode_orders, encode_orders_json};
use crate::parse::{parse_orders, spec_parse_orders};
use crate::response::{opt_text, Request, Resource, Response, ResponseModel};
use crate::route::split_path;
use crate::route::split_slash;
use vstd::string::StrSliceExecFns;

verus! {

broadcast use vstd::string::group_string_axioms;

/// Always answers with the not-found page.
pub struct PageNotFoundHandler;

/// Serves `index.html`, `health.html` or an arbitrary static asset.
pub struct StaticPageHandler;

/// Serves the order list under `/api/shipping/orders`.
pub struct WebServiceHandler;

/// `t` is a suffix of `s`.
pub open spec fn has_suffix(s: Seq<char>, t: Seq<char>) -> bool {
    t.len() <= s.len() && s.subrange(s.len() - t.len(), s.len() as int) == t
}

/// The MIME type inferred from loaded content, by a suffix check on the
/// content itself (not on a filename): content ending in `.css` is CSS,
/// content ending in the two characters `js` (deliberately loose, any such
/// tail counts) is JavaScript, and anything else is HTML.
pub open spec fn spec_content_type(content: Seq<char>) -> Seq<char> {
    if has_suffix(content, ".css"@) {
        "text/css"@
    } else if has_suffix(content, "js"@) {
        "text/javascript"@
    } else {
        "text/html"@
    }
}

/// Infer the MIME type of loaded content from its trailing characters.
pub fn content_type_of(content: &str) -> (r: &'static str)
    ensures
        r@ == spec_content_type(content@),
{
    proof {
        reveal_strlit(".css");
        reveal_strlit("js");
    }
    let n = content.unicode_len();
    if n >= 4 && content.get_char(n - 4) == '.' && content.get_char(n - 3) == 'c'
        && content.get_char(n - 2) == 's' && content.get_char(n - 1) == 's' {
        proof {
            assert(content@.subrange(n - 4, n as int) =~= ".css"@);
        }
        "text/css"
    } else if n >= 2 && content.get_char(n - 2) == 'j' && content.get_char(n - 1) == 's' {
        proof {
            if has_suffix(content@, ".css"@) {
                assert(content@.subrange(n - 4, n as int)[2] == ".css"@[2]);
                assert(content@[n - 2] == 's');
                assert(false);
            }
            assert(content@.subrange(n - 2, n as int) =~= "js"@);
        }
        "text/javascript"
    } else {
        proof {
            if has_suffix(content@, ".css"@) {
                assert(content@.subrange(n - 4, n as int)[0] == ".css"@[0]);
                assert(content@.subrange(n - 4, n as int)[1] == ".css"@[1]);
                assert(content@.subrange(n - 4, n as int)[2] == ".css"@[2]);
                assert(content@.subrange(n - 4, n as int)[3] == ".css"@[3]);
                assert(content@[n - 4] == '.' && content@[n - 3] == 'c' && content@[n - 2] == 's'
                    && content@[n - 1] == 's');
                assert(false);
            }
            if has_suffix(content@, "js"@) {
                assert(content@.subrange(n - 2, n as int)[0] == "js"@[0]);
                assert(content@.subrange(n - 2, n as int)[1] == "js"@[1]);
                assert(content@[n - 2] == 'j' && content@[n - 1] == 's');
                assert(false);
            }
        }
        "text/html"
    }
}

/// The response of the not-found handler: status `404`, no headers, and the
/// not-found page (if one could be loaded) as body.
pub open spec fn spec_not_found_response(not_found_page: Option<Seq<char>>) -> ResponseModel {
    ResponseModel { status: "404"@, headers: None, body: not_found_page }
}

impl PageNotFoundHandler {
    /// Ignores the request and answers `404` with the given page as body.
    pub fn handle(_req: &Request, not_found_page: Option<String>) -> (r: Response)
        ensures
            r@ == spec_not_found_response(opt_text(not_found_page)),
    {
        let r = Response::new("404", None, not_found_page);
        proof {
            assert(r@ =~~= spec_not_found_response(opt_text(not_found_page)));
        }
        r
    }
}

/// The file the static-page handler serves for `path`: `index.html` for an
/// empty first segment, `health.html` for `health`, otherwise the first
/// segment itself. `None` when the path has no second `/`-delimited segment;
/// such a path is answered with the not-found response rather than read out
/// of bounds.
pub open spec fn spec_target_file(path: Seq<char>) -> Option<Seq<char>> {
    let segs = split_slash(path);
    if segs.len() < 2 {
        None
    } else if segs[1] == Seq::<char>::empty() {
        Some("index.html"@)
    } else if segs[1] == "health"@ {
        Some("health.html"@)
    } else {
        Some(segs[1])
    }
}

/// The static-page handler's response, given the contents loaded for
/// [`spec_target_file`] and the not-found page. The index and health routes
/// answer `200` with no headers even when their file is missing; a named
/// asset answers `200` with exactly one sniffed `Content-Type` header when
/// found, and the not-found response otherwise.
pub open spec fn spec_static_response(
    path: Seq<char>,
    loaded: Option<Seq<char>>,
    not_found_page: Option<Seq<char>>,
) -> ResponseModel {
    let segs = split_slash(path);
    if segs.len() < 2 {
        spec_not_found_response(not_found_page)
    } else if segs[1] == Seq::<char>::empty() || segs[1] == "health"@ {
        ResponseModel { status: "200"@, headers: None, body: loaded }
    } else {
        match loaded {
            Some(content) => ResponseModel {
                status: "200"@,
                headers: Some(seq![("Content-Type"@, spec_content_type(content))]),
                body: Some(content),
            },
            None => spec_not_found_response(not_found_page),
        }
    }
}

impl StaticPageHandler {
    /// The file to load for this request, or `None` when the request is
    /// answered without looking at any file.
    pub fn target_file(req: &Request) -> (r: Option<String>)
        ensures
            opt_text(r) == spec_target_file(req.path()),
    {
        let Resource::Path(path) = &req.resource;
        let route = split_path(path.as_str());
        if route.len() < 2 {
            None
        } else {
            let seg = &route[1];
            proof {
                assert(seg@ == split_slash(req.path())[1]);
            }
            if seg.as_str().unicode_len() == 0 {
                proof {
                    assert(seg@ =~= Seq::<char>::empty());
                }
                Some("index.html".to_owned())
            } else if *seg == "health".to_owned() {
                Some("health.html".to_owned())
            } else {
                proof {
                    assert(seg@ != Seq::<char>::empty());
                }
                Some(seg.clone())
            }
        }
    }

    /// Serve a static page: `loaded` must be the contents found (or not) for
    /// [`spec_target_file`]; `not_found_page` is the fallback body.
    pub fn handle(req: &Request, loaded: Option<String>, not_found_page: Option<String>) -> (r: Response)
        ensures
            r@ == spec_static_response(req.path(), opt_text(loaded), opt_text(not_found_page)),
    {
        let Resource::Path(path) = &req.resource;
        let route = split_path(path.as_str());
        let ghost model = spec_static_response(req.path(), opt_text(loaded), opt_text(not_found_page));
        if route.len() < 2 {
            let r = Response::new("404", None, not_found_page);
            proof {
                assert(r@ =~~= model);
            }
            r
        } else {
            let seg = &route[1];
            proof {
                assert(seg@ == split_slash(req.path())[1]);
            }
            if seg.as_str().unicode_len() == 0 || *seg == "health".to_owned() {
                proof {
                    if seg@.len() == 0 {
                        assert(seg@ =~= Seq::<char>::empty());
                    }
                }
                let r = Response::new("200", None, loaded);
                proof {
                    assert(r@ =~~= model);
                }
                r
            } else {
                proof {
                    assert(seg@ != Seq::<char>::empty());
                }
                match loaded {
                    Some(contents) => {
                        let ct = content_type_of(contents.as_str());
                        let headers: Vec<(String, String)> = vec![("Content-Type".to_owned(), ct.to_owned())];
                        let r = Response::new("200", Some(headers), Some(contents));
                        proof {
                            assert(r@.headers matches Some(h) && h =~~= (seq![
                                ("Content-Type"@, spec_content_type(model.body->0)),
                            ]));
                            assert(r@ =~~= model);
                        }
                        r
                    },
                    None => {
                        let r = Response::new("404", None, not_found_page);
                        proof {
                            assert(r@ =~~= model);
                        }
                        r
                    },
                }
            }
        }
    }
}

/// How the orders document failed to reach the web-service handler.
#[derive(PartialEq, Eq, Structural, Debug)]
pub enum OrdersError {
    /// The document could not be read at all.
    MissingDocument,
    /// The document's text is not an orders document.
    MalformedDocument,
}

/// The web-service route fires exactly when the third `/`-delimited segment
/// is `shipping` and a fourth segment exists and is `orders` (the first two
/// segments are never examined).
pub open spec fn ws_route_matches(path: Seq<char>) -> bool {
    let segs = split_slash(path);
    segs.len() > 3 && segs[2] == "shipping"@ && segs[3] == "orders"@
}

/// The web-service handler's outcome, given the text of the orders document
/// (or `None` when it could not be read) and the not-found page. A path off
/// the orders route is answered `404` without consulting the document; on the
/// route, a missing or malformed document is a fatal condition reported to
/// the caller rather than a response; otherwise the decoded records are
/// re-encoded as the JSON body of a `200` response with a single
/// `Content-Type: application/json` header. A path with fewer than three
/// segments is answered `404` rather than read out of bounds.
pub open spec fn spec_ws_response(
    path: Seq<char>,
    orders_text: Option<Seq<char>>,
    not_found_page: Option<Seq<char>>,
) -> Result<ResponseModel, OrdersError> {
    if !ws_route_matches(path) {
        Ok(spec_not_found_response(not_found_page))
    } else {
        match orders_text {
            None => Err(OrdersError::MissingDocument),
            Some(t) => match spec_parse_orders(t) {
                None => Err(OrdersError::MalformedDocument),
                Some(os) => Ok(ResponseModel {
                    status: "200"@,
                    headers: Some(seq![("Content-Type"@, "application/json"@)]),
                    body: Some(encode_orders(os)),
                }),
            },
        }
    }
}

impl WebServiceHandler {
    /// Whether this request is for the order list, so that the caller knows
    /// to read the orders document before calling [`Self::handle`].
    pub fn wants_orders(req: &Request) -> (b: bool)
        ensures
            b == ws_route_matches(req.path()),
    {
        let Resource::Path(path) = &req.resource;
        let route = split_path(path.as_str());
        if route.len() > 3 {
            proof {
                assert(route[2]@ == split_slash(req.path())[2]);
                assert(route[3]@ == split_slash(req.path())[3]);
            }
            let m2 = *(&route[2]) == "shipping".to_owned();
            let m3 = *(&route[3]) == "orders".to_owned();
            m2 && m3
        } else {
            false
        }
    }

    /// Serve the order list: `orders_text` must be the orders document's text
    /// as read (or `None` when unreadable); `not_found_page` is the fallback
    /// body. An unreadable or undecodable document on the orders route is
    /// returned as the error, for the caller to treat as fatal.
    pub fn handle(req: &Request, orders_text: Option<String>, not_found_page: Option<String>) -> (r:
        Result<Response, OrdersError>)
        ensures
            (match r {
                Ok(resp) => spec_ws_response(
                    req.path(),
                    opt_text(orders_text),
                    opt_text(not_found_page),
                ) == Ok::<ResponseModel, OrdersError>(resp@),
                Err(e) => spec_ws_response(
                    req.path(),
                    opt_text(orders_text),
                    opt_text(not_found_page),
                ) == Err::<ResponseModel, OrdersError>(e),
            }),
    {
        let ghost model = spec_ws_response(req.path(), opt_text(orders_text), opt_text(not_found_page));
        if !Self::wants_orders(req) {
            let r = Response::new("404", None, not_found_page);
            proof {
                assert(model matches Ok(m) && r@ =~~= m);
            }
            Ok(r)
        } else {
            match orders_text {
                None => Err(OrdersError::MissingDocument),
                Some(text) => {
                    match parse_orders(text.as_str()) {
                        None => Err(OrdersError::MalformedDocument),
                        Some(orders) => {
                            let body = encode_orders_json(&orders);
                            let headers: Vec<(String, String)> = vec![
                                ("Content-Type".to_owned(), "application/json".to_owned()),
                            ];
                            let r = Response::new("200", Some(headers), Some(body));
                            proof {
                                assert(model matches Ok(m) && r@ =~~= m);
                            }
                            Ok(r)
                        },
                    }
                },
            }
        }
    }
}

} // verus!
