use vstd::prelude::*;
use crate::handler::{
    has_suffix, spec_content_type, spec_not_found_response, spec_static_response,
    spec_target_file, spec_ws_response, ws_route_matches, OrdersError,
};
use crate::json::encode_orders;
use crate::parse::spec_parse_orders;
use crate::response::ResponseModel;
use crate::route::split_slash;

verus! {

/// Splitting a path without any separator yields that path as its only
/// segment.
pub proof fn lemma_split_no_slash(s: Seq<char>)
    requires
        forall|k: int| 0 <= k < s.len() ==> s[k] != '/',
    ensures
        split_slash(s) =~~= seq![s],
    decreases s.len(),
{
    if s.len() > 0 {
        lemma_split_no_slash(s.drop_first());
        assert(seq![s[0]] + s.drop_first() =~= s);
    }
}

/// A path whose first segment names no known page, and whose file was not
/// found, is answered `404` by the static-page handler, with the not-found
/// page as body.
pub proof fn lemma_static_unknown_not_found(path: Seq<char>, not_found_page: Option<Seq<char>>)
    requires
        split_slash(path).len() >= 2,
        split_slash(path)[1] != Seq::<char>::empty(),
        split_slash(path)[1] != "health"@,
    ensures
        spec_static_response(path, None, not_found_page) == spec_not_found_response(
            not_found_page,
        ),
        spec_static_response(path, None, not_found_page).status == "404"@,
{
}

/// The root path is answered `200` by the static-page handler, with the
/// index page's contents (as loaded for [`spec_target_file`]) as body.
pub proof fn lemma_static_root(loaded: Option<Seq<char>>, not_found_page: Option<Seq<char>>)
    ensures
        spec_target_file("/"@) == Some("index.html"@),
        spec_static_response("/"@, loaded, not_found_page).status == "200"@,
        spec_static_response("/"@, loaded, not_found_page).body == loaded,
        spec_static_response("/"@, loaded, not_found_page).headers is None,
{
    reveal_strlit("/");
    let s = "/"@;
    assert(s.len() == 1 && s[0] == '/');
    assert(s.drop_first() =~= Seq::<char>::empty());
    assert(split_slash(Seq::<char>::empty()) =~= seq![Seq::<char>::empty()]);
    assert(split_slash(s) =~~= seq![Seq::<char>::empty(), Seq::<char>::empty()]);
}

/// The health path is answered `200` by the static-page handler, with the
/// health page's contents (as loaded for [`spec_target_file`]) as body.
pub proof fn lemma_static_health(loaded: Option<Seq<char>>, not_found_page: Option<Seq<char>>)
    ensures
        spec_target_file("/health"@) == Some("health.html"@),
        spec_static_response("/health"@, loaded, not_found_page).status == "200"@,
        spec_static_response("/health"@, loaded, not_found_page).body == loaded,
        spec_static_response("/health"@, loaded, not_found_page).headers is None,
{
    reveal_strlit("/health");
    reveal_strlit("health");
    let s = "/health"@;
    assert(s.len() == 7 && s[0] == '/');
    assert(s.drop_first() =~= "health"@);
    lemma_split_no_slash("health"@);
    assert(split_slash(s) =~~= seq![Seq::<char>::empty(), "health"@]);
    assert("health"@.len() == 6);
    assert(split_slash(s)[1] != Seq::<char>::empty());
}

/// A found static file is answered `200`, its contents the body, with one
/// `Content-Type` header chosen from the three known types by the suffix
/// rule.
pub proof fn lemma_static_existing_file(
    path: Seq<char>,
    content: Seq<char>,
    not_found_page: Option<Seq<char>>,
)
    requires
        split_slash(path).len() >= 2,
        split_slash(path)[1] != Seq::<char>::empty(),
        split_slash(path)[1] != "health"@,
    ensures
        spec_static_response(path, Some(content), not_found_page).status == "200"@,
        spec_static_response(path, Some(content), not_found_page).body == Some(content),
        spec_static_response(path, Some(content), not_found_page).headers == Some(
            seq![("Content-Type"@, spec_content_type(content))],
        ),
        spec_content_type(content) == "text/css"@ || spec_content_type(content)
            == "text/javascript"@ || spec_content_type(content) == "text/html"@,
        has_suffix(content, ".css"@) ==> spec_content_type(content) == "text/css"@,
        !has_suffix(content, ".css"@) && has_suffix(content, "js"@) ==> spec_content_type(content)
            == "text/javascript"@,
        !has_suffix(content, ".css"@) && !has_suffix(content, "js"@) ==> spec_content_type(content)
            == "text/html"@,
{
}

/// Any path off the orders route is answered `404` by the web-service
/// handler, whatever the orders document holds; this covers both a wrong
/// third segment and a wrong fourth one.
pub proof fn lemma_ws_off_route(
    path: Seq<char>,
    orders_text: Option<Seq<char>>,
    not_found_page: Option<Seq<char>>,
)
    requires
        !ws_route_matches(path),
    ensures
        spec_ws_response(path, orders_text, not_found_page) == Ok::<ResponseModel, OrdersError>(
            spec_not_found_response(not_found_page),
        ),
        (spec_ws_response(path, orders_text, not_found_page)->Ok_0).status == "404"@,
{
}

/// On the orders route, with a document that decodes, the web-service
/// handler's body is the JSON array for exactly the document's records:
/// decoding the body gives the same record set as decoding the document, and
/// re-encoding that set gives the body again.
pub proof fn lemma_ws_body_round_trip(
    path: Seq<char>,
    t: Seq<char>,
    not_found_page: Option<Seq<char>>,
)
    requires
        ws_route_matches(path),
        spec_parse_orders(t) is Some,
    ensures
        spec_ws_response(path, Some(t), not_found_page) matches Ok(m) && m.status == "200"@ && (
        m.body matches Some(b) && spec_parse_orders(b) == spec_parse_orders(t) && b
            == encode_orders(spec_parse_orders(t)->0)),
{
    let os = spec_parse_orders(t)->0;
    crate::roundtrip::lemma_parse_orders_wf(t);
    crate::roundtrip::lemma_orders_round_trip(os);
}

/// The handlers are functions of the request and of the data they were
/// handed: two calls of the static-page handler on the same path and the
/// same loaded contents yield the same response.
pub proof fn lemma_static_idempotent(
    r1: ResponseModel,
    r2: ResponseModel,
    path: Seq<char>,
    loaded: Option<Seq<char>>,
    not_found_page: Option<Seq<char>>,
)
    requires
        r1 == spec_static_response(path, loaded, not_found_page),
        r2 == spec_static_response(path, loaded, not_found_page),
    ensures
        r1 == r2,
{
}

/// Two calls of the web-service handler on the same path and the same
/// document text yield the same outcome.
pub proof fn lemma_ws_idempotent(
    r1: Result<ResponseModel, OrdersError>,
    r2: Result<ResponseModel, OrdersError>,
    path: Seq<char>,
    orders_text: Option<Seq<char>>,
    not_found_page: Option<Seq<char>>,
)
    requires
        r1 == spec_ws_response(path, orders_text, not_found_page),
        r2 == spec_ws_response(path, orders_text, not_found_page),
    ensures
        r1 == r2,
{
}

} // verus!
