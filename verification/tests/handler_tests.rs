use http_server::handler::{
    content_type_of, OrdersError, PageNotFoundHandler, StaticPageHandler, WebServiceHandler,
};
use http_server::response::{Request, Resource, Response};

fn req(path: &str) -> Request {
    Request { resource: Resource::Path(path.to_string()) }
}

fn assert_same_response(a: &Response, b: &Response) {
    assert_eq!(a.status_code, b.status_code);
    assert_eq!(a.headers, b.headers);
    assert_eq!(a.body, b.body);
}

#[test]
fn not_found_handler_ignores_request() {
    let r = PageNotFoundHandler::handle(&req("/whatever"), Some("gone".to_string()));
    assert_eq!(r.status_code, "404");
    assert!(r.headers.is_none());
    assert_eq!(r.body, Some("gone".to_string()));

    let r2 = PageNotFoundHandler::handle(&req("/"), None);
    assert_eq!(r2.status_code, "404");
    assert!(r2.body.is_none());
}

#[test]
fn static_unknown_path_is_not_found() {
    // no such file: the loader found nothing for the first segment
    let r = StaticPageHandler::handle(&req("/nothing.here"), None, Some("404 page".to_string()));
    assert_eq!(r.status_code, "404");
    assert!(r.headers.is_none());
    assert_eq!(r.body, Some("404 page".to_string()));
}

#[test]
fn static_root_serves_index() {
    assert_eq!(
        StaticPageHandler::target_file(&req("/")),
        Some("index.html".to_string())
    );
    let r = StaticPageHandler::handle(&req("/"), Some("<h1>index</h1>".to_string()), None);
    assert_eq!(r.status_code, "200");
    assert!(r.headers.is_none());
    assert_eq!(r.body, Some("<h1>index</h1>".to_string()));
}

#[test]
fn static_health_serves_health_page() {
    assert_eq!(
        StaticPageHandler::target_file(&req("/health")),
        Some("health.html".to_string())
    );
    let r = StaticPageHandler::handle(&req("/health"), Some("ok".to_string()), None);
    assert_eq!(r.status_code, "200");
    assert!(r.headers.is_none());
    assert_eq!(r.body, Some("ok".to_string()));
}

#[test]
fn static_deeper_path_behaves_like_first_segment() {
    // only the first segment is examined
    assert_eq!(
        StaticPageHandler::target_file(&req("/health/today/extra")),
        Some("health.html".to_string())
    );
    let r = StaticPageHandler::handle(&req("/health/today/extra"), Some("ok".to_string()), None);
    assert_eq!(r.status_code, "200");
}

#[test]
fn static_existing_file_gets_content_type() {
    assert_eq!(
        StaticPageHandler::target_file(&req("/styles.css")),
        Some("styles.css".to_string())
    );
    let css = "body { color: red } /* file ends like: */ x.css";
    let r = StaticPageHandler::handle(&req("/styles.css"), Some(css.to_string()), None);
    assert_eq!(r.status_code, "200");
    assert_eq!(
        r.headers,
        Some(vec![("Content-Type".to_string(), "text/css".to_string())])
    );
    assert_eq!(r.body, Some(css.to_string()));
}

#[test]
fn content_type_follows_suffix_rule() {
    assert_eq!(content_type_of("anything.css"), "text/css");
    assert_eq!(content_type_of("var x = 1; // js"), "text/javascript");
    // the loose rule: any content ending in the two characters "js"
    assert_eq!(content_type_of("not a script but ends in js"), "text/javascript");
    assert_eq!(content_type_of("<html></html>"), "text/html");
    assert_eq!(content_type_of(""), "text/html");
    assert_eq!(content_type_of("js"), "text/javascript");
    assert_eq!(content_type_of(".css"), "text/css");
    assert_eq!(content_type_of("s"), "text/html");
}

#[test]
fn static_missing_css_is_not_found_with_page_body() {
    // no style.css under the public root
    let r = StaticPageHandler::handle(
        &req("/style.css"),
        None,
        Some("<h1>404 Not Found</h1>".to_string()),
    );
    assert_eq!(r.status_code, "404");
    assert!(r.headers.is_none());
    assert_eq!(r.body, Some("<h1>404 Not Found</h1>".to_string()));
}

#[test]
fn static_short_path_is_not_found() {
    // a path without a second segment is answered 404 instead of crashing
    assert_eq!(StaticPageHandler::target_file(&req("")), None);
    let r = StaticPageHandler::handle(&req(""), None, Some("missing".to_string()));
    assert_eq!(r.status_code, "404");
    assert_eq!(r.body, Some("missing".to_string()));
}

#[test]
fn web_service_serves_orders() {
    let doc = "[{\"order_id\":1,\"order_date\":\"2023-01-01\",\"status\":\"shipped\"}]";
    let request = req("/api/shipping/orders");
    assert!(WebServiceHandler::wants_orders(&request));
    let r = WebServiceHandler::handle(&request, Some(doc.to_string()), None).unwrap();
    assert_eq!(r.status_code, "200");
    assert_eq!(
        r.headers,
        Some(vec![(
            "Content-Type".to_string(),
            "application/json".to_string()
        )])
    );
    assert_eq!(r.body, Some(doc.to_string()));
}

#[test]
fn web_service_other_paths_are_not_found() {
    let nf = Some("404 page".to_string());
    for path in ["/api/shipping/order", "/api/billing/orders", "/api/shipping", "/api", ""] {
        let request = req(path);
        assert!(!WebServiceHandler::wants_orders(&request));
        let r = WebServiceHandler::handle(&request, None, nf.clone()).unwrap();
        assert_eq!(r.status_code, "404", "path {:?}", path);
        assert!(r.headers.is_none());
        assert_eq!(r.body, nf);
    }
}

#[test]
fn web_service_first_segments_are_not_examined() {
    // the dispatcher looks only at the third and fourth segments
    let doc = "[]";
    let r = WebServiceHandler::handle(&req("/x/shipping/orders"), Some(doc.to_string()), None)
        .unwrap();
    assert_eq!(r.status_code, "200");
    assert_eq!(r.body, Some("[]".to_string()));
}

#[test]
fn web_service_missing_document_is_fatal() {
    let e = WebServiceHandler::handle(&req("/api/shipping/orders"), None, None).unwrap_err();
    assert_eq!(e, OrdersError::MissingDocument);
}

#[test]
fn web_service_malformed_document_is_fatal() {
    let e = WebServiceHandler::handle(
        &req("/api/shipping/orders"),
        Some("{not json}".to_string()),
        None,
    )
    .unwrap_err();
    assert_eq!(e, OrdersError::MalformedDocument);
}

#[test]
fn handlers_are_idempotent() {
    let doc = "[{\"order_id\":7,\"order_date\":\"2024-05-05\",\"status\":\"open\"}]";
    let r1 = WebServiceHandler::handle(&req("/api/shipping/orders"), Some(doc.to_string()), None)
        .unwrap();
    let r2 = WebServiceHandler::handle(&req("/api/shipping/orders"), Some(doc.to_string()), None)
        .unwrap();
    assert_same_response(&r1, &r2);

    let s1 = StaticPageHandler::handle(&req("/page.js"), Some("x = js".to_string()), None);
    let s2 = StaticPageHandler::handle(&req("/page.js"), Some("x = js".to_string()), None);
    assert_same_response(&s1, &s2);
}
