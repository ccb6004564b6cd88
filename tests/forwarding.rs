use arxy::forward::{build_outbound, relay_response, ForwardError, InboundRequest, Response};
use arxy::headers::{same_name, Header};
use arxy::routes::{ConfigError, Route, RouteEntry, RouteTable};

fn pairs(hs: &[Header]) -> Vec<(String, String)> {
    hs.iter().map(|h| (h.name.clone(), h.value.clone())).collect()
}

fn pair(n: &str, v: &str) -> (String, String) {
    (n.to_string(), v.to_string())
}

fn table(entries: Vec<RouteEntry>) -> RouteTable {
    match RouteTable::from_entries(entries) {
        Ok(t) => t,
        Err(_) => panic!("the table should load"),
    }
}

fn request(method: &str, path: &str, query: Option<&str>, headers: Vec<Header>, body: &[u8], peer: Option<&str>) -> InboundRequest {
    InboundRequest {
        method: method.to_string(),
        path: path.to_string(),
        query: query.map(|q| q.to_string()),
        headers,
        body: body.to_vec(),
        peer_ip: peer.map(|p| p.to_string()),
    }
}

#[test]
fn end_to_end_post_api() {
    let t = table(vec![RouteEntry::new("/api", Route::new("http://backend.local/svc", vec![]))]);
    let req = request(
        "POST",
        "/api",
        Some("x=1"),
        vec![Header::new("content-type", "application/json")],
        b"{\"a\":1}",
        Some("10.0.0.7"),
    );
    let out = match build_outbound(&t, req) {
        Ok(o) => o,
        Err(_) => panic!("the route is configured"),
    };
    assert_eq!(out.method, "POST");
    assert_eq!(out.url, "http://backend.local/svc?x=1");
    assert_eq!(out.body, b"{\"a\":1}".to_vec());
    assert_eq!(
        pairs(&out.headers),
        vec![pair("content-type", "application/json"), pair("x-forwarded-for", "10.0.0.7")]
    );

    let backend = Response {
        status: 200,
        headers: vec![Header::new("Content-Type", "application/json"), Header::new("Connection", "keep-alive")],
        body: b"{}".to_vec(),
    };
    let relayed = relay_response(backend);
    assert_eq!(relayed.status, 200);
    assert_eq!(pairs(&relayed.headers), vec![pair("Content-Type", "application/json")]);
    assert_eq!(relayed.body, b"{}".to_vec());
}

#[test]
fn method_and_body_forwarded_verbatim() {
    let t = table(vec![RouteEntry::new("/a", Route::new("https://example.com/x/y", vec![]))]);
    let out = build_outbound(&t, request("DELETE", "/a", None, vec![], b"payload \x00\xff", None)).ok().unwrap();
    assert_eq!(out.method, "DELETE");
    assert_eq!(out.body, b"payload \x00\xff".to_vec());
    assert_eq!(out.url, "https://example.com/x/y");
    assert!(out.headers.is_empty());
}

#[test]
fn inbound_path_not_appended() {
    let t = table(vec![RouteEntry::new("/deep/path", Route::new("http://b.local/svc", vec![]))]);
    let out = build_outbound(&t, request("GET", "/deep/path", Some("q=2"), vec![], b"", None)).ok().unwrap();
    assert_eq!(out.url, "http://b.local/svc?q=2");
}

#[test]
fn query_replaces_destination_query() {
    let t = table(vec![RouteEntry::new("/s", Route::new("http://b.local/svc?old=1&keep=no", vec![]))]);
    let out = build_outbound(&t, request("GET", "/s", Some("new=2"), vec![], b"", None)).ok().unwrap();
    assert_eq!(out.url, "http://b.local/svc?new=2");
}

#[test]
fn absent_query_clears_destination_query() {
    let t = table(vec![RouteEntry::new("/s", Route::new("http://b.local/svc?old=1", vec![]))]);
    let out = build_outbound(&t, request("GET", "/s", None, vec![], b"", None)).ok().unwrap();
    assert_eq!(out.url, "http://b.local/svc");
}

#[test]
fn connection_header_never_relayed() {
    let backend = Response {
        status: 503,
        headers: vec![
            Header::new("connection", "close"),
            Header::new("x-a", "1"),
            Header::new("CONNECTION", "upgrade"),
            Header::new("x-b", "2"),
            Header::new("Connection-Extra", "kept"),
        ],
        body: vec![],
    };
    let relayed = relay_response(backend);
    assert_eq!(relayed.status, 503);
    assert_eq!(
        pairs(&relayed.headers),
        vec![pair("x-a", "1"), pair("x-b", "2"), pair("Connection-Extra", "kept")]
    );
}

#[test]
fn relay_without_connection_keeps_all() {
    let backend = Response { status: 404, headers: vec![Header::new("x-a", "1")], body: b"nf".to_vec() };
    let relayed = relay_response(backend);
    assert_eq!(relayed.status, 404);
    assert_eq!(pairs(&relayed.headers), vec![pair("x-a", "1")]);
    assert_eq!(relayed.body, b"nf".to_vec());
}

#[test]
fn route_header_overrides_inbound() {
    let route = Route::new("http://b.local/", vec![Header::new("X-Api-Key", "abc")]);
    let t = table(vec![RouteEntry::new("/k", route)]);
    let req = request(
        "GET",
        "/k",
        None,
        vec![Header::new("x-api-key", "other"), Header::new("accept", "*/*")],
        b"",
        None,
    );
    let out = build_outbound(&t, req).ok().unwrap();
    assert_eq!(pairs(&out.headers), vec![pair("accept", "*/*"), pair("X-Api-Key", "abc")]);
}

#[test]
fn route_header_added_when_absent() {
    let route = Route::new("http://b.local/", vec![Header::new("X-Api-Key", "abc"), Header::new("x-two", "2")]);
    let t = table(vec![RouteEntry::new("/k", route)]);
    let out = build_outbound(&t, request("GET", "/k", None, vec![], b"", Some("::1"))).ok().unwrap();
    assert_eq!(
        pairs(&out.headers),
        vec![pair("x-forwarded-for", "::1"), pair("X-Api-Key", "abc"), pair("x-two", "2")]
    );
}

#[test]
fn forwarded_for_is_peer_ip_only() {
    let t = table(vec![RouteEntry::new("/f", Route::new("http://b.local/", vec![]))]);
    let req = request(
        "GET",
        "/f",
        None,
        vec![Header::new("X-Forwarded-For", "1.1.1.1"), Header::new("x-forwarded-for", "2.2.2.2")],
        b"",
        Some("192.168.1.20"),
    );
    let out = build_outbound(&t, req).ok().unwrap();
    assert_eq!(pairs(&out.headers), vec![pair("x-forwarded-for", "192.168.1.20")]);
}

#[test]
fn no_peer_keeps_inbound_forwarded_for() {
    let t = table(vec![RouteEntry::new("/f", Route::new("http://b.local/", vec![]))]);
    let req = request("GET", "/f", None, vec![Header::new("x-forwarded-for", "1.1.1.1")], b"", None);
    let out = build_outbound(&t, req).ok().unwrap();
    assert_eq!(pairs(&out.headers), vec![pair("x-forwarded-for", "1.1.1.1")]);
}

#[test]
fn unconfigured_path_not_forwarded() {
    let t = table(vec![RouteEntry::new("/api", Route::new("http://backend.local/svc", vec![]))]);
    for path in ["/other", "/api/", "/API", "/ap", ""] {
        let r = build_outbound(&t, request("POST", path, None, vec![], b"x", Some("10.0.0.1")));
        assert!(matches!(r, Err(ForwardError::RouteNotFound)));
    }
}

#[test]
fn empty_table_forwards_nothing() {
    let t = table(vec![]);
    let r = build_outbound(&t, request("GET", "/", None, vec![], b"", None));
    assert!(matches!(r, Err(ForwardError::RouteNotFound)));
}

#[test]
fn identical_requests_give_identical_outbound() {
    let t = table(vec![RouteEntry::new("/i", Route::new("http://b.local/i", vec![Header::new("x-k", "v")]))]);
    let mk = |peer: &str| request("PUT", "/i", Some("a=b"), vec![Header::new("h", "1")], b"body", Some(peer));
    let o1 = build_outbound(&t, mk("10.0.0.1")).ok().unwrap();
    let o2 = build_outbound(&t, mk("10.0.0.1")).ok().unwrap();
    let o3 = build_outbound(&t, mk("10.0.0.2")).ok().unwrap();
    assert_eq!(o1.method, o2.method);
    assert_eq!(o1.url, o2.url);
    assert_eq!(o1.body, o2.body);
    assert_eq!(pairs(&o1.headers), pairs(&o2.headers));
    assert_eq!(o1.url, o3.url);
    let strip = |hs: &[Header]| {
        pairs(hs).into_iter().filter(|(n, _)| n != "x-forwarded-for").collect::<Vec<_>>()
    };
    assert_eq!(strip(&o1.headers), strip(&o3.headers));
    assert_ne!(pairs(&o1.headers), pairs(&o3.headers));
}

#[test]
fn invalid_destination_rejected_at_load() {
    let r = RouteTable::from_entries(vec![
        RouteEntry::new("/ok", Route::new("http://b.local/", vec![])),
        RouteEntry::new("/bad", Route::new("not a url", vec![])),
        RouteEntry::new("/bad2", Route::new("/relative/only", vec![])),
    ]);
    match r {
        Err(ConfigError::InvalidDestination { path }) => assert_eq!(path, "/bad"),
        Ok(_) => panic!("a relative destination must be refused"),
    }
}

#[test]
fn relative_destination_rejected_at_load() {
    let r = RouteTable::from_entries(vec![RouteEntry::new("/r", Route::new("/relative/only", vec![]))]);
    assert!(matches!(r, Err(ConfigError::InvalidDestination { .. })));
}

#[test]
fn duplicate_path_last_wins() {
    let t = table(vec![
        RouteEntry::new("/d", Route::new("http://first.local/", vec![])),
        RouteEntry::new("/e", Route::new("http://other.local/", vec![])),
        RouteEntry::new("/d", Route::new("http://second.local/", vec![])),
    ]);
    let out = build_outbound(&t, request("GET", "/d", None, vec![], b"", None)).ok().unwrap();
    assert_eq!(out.url, "http://second.local/");
    let r = t.resolve(&"/e".to_string()).unwrap();
    assert_eq!(r.to, "http://other.local/");
    assert!(t.resolve(&"/x".to_string()).is_none());
}

#[test]
fn header_names_compare_ignoring_ascii_case() {
    assert!(same_name("Connection", "connection"));
    assert!(same_name("X-API-KEY", "x-api-key"));
    assert!(same_name("", ""));
    assert!(!same_name("connection", "connections"));
    assert!(!same_name("x-a", "x-b"));
    assert!(!same_name("x_a", "x-a"));
}

#[test]
fn peer_presence_only_changes_forwarded_for() {
    let t = table(vec![RouteEntry::new("/i", Route::new("http://b.local/i", vec![]))]);
    let mk = |peer: Option<&str>| {
        request("GET", "/i", None, vec![Header::new("x-forwarded-for", "9.9.9.9"), Header::new("h", "1")], b"", peer)
    };
    let with_peer = build_outbound(&t, mk(Some("10.0.0.1"))).ok().unwrap();
    let without_peer = build_outbound(&t, mk(None)).ok().unwrap();
    assert_eq!(pairs(&with_peer.headers), vec![pair("h", "1"), pair("x-forwarded-for", "10.0.0.1")]);
    assert_eq!(pairs(&without_peer.headers), vec![pair("x-forwarded-for", "9.9.9.9"), pair("h", "1")]);
}

#[test]
fn route_header_wins_over_peer_ip() {
    let route = Route::new("http://b.local/", vec![Header::new("X-Forwarded-For", "proxy")]);
    let t = table(vec![RouteEntry::new("/p", route)]);
    let out = build_outbound(&t, request("GET", "/p", None, vec![], b"", Some("10.0.0.1"))).ok().unwrap();
    assert_eq!(pairs(&out.headers), vec![pair("X-Forwarded-For", "proxy")]);
}
