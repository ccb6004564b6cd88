use vstd::prelude::*;

use crate::headers::{header_pairs, put_header, remove_named, set_all, set_header, Header, HeaderPair, without_name};
use crate::routes::{Route, RouteTable};
use crate::target::{url_set_query, url_with_query, MAX_URL_PART};

verus! {

/// A request as the proxy received it.
pub struct InboundRequest {
    pub method: String,
    pub path: String,
    pub query: Option<String>,
    pub headers: Vec<Header>,
    pub body: Vec<u8>,
    /// The IP literal of the connection's peer, where the connection exposes one.
    pub peer_ip: Option<String>,
}

/// The request that the proxy sends to the backend.
pub struct OutboundRequest {
    pub method: String,
    pub url: String,
    pub headers: Vec<Header>,
    pub body: Vec<u8>,
}

/// The abstract value of an outbound request.
pub struct OutboundView {
    pub method: Seq<char>,
    pub url: Seq<char>,
    pub headers: Seq<HeaderPair>,
    pub body: Seq<u8>,
}

impl View for OutboundRequest {
    type V = OutboundView;

    open spec fn view(&self) -> OutboundView {
        OutboundView {
            method: self.method@,
            url: self.url@,
            headers: header_pairs(self.headers@),
            body: self.body@,
        }
    }
}

/// An HTTP response: from the backend, or relayed to the caller.
pub struct Response {
    pub status: u16,
    pub headers: Vec<Header>,
    pub body: Vec<u8>,
}

/// Why a request could not be forwarded.
pub enum ForwardError {
    /// No rule is configured for the request's path.
    RouteNotFound,
}

pub open spec fn string_view(s: Option<String>) -> Option<Seq<char>> {
    match s {
        Some(t) => Some(t@),
        None => None,
    }
}

/// The header that carries the client's IP to the backend.
pub open spec fn forwarded_for() -> Seq<char> {
    "x-forwarded-for"@
}

/// The hop-by-hop header that is never relayed.
pub open spec fn connection() -> Seq<char> {
    "connection"@
}

/// The inbound headers, then the client IP set where there is one, then the
/// route's headers set in order.
pub open spec fn outbound_headers(
    inbound: Seq<HeaderPair>,
    peer_ip: Option<Seq<char>>,
    extra: Seq<HeaderPair>,
) -> Seq<HeaderPair> {
    let with_ip = match peer_ip {
        Some(ip) => set_header(inbound, (forwarded_for(), ip)),
        None => inbound,
    };
    set_all(with_ip, extra)
}

/// The request forwarded by `route` for `req`.
pub open spec fn outbound_for(route: Route, req: InboundRequest) -> OutboundView {
    OutboundView {
        method: req.method@,
        url: url_with_query(route.to@, string_view(req.query)),
        headers: outbound_headers(
            header_pairs(req.headers@),
            string_view(req.peer_ip),
            route.extra_headers(),
        ),
        body: req.body@,
    }
}

/// What the table makes of `req`: the outbound request, or none where no rule matches.
pub open spec fn forwarded(table: RouteTable, req: InboundRequest) -> Option<OutboundView> {
    match table.route_for(req.path@) {
        Some(route) => Some(outbound_for(route, req)),
        None => None,
    }
}

/// The headers of a backend response that are relayed to the caller.
pub open spec fn relayed_headers(hs: Seq<HeaderPair>) -> Seq<HeaderPair> {
    without_name(hs, connection())
}

/// Resolves the request's path and builds the request to send to the backend:
/// the inbound method, headers and body, sent to the rule's destination with the
/// inbound query. The query's length is bounded by what a URL can hold.
pub fn build_outbound(table: &RouteTable, req: InboundRequest) -> (r: Result<
    OutboundRequest,
    ForwardError,
>)
    requires
        table.wf(),
        req.query matches Some(q) ==> q@.len() <= MAX_URL_PART,
    ensures
        r is Err <==> forwarded(*table, req) is None,
        r matches Ok(out) ==> forwarded(*table, req) == Some(out@),
{
    let route = match table.resolve(&req.path) {
        Some(route) => route,
        None => return Err(ForwardError::RouteNotFound),
    };
    proof {
        table.lemma_route_valid(req.path@);
    }
    let query = match &req.query {
        Some(q) => Some(q.as_str()),
        None => None,
    };
    let url = url_set_query(route.to.as_str(), query);
    let ghost inbound = header_pairs(req.headers@);
    let mut headers = req.headers;
    if let Some(ip) = &req.peer_ip {
        put_header(&mut headers, Header::new("x-forwarded-for", ip.as_str()));
    }
    let ghost with_ip = header_pairs(headers@);
    let ghost extra = route.extra_headers();
    let mut i: usize = 0;
    assert(extra.subrange(0, 0) =~= Seq::<HeaderPair>::empty());
    while i < route.headers.len()
        invariant
            i <= route.headers.len(),
            extra == header_pairs(route.headers@),
            header_pairs(headers@) == set_all(with_ip, extra.subrange(0, i as int)),
        decreases route.headers.len() - i,
    {
        assert(extra.subrange(0, i + 1).drop_last() =~= extra.subrange(0, i as int));
        put_header(&mut headers, route.headers[i].duplicate());
        i = i + 1;
    }
    assert(extra.subrange(0, route.headers.len() as int) =~= extra);
    Ok(OutboundRequest { method: req.method, url, headers, body: req.body })
}

/// The response relayed to the caller: the backend's status and body, and its
/// headers but for `Connection` (in any case).
pub fn relay_response(resp: Response) -> (r: Response)
    ensures
        r.status == resp.status,
        r.body@ == resp.body@,
        header_pairs(r.headers@) == relayed_headers(header_pairs(resp.headers@)),
{
    let headers = remove_named(&resp.headers, "connection");
    Response { status: resp.status, headers, body: resp.body }
}

} // verus!
