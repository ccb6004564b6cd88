use vstd::prelude::*;

use crate::forward::{
    connection, forwarded, forwarded_for, relayed_headers, string_view,
    InboundRequest,
};
use crate::headers::{holds_only, name_eq, set_all, set_header, without_name, HeaderPair};
use crate::routes::RouteTable;
use crate::target::url_with_query;

verus! {

proof fn lemma_name_eq_symmetric(a: Seq<char>, b: Seq<char>)
    ensures
        name_eq(a, b) == name_eq(b, a),
{
    if name_eq(a, b) {
        assert forall|i: int| 0 <= i < b.len() implies #[trigger] crate::headers::folded(b[i])
            == crate::headers::folded(a[i]) by {
            assert(crate::headers::folded(a[i]) == crate::headers::folded(b[i]));
        }
    }
    if name_eq(b, a) {
        assert forall|i: int| 0 <= i < a.len() implies #[trigger] crate::headers::folded(a[i])
            == crate::headers::folded(b[i]) by {
            assert(crate::headers::folded(b[i]) == crate::headers::folded(a[i]));
        }
    }
}

proof fn lemma_push_parts(xs: Seq<HeaderPair>, x: HeaderPair)
    ensures
        xs.push(x).drop_last() == xs,
        xs.push(x).last() == x,
{
    assert(xs.push(x).drop_last() =~= xs);
}

/// No header of `without_name(hs, n)` is named `n`, and each is a header of `hs`.
proof fn lemma_without_name(hs: Seq<HeaderPair>, n: Seq<char>)
    ensures
        forall|i: int|
            0 <= i < without_name(hs, n).len() ==> !name_eq(#[trigger] without_name(hs, n)[i].0, n)
                && hs.contains(without_name(hs, n)[i]),
        forall|x: HeaderPair| hs.contains(x) && !name_eq(x.0, n) ==> #[trigger] without_name(
            hs,
            n,
        ).contains(x),
    decreases hs.len(),
{
    if hs.len() > 0 {
        let init = hs.drop_last();
        lemma_without_name(init, n);
        let w = without_name(hs, n);
        let wi = without_name(init, n);
        lemma_push_parts(wi, hs.last());
        assert forall|i: int| 0 <= i < w.len() implies !name_eq(#[trigger] w[i].0, n) && hs.contains(
            w[i],
        ) by {
            if i < wi.len() {
                assert(w[i] == wi[i]);
                assert(0 <= i < wi.len());
                assert(!name_eq(wi[i].0, n));
                assert(init.contains(wi[i]));
                let j = choose|j: int| 0 <= j < init.len() && init[j] == wi[i];
                assert(hs[j] == init[j]);
            } else {
                assert(hs[hs.len() - 1] == w[i]);
            }
        }
        assert forall|x: HeaderPair| hs.contains(x) && !name_eq(x.0, n) implies #[trigger] w.contains(x) by {
            let j = choose|j: int| 0 <= j < hs.len() && hs[j] == x;
            if j < hs.len() - 1 {
                assert(init[j] == x);
                assert(init.contains(x));
                assert(wi.contains(x));
                let k = choose|k: int| 0 <= k < wi.len() && wi[k] == x;
                assert(w[k] == x);
            } else {
                assert(w[w.len() - 1] == x);
            }
        }
    }
}

/// Removing two names commutes.
proof fn lemma_without_commutes(hs: Seq<HeaderPair>, a: Seq<char>, b: Seq<char>)
    ensures
        without_name(without_name(hs, a), b) == without_name(without_name(hs, b), a),
    decreases hs.len(),
{
    if hs.len() > 0 {
        let init = hs.drop_last();
        let x = hs.last();
        lemma_without_commutes(init, a, b);
        lemma_push_parts(without_name(init, a), x);
        lemma_push_parts(without_name(init, b), x);
        lemma_push_parts(without_name(without_name(init, a), b), x);
        lemma_push_parts(without_name(without_name(init, b), a), x);
    }
}

proof fn lemma_set_only(hs: Seq<HeaderPair>, n: Seq<char>, v: Seq<char>)
    ensures
        holds_only(set_header(hs, (n, v)), n, v),
{
    lemma_without_name(hs, n);
    let s = set_header(hs, (n, v));
    assert(s[s.len() - 1] == (n, v));
}

proof fn lemma_set_keeps(hs: Seq<HeaderPair>, n: Seq<char>, v: Seq<char>, h: HeaderPair)
    requires
        holds_only(hs, n, v),
        !name_eq(h.0, n),
    ensures
        holds_only(set_header(hs, h), n, v),
{
    lemma_without_name(hs, h.0);
    lemma_name_eq_symmetric(h.0, n);
    let w = without_name(hs, h.0);
    let s = set_header(hs, h);
    assert(w.contains((n, v)));
    let k = choose|k: int| 0 <= k < w.len() && w[k] == (n, v);
    assert(s[k] == (n, v));
    assert forall|i: int| 0 <= i < s.len() && name_eq(#[trigger] s[i].0, n) implies s[i] == (n, v) by {
        if i < w.len() {
            assert(hs.contains(w[i]));
            let j = choose|j: int| 0 <= j < hs.len() && hs[j] == w[i];
            assert(name_eq(hs[j].0, n));
        }
    }
}

proof fn lemma_set_all_keeps(hs: Seq<HeaderPair>, extra: Seq<HeaderPair>, n: Seq<char>, v: Seq<char>)
    requires
        holds_only(hs, n, v),
        forall|j: int| 0 <= j < extra.len() ==> !name_eq(#[trigger] extra[j].0, n),
    ensures
        holds_only(set_all(hs, extra), n, v),
    decreases extra.len(),
{
    if extra.len() > 0 {
        lemma_set_all_keeps(hs, extra.drop_last(), n, v);
        assert(!name_eq(extra[extra.len() - 1].0, n));
        lemma_set_keeps(set_all(hs, extra.drop_last()), n, v, extra.last());
    }
}

proof fn lemma_set_all_last(hs: Seq<HeaderPair>, extra: Seq<HeaderPair>, k: int)
    requires
        0 <= k < extra.len(),
        forall|j: int| k < j < extra.len() ==> !name_eq(#[trigger] extra[j].0, extra[k].0),
    ensures
        holds_only(set_all(hs, extra), extra[k].0, extra[k].1),
    decreases extra.len(),
{
    let init = extra.drop_last();
    if k == extra.len() - 1 {
        lemma_set_only(set_all(hs, init), extra[k].0, extra[k].1);
    } else {
        assert(init[k] == extra[k]);
        assert forall|j: int| k < j < init.len() implies !name_eq(#[trigger] init[j].0, init[k].0) by {
            assert(init[j] == extra[j]);
        }
        lemma_set_all_last(hs, init, k);
        assert(!name_eq(extra[extra.len() - 1].0, extra[k].0));
        lemma_set_keeps(set_all(hs, init), extra[k].0, extra[k].1, extra.last());
    }
}

proof fn lemma_without_absent(hs: Seq<HeaderPair>, n: Seq<char>)
    requires
        forall|i: int| 0 <= i < hs.len() ==> !name_eq(#[trigger] hs[i].0, n),
    ensures
        without_name(hs, n) == hs,
    decreases hs.len(),
{
    if hs.len() > 0 {
        let init = hs.drop_last();
        assert forall|i: int| 0 <= i < init.len() implies !name_eq(#[trigger] init[i].0, n) by {
            assert(init[i] == hs[i]);
        }
        lemma_without_absent(init, n);
        assert(!name_eq(hs[hs.len() - 1].0, n));
        assert(init.push(hs.last()) =~= hs);
    }
}

proof fn lemma_strip_set(a1: Seq<HeaderPair>, a2: Seq<HeaderPair>, h: HeaderPair, n: Seq<char>)
    requires
        without_name(a1, n) == without_name(a2, n),
    ensures
        without_name(set_header(a1, h), n) == without_name(set_header(a2, h), n),
{
    lemma_push_parts(without_name(a1, h.0), h);
    lemma_push_parts(without_name(a2, h.0), h);
    lemma_without_commutes(a1, h.0, n);
    lemma_without_commutes(a2, h.0, n);
}

proof fn lemma_strip_set_all(
    a1: Seq<HeaderPair>,
    a2: Seq<HeaderPair>,
    extra: Seq<HeaderPair>,
    n: Seq<char>,
)
    requires
        without_name(a1, n) == without_name(a2, n),
    ensures
        without_name(set_all(a1, extra), n) == without_name(set_all(a2, extra), n),
    decreases extra.len(),
{
    if extra.len() > 0 {
        lemma_strip_set_all(a1, a2, extra.drop_last(), n);
        lemma_strip_set(set_all(a1, extra.drop_last()), set_all(a2, extra.drop_last()), extra.last(), n);
    }
}

/// A request to a configured path is forwarded to that rule's destination, with
/// the inbound method and body unchanged.
pub proof fn law_forwarded_verbatim(table: RouteTable, req: InboundRequest)
    ensures
        table.route_for(req.path@) matches Some(route) ==> forwarded(table, req) matches Some(o)
            && o.method == req.method@ && o.body == req.body@ && o.url == url_with_query(
            route.to@,
            string_view(req.query),
        ),
{
}

/// The outbound target is the destination with its query replaced by the inbound
/// query exactly: two requests with the same path and query go to the same URL,
/// whatever else differs between them.
pub proof fn law_query_from_inbound(table: RouteTable, r1: InboundRequest, r2: InboundRequest)
    requires
        r1.path@ == r2.path@,
        string_view(r1.query) == string_view(r2.query),
    ensures
        forwarded(table, r1) matches Some(o1) ==> forwarded(table, r2) matches Some(o2) && o1.url
            == o2.url,
        table.route_for(r1.path@) matches Some(route) ==> forwarded(table, r1) matches Some(o)
            && o.url == url_with_query(route.to@, string_view(r1.query)),
{
}

/// No relayed header is named `Connection`, in any case.
pub proof fn law_no_connection_relayed(hs: Seq<HeaderPair>)
    ensures
        forall|i: int|
            0 <= i < relayed_headers(hs).len() ==> !name_eq(
                #[trigger] relayed_headers(hs)[i].0,
                connection(),
            ),
{
    lemma_without_name(hs, connection());
}

/// A header that a rule declares is on every request forwarded by that rule, as
/// declared, and no other header of that name is; unless the rule declares the
/// same name again later.
pub proof fn law_route_headers_set(table: RouteTable, req: InboundRequest, k: int)
    requires
        table.route_for(req.path@) matches Some(route) && 0 <= k < route.extra_headers().len()
            && forall|j: int|
            k < j < route.extra_headers().len() ==> !name_eq(
                #[trigger] route.extra_headers()[j].0,
                route.extra_headers()[k].0,
            ),
    ensures
        table.route_for(req.path@) matches Some(route) && forwarded(table, req) matches Some(o)
            && holds_only(o.headers, route.extra_headers()[k].0, route.extra_headers()[k].1),
{
    let route = table.route_for(req.path@)->0;
    let inbound = crate::headers::header_pairs(req.headers@);
    let with_ip = match string_view(req.peer_ip) {
        Some(ip) => set_header(inbound, (forwarded_for(), ip)),
        None => inbound,
    };
    lemma_set_all_last(with_ip, route.extra_headers(), k);
}

/// Where the connection has a peer, the outbound `x-forwarded-for` is that peer's
/// IP and no other value, unless the rule itself sets that header.
pub proof fn law_forwarded_for_is_peer(table: RouteTable, req: InboundRequest)
    requires
        req.peer_ip is Some,
        table.route_for(req.path@) matches Some(route) && forall|j: int|
            0 <= j < route.extra_headers().len() ==> !name_eq(
                #[trigger] route.extra_headers()[j].0,
                forwarded_for(),
            ),
    ensures
        forwarded(table, req) matches Some(o) && holds_only(
            o.headers,
            forwarded_for(),
            req.peer_ip->0@,
        ),
{
    let route = table.route_for(req.path@)->0;
    let inbound = crate::headers::header_pairs(req.headers@);
    let ip = req.peer_ip->0@;
    lemma_set_only(inbound, forwarded_for(), ip);
    lemma_set_all_keeps(
        set_header(inbound, (forwarded_for(), ip)),
        route.extra_headers(),
        forwarded_for(),
        ip,
    );
}

/// A request to a path without a rule produces no outbound request.
pub proof fn law_unrouted_not_forwarded(table: RouteTable, req: InboundRequest)
    requires
        table.route_for(req.path@) is None,
    ensures
        forwarded(table, req) is None,
{
}

/// Setting the client IP header changes nothing once that header is stripped.
proof fn lemma_strip_peer(inbound: Seq<HeaderPair>, peer_ip: Option<Seq<char>>)
    ensures
        without_name(
            match peer_ip {
                Some(ip) => set_header(inbound, (forwarded_for(), ip)),
                None => inbound,
            },
            forwarded_for(),
        ) == without_name(inbound, forwarded_for()),
{
    if let Some(ip) = peer_ip {
        let xff = forwarded_for();
        lemma_without_name(inbound, xff);
        lemma_without_absent(without_name(inbound, xff), xff);
        lemma_push_parts(without_name(inbound, xff), (xff, ip));
        assert(name_eq(xff, xff));
    }
}

/// Requests that agree in everything but the peer's IP go by the same rule and
/// give the same outbound request, but for the `x-forwarded-for` header; where
/// the peer's IP agrees too, the outbound requests are identical.
pub proof fn law_same_request_same_outbound(
    table: RouteTable,
    r1: InboundRequest,
    r2: InboundRequest,
)
    requires
        r1.method@ == r2.method@,
        r1.path@ == r2.path@,
        string_view(r1.query) == string_view(r2.query),
        crate::headers::header_pairs(r1.headers@) == crate::headers::header_pairs(r2.headers@),
        r1.body@ == r2.body@,
    ensures
        table.route_for(r1.path@) == table.route_for(r2.path@),
        forwarded(table, r1) is Some <==> forwarded(table, r2) is Some,
        forwarded(table, r1) matches Some(o1) ==> forwarded(table, r2) matches Some(o2) && o1.method
            == o2.method && o1.url == o2.url && o1.body == o2.body && without_name(
            o1.headers,
            forwarded_for(),
        ) == without_name(o2.headers, forwarded_for()),
        string_view(r1.peer_ip) == string_view(r2.peer_ip) ==> forwarded(table, r1) == forwarded(
            table,
            r2,
        ),
{
    if let Some(route) = table.route_for(r1.path@) {
        let inbound = crate::headers::header_pairs(r1.headers@);
        let xff = forwarded_for();
        let p1 = string_view(r1.peer_ip);
        let p2 = string_view(r2.peer_ip);
        lemma_strip_peer(inbound, p1);
        lemma_strip_peer(inbound, p2);
        let a1 = match p1 {
            Some(ip) => set_header(inbound, (xff, ip)),
            None => inbound,
        };
        let a2 = match p2 {
            Some(ip) => set_header(inbound, (xff, ip)),
            None => inbound,
        };
        lemma_strip_set_all(a1, a2, route.extra_headers(), xff);
    }
}

} // verus!
