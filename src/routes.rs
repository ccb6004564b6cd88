use vstd::prelude::*;

use crate::headers::{header_pairs, Header, HeaderPair};
use crate::target::{url_is_valid, url_parses, MAX_URL_PART};

verus! {

/// A forwarding rule: the absolute URL that requests go to, and the headers
/// set on every request forwarded by it (empty where none are configured).
pub struct Route {
    pub to: String,
    pub headers: Vec<Header>,
}

/// One configured rule, keyed by the exact request path it applies to.
pub struct RouteEntry {
    pub path: String,
    pub route: Route,
}

/// Why a route table could not be built.
pub enum ConfigError {
    /// The destination of the rule for `path` is not an absolute URL.
    InvalidDestination { path: String },
}

impl Route {
    pub fn new(to: &str, headers: Vec<Header>) -> (r: Route)
        ensures
            r.to@ == to@,
            r.headers == headers,
    {
        Route { to: to.to_owned(), headers }
    }

    pub open spec fn extra_headers(&self) -> Seq<HeaderPair> {
        header_pairs(self.headers@)
    }
}

impl RouteEntry {
    pub fn new(path: &str, route: Route) -> (r: RouteEntry)
        ensures
            r.path@ == path@,
            r.route == route,
    {
        RouteEntry { path: path.to_owned(), route }
    }
}

/// A destination that a route table accepts.
pub open spec fn destination_ok(to: Seq<char>) -> bool {
    url_parses(to) && to.len() <= MAX_URL_PART
}

/// The rule that a list of entries gives for path `p`: the last one with that path.
pub open spec fn lookup(es: Seq<RouteEntry>, p: Seq<char>) -> Option<Route>
    decreases es.len(),
{
    if es.len() == 0 {
        None
    } else if es.last().path@ == p {
        Some(es.last().route)
    } else {
        lookup(es.drop_last(), p)
    }
}

proof fn lemma_lookup_valid(es: Seq<RouteEntry>, p: Seq<char>)
    requires
        forall|i: int| 0 <= i < es.len() ==> destination_ok(#[trigger] es[i].route.to@),
    ensures
        lookup(es, p) matches Some(r) ==> destination_ok(r.to@),
    decreases es.len(),
{
    if es.len() > 0 {
        assert(destination_ok(es[es.len() - 1].route.to@));
        lemma_lookup_valid(es.drop_last(), p);
    }
}

/// The immutable mapping from request path to forwarding rule.
pub struct RouteTable {
    entries: Vec<RouteEntry>,
}

impl RouteTable {
    /// Every rule of the table has an acceptable destination.
    pub closed spec fn wf(&self) -> bool {
        forall|i: int|
            0 <= i < self.entries@.len() ==> destination_ok(#[trigger] self.entries@[i].route.to@)
    }

    /// The rule for request path `p`, if there is one.
    pub closed spec fn route_for(&self, p: Seq<char>) -> Option<Route> {
        lookup(self.entries@, p)
    }

    /// The rule that a well-formed table gives for a path has an acceptable destination.
    pub proof fn lemma_route_valid(&self, p: Seq<char>)
        requires
            self.wf(),
        ensures
            self.route_for(p) matches Some(r) ==> destination_ok(r.to@),
    {
        lemma_lookup_valid(self.entries@, p);
    }

    /// Builds the table from configured entries; where two share a path, the later
    /// one wins. Fails on the first entry whose destination is not acceptable.
    pub fn from_entries(entries: Vec<RouteEntry>) -> (r: Result<RouteTable, ConfigError>)
        ensures
            r is Ok <==> forall|i: int|
                0 <= i < entries@.len() ==> destination_ok(#[trigger] entries@[i].route.to@),
            r matches Ok(t) ==> t.wf() && forall|p: Seq<char>| #[trigger]
                t.route_for(p) == lookup(entries@, p),
            r matches Err(ConfigError::InvalidDestination { path }) ==> exists|i: int|
                0 <= i < entries@.len() && path == entries@[i].path && !destination_ok(
                    entries@[i].route.to@,
                ) && forall|j: int| 0 <= j < i ==> destination_ok(#[trigger] entries@[j].route.to@),
    {
        let mut i: usize = 0;
        while i < entries.len()
            invariant
                i <= entries.len(),
                forall|j: int| 0 <= j < i ==> destination_ok(#[trigger] entries@[j].route.to@),
            decreases entries.len() - i,
        {
            let to = entries[i].route.to.as_str();
            let ok = to.unicode_len() <= MAX_URL_PART && url_is_valid(to);
            if !ok {
                return Err(ConfigError::InvalidDestination { path: entries[i].path.clone() });
            }
            i = i + 1;
        }
        Ok(RouteTable { entries })
    }

    /// The rule for `path`: exact match only.
    pub fn resolve(&self, path: &String) -> (r: Option<&Route>)
        ensures
            r is None <==> self.route_for(path@) is None,
            r matches Some(x) ==> self.route_for(path@) == Some(*x),
    {
        let mut i: usize = self.entries.len();
        assert(self.entries@.subrange(0, i as int) =~= self.entries@);
        while i > 0
            invariant
                i <= self.entries.len(),
                lookup(self.entries@, path@) == lookup(self.entries@.subrange(0, i as int), path@),
            decreases i,
        {
            i = i - 1;
            assert(self.entries@.subrange(0, i + 1).drop_last() =~= self.entries@.subrange(
                0,
                i as int,
            ));
            if self.entries[i].path == *path {
                return Some(&self.entries[i].route);
            }
        }
        None
    }
}

} // verus!
