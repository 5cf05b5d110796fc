//! The DNS router: each A query for a local host is answered from the lease
//! database; everything else goes to the upstream resolvers, whose failures
//! become response codes.

use vstd::prelude::*;
use crate::lease::LeaseDatabase;
use crate::text::{eq_ignore_case, range_eq_ignore_case, push_char};

verus! {

/// TTL of the answers synthesized from leases.
pub const LOCAL_TTL: u32 = 60;

/// The record type of IPv4 address queries.
pub const RECORD_TYPE_A: u16 = 1;

/// An IPv4 socket address, the address in host byte order.
#[derive(Clone, Copy, Debug, PartialEq, Eq, Structural)]
pub struct Endpoint {
    pub ip: u32,
    pub port: u16,
}

pub struct DnsConfig {
    pub enabled: bool,
    pub listen: Vec<Endpoint>,
    pub upstream: Vec<Endpoint>,
}

#[derive(Clone, Copy, Debug, PartialEq, Eq, Structural)]
pub enum ResponseCode {
    NoError,
    ServFail,
    NXDomain,
}

impl ResponseCode {
    /// The four-bit code of the DNS header.
    pub fn code(self) -> (r: u8)
        ensures
            self == ResponseCode::NoError ==> r == 0,
            self == ResponseCode::ServFail ==> r == 2,
            self == ResponseCode::NXDomain ==> r == 3,
    {
        match self {
            ResponseCode::NoError => 0,
            ResponseCode::ServFail => 2,
            ResponseCode::NXDomain => 3,
        }
    }
}

/// How an upstream lookup failed.
#[derive(Clone, Copy, Debug, PartialEq, Eq, Structural)]
pub enum UpstreamError {
    NoRecords,
    Protocol,
    Timeout,
    Other,
}

/// No records upstream is NXDOMAIN; every other failure is SERVFAIL.
pub open spec fn upstream_code(e: UpstreamError) -> ResponseCode {
    if e == UpstreamError::NoRecords {
        ResponseCode::NXDomain
    } else {
        ResponseCode::ServFail
    }
}

pub fn classify_upstream(e: UpstreamError) -> (r: ResponseCode)
    ensures
        r == upstream_code(e),
{
    match e {
        UpstreamError::NoRecords => ResponseCode::NXDomain,
        _ => ResponseCode::ServFail,
    }
}

/// Header flags of every response: the request's id, the response bit and
/// recursion available set, authoritative clear.
#[derive(Clone, Copy, Debug, PartialEq, Eq, Structural)]
pub struct ResponseHeader {
    pub id: u16,
    pub response: bool,
    pub recursion_available: bool,
    pub authoritative: bool,
    pub code: ResponseCode,
}

pub fn response_header(id: u16, code: ResponseCode) -> (r: ResponseHeader)
    ensures
        r == (ResponseHeader {
            id,
            response: true,
            recursion_available: true,
            authoritative: false,
            code,
        }),
{
    ResponseHeader { id, response: true, recursion_available: true, authoritative: false, code }
}

/// The name without one trailing dot.
pub open spec fn strip_dot(n: Seq<char>) -> Seq<char> {
    if n.len() > 0 && n.last() == '.' {
        n.drop_last()
    } else {
        n
    }
}

/// The bare hostname a query name stands for locally: the whole name when no
/// local domain is set, else the part before `.<domain>` (ASCII case
/// ignored); none when the name is not under the local domain.
pub open spec fn local_host(n: Seq<char>, domain: Option<Seq<char>>) -> Option<Seq<char>> {
    let name = strip_dot(n);
    match domain {
        None => Some(name),
        Some(d) => {
            let cut = name.len() - d.len() - 1;
            if name.len() > d.len() + 1 && name[cut] == '.' && eq_ignore_case(
                name.subrange(cut + 1, name.len() as int),
                d,
            ) {
                Some(name.subrange(0, cut))
            } else {
                None
            }
        },
    }
}

pub open spec fn str_opt(d: Option<&str>) -> Option<Seq<char>> {
    match d {
        Some(s) => Some(s@),
        None => None,
    }
}

fn prefix_string(s: &str, n: usize) -> (r: String)
    requires
        n <= s@.len(),
    ensures
        r@ == s@.subrange(0, n as int),
{
    let mut out = String::new();
    let mut i: usize = 0;
    while i < n
        invariant
            i <= n <= s@.len(),
            out@ == s@.subrange(0, i as int),
        decreases n - i,
    {
        push_char(&mut out, s.get_char(i));
        proof {
            assert(out@ =~= s@.subrange(0, i + 1));
        }
        i = i + 1;
    }
    out
}

/// The local hostname of a query name; see `local_host`.
pub fn local_hostname(name: &str, domain: Option<&str>) -> (r: Option<String>)
    ensures
        match r {
            Some(h) => local_host(name@, str_opt(domain)) == Some(h@),
            None => local_host(name@, str_opt(domain)).is_none(),
        },
{
    let full = name.unicode_len();
    let n = if full > 0 && name.get_char(full - 1) == '.' {
        full - 1
    } else {
        full
    };
    proof {
        assert(strip_dot(name@) =~= name@.subrange(0, n as int));
    }
    match domain {
        None => Some(prefix_string(name, n)),
        Some(d) => {
            let dl = d.unicode_len();
            if dl >= n || n - dl <= 1 {
                return None;
            }
            let cut = n - dl - 1;
            if name.get_char(cut) != '.' {
                return None;
            }
            if !range_eq_ignore_case(name, cut + 1, d, 0, dl) {
                proof {
                    let sn = name@.subrange(0, n as int);
                    assert(sn.subrange(cut + 1, n as int) =~= name@.subrange(cut + 1, cut + 1 + dl));
                    assert(d@.subrange(0, dl as int) =~= d@);
                }
                return None;
            }
            proof {
                let sn = name@.subrange(0, n as int);
                assert(sn.subrange(cut + 1, n as int) =~= name@.subrange(cut + 1, cut + 1 + dl));
                assert(d@.subrange(0, dl as int) =~= d@);
                assert(sn.subrange(0, cut as int) =~= name@.subrange(0, cut as int));
            }
            Some(prefix_string(name, cut))
        },
    }
}

/// Where a query goes.
#[derive(Clone, Copy, Debug, PartialEq, Eq, Structural)]
pub enum DnsRoute {
    /// Answer with one A record.
    Local { ip: u32, ttl: u32 },
    /// Ask the upstream resolvers.
    Forward,
}

/// A queries for a local host with an address in the database are answered
/// locally with TTL 60; every other query is forwarded.
pub open spec fn route_spec(db: &LeaseDatabase, name: Seq<char>, qtype: u16, domain: Option<Seq<char>>, now: u64) -> DnsRoute {
    let h = local_host(name, domain);
    if qtype == RECORD_TYPE_A && h.is_some() && db.host_address(h.unwrap(), now).is_some() {
        DnsRoute::Local { ip: db.host_address(h.unwrap(), now).unwrap(), ttl: LOCAL_TTL }
    } else {
        DnsRoute::Forward
    }
}

pub fn route_query(db: &LeaseDatabase, name: &str, qtype: u16, domain: Option<&str>, now: u64) -> (r: DnsRoute)
    requires
        db.wf(),
    ensures
        r == route_spec(db, name@, qtype, str_opt(domain), now),
{
    if qtype != RECORD_TYPE_A {
        return DnsRoute::Forward;
    }
    match local_hostname(name, domain) {
        Some(h) => match db.get_ip_by_hostname(h.as_str(), now) {
            Some(ip) => DnsRoute::Local { ip, ttl: LOCAL_TTL },
            None => DnsRoute::Forward,
        },
        None => DnsRoute::Forward,
    }
}

/// An upstream resolver and its transport.
#[derive(Clone, Copy, Debug, PartialEq, Eq, Structural)]
pub struct NameServer {
    pub endpoint: Endpoint,
    pub tcp: bool,
}

/// The resolvers to forward to: each configured upstream over UDP, then over
/// TCP. None when no upstream is configured: the caller then uses a
/// well-known public resolver.
pub fn resolver_targets(upstream: &Vec<Endpoint>) -> (r: Option<Vec<NameServer>>)
    ensures
        upstream@.len() == 0 <==> r.is_none(),
        r.is_some() ==> r.unwrap()@.len() == 2 * upstream@.len() && forall|i: int|
            0 <= i < upstream@.len() ==> r.unwrap()@[2 * i] == (NameServer {
                endpoint: upstream@[i],
                tcp: false,
            }) && r.unwrap()@[2 * i + 1] == (NameServer { endpoint: upstream@[i], tcp: true }),
{
    if upstream.len() == 0 {
        return None;
    }
    let mut out: Vec<NameServer> = Vec::new();
    let mut i: usize = 0;
    while i < upstream.len()
        invariant
            i <= upstream@.len(),
            out@.len() == 2 * i,
            forall|j: int|
                0 <= j < i ==> out@[2 * j] == (NameServer { endpoint: upstream@[j], tcp: false })
                    && out@[2 * j + 1] == (NameServer { endpoint: upstream@[j], tcp: true }),
        decreases upstream@.len() - i,
    {
        out.push(NameServer { endpoint: upstream[i], tcp: false });
        out.push(NameServer { endpoint: upstream[i], tcp: true });
        i = i + 1;
    }
    Some(out)
}


proof fn lemma_least_exists(p: spec_fn(int) -> bool, w: int)
    requires
        0 <= w,
        p(w),
    ensures
        exists|i: int| 0 <= i && #[trigger] p(i) && forall|j: int| 0 <= j < i ==> !#[trigger] p(j),
    decreases w,
{
    if forall|j: int| 0 <= j < w ==> !#[trigger] p(j) {
    } else {
        let j = choose|j: int| 0 <= j < w && #[trigger] p(j);
        lemma_least_exists(p, j);
    }
}

/// The query name `h.<d>`, with the final dot or without it.
pub open spec fn query_name(h: Seq<char>, d: Seq<char>, final_dot: bool) -> Seq<char> {
    if final_dot {
        h + seq!['.'] + d + seq!['.']
    } else {
        h + seq!['.'] + d
    }
}

/// Every static binding and valid lease named `h` holds `x`, and one does.
pub open spec fn host_holds(db: &LeaseDatabase, h: Seq<char>, x: u32, now: u64) -> bool {
    &&& (exists|i: int| 0 <= i < db.bindings().len() && db.static_host_is(i, h)) || (exists|i: int|
        0 <= i < db.records().len() && db.lease_host_is(i, h, now))
    &&& forall|i: int|
        0 <= i < db.bindings().len() && db.static_host_is(i, h) ==> db.bindings()[i].ip == x
    &&& forall|i: int|
        0 <= i < db.records().len() && db.lease_host_is(i, h, now) ==> db.records()[i].ip == x
}

/// An A query for `h.<local domain>` is answered from the lease database:
/// one record with the address `x` of `h`, TTL 60.
pub proof fn lemma_local_synthesis(
    db: &LeaseDatabase,
    h: Seq<char>,
    d: Seq<char>,
    final_dot: bool,
    x: u32,
    now: u64,
)
    requires
        h.len() > 0,
        d.len() > 0,
        d.last() != '.',
        host_holds(db, h, x, now),
    ensures
        route_spec(db, query_name(h, d, final_dot), RECORD_TYPE_A, Some(d), now) == (DnsRoute::Local {
            ip: x,
            ttl: LOCAL_TTL,
        }),
{
    let n = query_name(h, d, final_dot);
    let name = strip_dot(n);
    assert(name =~= h + seq!['.'] + d);
    let cut = name.len() - d.len() - 1;
    assert(name[cut] == '.');
    assert(name.subrange(cut + 1, name.len() as int) =~= d);
    assert(name.subrange(0, cut) =~= h);
    assert(local_host(n, Some(d)) == Some(h));
    if exists|i: int| 0 <= i < db.bindings().len() && db.static_host_is(i, h) {
        let w = choose|i: int| 0 <= i < db.bindings().len() && db.static_host_is(i, h);
        let p = |i: int| i < db.bindings().len() && db.static_host_is(i, h);
        lemma_least_exists(p, w);
        let c = choose|i: int| 0 <= i && #[trigger] p(i) && forall|j: int| 0 <= j < i ==> !#[trigger] p(j);
        assert(p(c));
        assert forall|j: int| 0 <= j < c implies !db.static_host_is(j, h) by {
            assert(!p(j));
        }
        assert(0 <= c < db.bindings().len() && db.static_host_is(c, h));
    } else {
        let w = choose|i: int| 0 <= i < db.records().len() && db.lease_host_is(i, h, now);
        let p = |i: int| i < db.records().len() && db.lease_host_is(i, h, now);
        lemma_least_exists(p, w);
        let c = choose|i: int| 0 <= i && #[trigger] p(i) && forall|j: int| 0 <= j < i ==> !#[trigger] p(j);
        assert(p(c));
        assert forall|j: int| 0 <= j < c implies !db.lease_host_is(j, h, now) by {
            assert(!p(j));
        }
        assert(0 <= c < db.records().len() && db.lease_host_is(c, h, now));
    }
}

/// A query that the lease database cannot answer is forwarded, and an
/// upstream failure comes back as the code `upstream_code` gives it.
pub proof fn lemma_forward_fallthrough(
    db: &LeaseDatabase,
    name: Seq<char>,
    qtype: u16,
    domain: Option<Seq<char>>,
    now: u64,
    e: UpstreamError,
)
    requires
        local_host(name, domain).is_none() || db.host_address(local_host(name, domain).unwrap(), now).is_none(),
    ensures
        route_spec(db, name, qtype, domain, now) == DnsRoute::Forward,
        e == UpstreamError::NoRecords ==> upstream_code(e) == ResponseCode::NXDomain,
        e != UpstreamError::NoRecords ==> upstream_code(e) == ResponseCode::ServFail,
{
}
} // verus!
