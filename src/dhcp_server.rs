//! The DHCP server: what it answers to each client message. It keeps no
//! state between messages; all of it lives in the lease database.

use vstd::prelude::*;
use crate::lease::{LeaseDatabase, LeaseView, PoolConfig, StaticLease, upsert};
use crate::text::{mac_from_bytes, mac_of_bytes};
use crate::wire;
use crate::wire::{
    be32, chaddr_in, dns_in, lease_time_in, message_type_in, read_be32, read_chaddr, readable,
    requested_ip_in, routers_in, same_bytes, same_words, server_id_in, subnet_mask_in, CHADDR_AT,
    CIADDR_AT, HLEN_AT, OP_AT, XID_AT, YIADDR_AT,
};

verus! {

pub const DISCOVER: u8 = 1;
pub const OFFER: u8 = 2;
pub const REQUEST: u8 = 3;
pub const ACK: u8 = 5;
pub const NAK: u8 = 6;

/// Server identifier used when no gateway is configured (192.168.8.1).
pub const FALLBACK_SERVER_IP: u32 = 0xC0A8_0801;

/// Subnet mask handed out when none is configured (255.255.255.0).
pub const DEFAULT_SUBNET_MASK: u32 = 0xFFFF_FF00;

/// Options handed to clients; addresses in host byte order.
pub struct OptionsConfig {
    pub gateway: Option<u32>,
    pub dns: Vec<u32>,
    pub domain: Option<String>,
    pub ntp: Vec<u32>,
    pub subnet_mask: Option<u32>,
}

pub struct ServerConfig {
    pub enabled: bool,
    pub interface: String,
    pub pool: PoolConfig,
    pub options: OptionsConfig,
    pub static_leases: Vec<StaticLease>,
    pub lease_file: Option<String>,
}

/// The fields of a client message that the server reads.
pub struct DhcpRequest {
    /// The opcode is BootRequest (sent by a client).
    pub boot_request: bool,
    /// Numeric DHCP message type (option 53), if present.
    pub message_type: Option<u8>,
    pub xid: u32,
    pub chaddr: Vec<u8>,
    pub ciaddr: u32,
    pub requested_ip: Option<u32>,
    pub server_id: Option<u32>,
}

#[derive(Clone, Copy, Debug, PartialEq, Eq, Structural)]
pub enum ReplyKind {
    Offer,
    Ack,
    Nak,
}

/// A server reply; options other than the message type and server
/// identifier are sent with offers and acknowledgements only.
pub struct DhcpReply {
    pub kind: ReplyKind,
    pub xid: u32,
    pub chaddr: Vec<u8>,
    pub yiaddr: u32,
    pub server_id: u32,
    pub lease_time: u32,
    pub subnet_mask: u32,
    pub router: Option<u32>,
    pub dns: Vec<u32>,
}

pub open spec fn lease_seconds(d: u64) -> u32 {
    if d <= u32::MAX {
        d as u32
    } else {
        u32::MAX
    }
}

/// What the server reads of a client message.
pub ghost struct Query {
    pub boot_request: bool,
    /// The client MAC, when the hardware address has six bytes.
    pub mac: Option<u64>,
    pub message_type: Option<u8>,
    pub requested_ip: Option<u32>,
    pub ciaddr: u32,
}

pub open spec fn mac_of_chaddr(c: Seq<u8>) -> Option<u64> {
    if c.len() == 6 {
        Some(mac_of_bytes(c))
    } else {
        None
    }
}

pub open spec fn query_of(req: &DhcpRequest) -> Query {
    Query {
        boot_request: req.boot_request,
        mac: mac_of_chaddr(req.chaddr@),
        message_type: req.message_type,
        requested_ip: req.requested_ip,
        ciaddr: req.ciaddr,
    }
}

/// The query a readable datagram carries.
pub open spec fn query_in(b: Seq<u8>) -> Query {
    Query {
        boot_request: b[OP_AT as int] == 1,
        mac: mac_of_chaddr(chaddr_in(b)),
        message_type: message_type_in(b),
        requested_ip: requested_ip_in(b),
        ciaddr: be32(b, CIADDR_AT as int),
    }
}

/// The address the client asks for: the requested-address option, else a
/// non-zero `ciaddr` (renewal).
pub open spec fn target(q: Query) -> Option<u32> {
    if q.requested_ip.is_some() {
        q.requested_ip
    } else if q.ciaddr != 0 {
        Some(q.ciaddr)
    } else {
        None
    }
}

pub open spec fn is_discover(q: Query) -> bool {
    q.boot_request && q.mac.is_some() && q.message_type == Some(DISCOVER)
}

pub open spec fn is_request(q: Query) -> bool {
    q.boot_request && q.mac.is_some() && q.message_type == Some(REQUEST) && target(q).is_some()
}

/// The allocation a query makes: for a DISCOVER with the requested address,
/// for a REQUEST with the asked-for address; none for anything else.
pub open spec fn allocation_for(db: &LeaseDatabase, q: Query, now: u64) -> Option<LeaseView> {
    if is_discover(q) {
        db.allocation(q.mac.unwrap(), q.requested_ip, now)
    } else if is_request(q) {
        db.allocation(q.mac.unwrap(), target(q), now)
    } else {
        None
    }
}

/// The stored leases after answering `q`.
pub open spec fn records_after(db: &LeaseDatabase, q: Query, now: u64) -> Seq<LeaseView> {
    match allocation_for(db, q, now) {
        Some(l) => upsert(db.records(), l),
        None => db.records(),
    }
}

/// The kind of the answer to `q`: an offer of what a DISCOVER allocated
/// (silence when nothing was); for a REQUEST an ack when the asked-for
/// address was allocated, else a NAK; silence for anything else.
pub open spec fn reply_kind(db: &LeaseDatabase, q: Query, now: u64) -> Option<ReplyKind> {
    let a = allocation_for(db, q, now);
    if is_discover(q) {
        if a.is_some() {
            Some(ReplyKind::Offer)
        } else {
            None
        }
    } else if is_request(q) {
        if a.is_some() && a.unwrap().ip == target(q).unwrap() {
            Some(ReplyKind::Ack)
        } else {
            Some(ReplyKind::Nak)
        }
    } else {
        None
    }
}

/// The `yiaddr` of the answer: the offered or acknowledged address, 0 in a NAK.
pub open spec fn reply_yiaddr(db: &LeaseDatabase, q: Query, now: u64) -> u32 {
    match reply_kind(db, q, now) {
        Some(ReplyKind::Offer) => allocation_for(db, q, now).unwrap().ip,
        Some(ReplyKind::Ack) => target(q).unwrap(),
        _ => 0,
    }
}

pub open spec fn kind_code(k: ReplyKind) -> u8 {
    match k {
        ReplyKind::Offer => OFFER,
        ReplyKind::Ack => ACK,
        ReplyKind::Nak => NAK,
    }
}

/// `b` is the wire form of `r`: a BootReply with its xid, hardware address
/// and `yiaddr`; message type and server identifier; and for an offer or an
/// ack the lease time, subnet mask, router (when there is one) and name servers.
pub open spec fn reply_on_wire(b: Seq<u8>, r: &DhcpReply) -> bool {
    &&& readable(b)
    &&& b[OP_AT as int] == 2
    &&& be32(b, XID_AT as int) == r.xid
    &&& chaddr_in(b) == r.chaddr@
    &&& be32(b, YIADDR_AT as int) == r.yiaddr
    &&& message_type_in(b) == Some(kind_code(r.kind))
    &&& server_id_in(b) == Some(r.server_id)
    &&& r.kind != ReplyKind::Nak ==> {
        &&& lease_time_in(b) == Some(r.lease_time)
        &&& subnet_mask_in(b) == Some(r.subnet_mask)
        &&& routers_in(b) == (if r.router.is_some() {
            seq![r.router.unwrap()]
        } else {
            Seq::<u32>::empty()
        })
        &&& dns_in(b) == r.dns@
    }
}

pub struct Server {
    config: ServerConfig,
}

impl Server {
    pub fn new(config: ServerConfig) -> (r: Server)
        ensures
            r.config() == config,
    {
        Server { config }
    }

    pub closed spec fn config(&self) -> ServerConfig {
        self.config
    }

    pub fn config_ref(&self) -> (r: &ServerConfig)
        ensures
            *r == self.config(),
    {
        &self.config
    }

    /// The header-independent fields of a reply: what `reply` fills in.
    pub open spec fn reply_fields_ok(&self, r: &DhcpReply, db: &LeaseDatabase) -> bool {
        let o = self.config().options;
        &&& r.server_id == (if o.gateway.is_some() {
            o.gateway.unwrap()
        } else {
            FALLBACK_SERVER_IP
        })
        &&& r.lease_time == lease_seconds(db.duration())
        &&& r.subnet_mask == (if o.subnet_mask.is_some() {
            o.subnet_mask.unwrap()
        } else {
            DEFAULT_SUBNET_MASK
        })
        &&& r.router == o.gateway
        &&& r.dns@ == o.dns@
    }

    fn reply(&self, kind: ReplyKind, req: &DhcpRequest, yiaddr: u32, db: &LeaseDatabase) -> (r: DhcpReply)
        ensures
            r.kind == kind,
            r.xid == req.xid,
            r.chaddr@ == req.chaddr@,
            r.yiaddr == yiaddr,
            self.reply_fields_ok(&r, db),
    {
        let o = &self.config.options;
        let d = db.get_duration();
        DhcpReply {
            kind,
            xid: req.xid,
            chaddr: req.chaddr.clone(),
            yiaddr,
            server_id: match o.gateway {
                Some(g) => g,
                None => FALLBACK_SERVER_IP,
            },
            lease_time: if d <= u32::MAX as u64 {
                d as u32
            } else {
                u32::MAX
            },
            subnet_mask: match o.subnet_mask {
                Some(m) => m,
                None => DEFAULT_SUBNET_MASK,
            },
            router: o.gateway,
            dns: o.dns.clone(),
        }
    }

    /// Answers one client message at time `now`.
    ///
    /// DISCOVER: allocate for the client (honouring a requested address) and
    /// offer what was allocated, or stay silent when nothing was. REQUEST:
    /// allocate the asked-for address (requested option, else `ciaddr`);
    /// acknowledge when that very address was allocated, refuse (NAK)
    /// otherwise. Anything else, server replies, and messages whose hardware
    /// address is not six bytes get no answer and change nothing.
    pub fn handle_request(&self, db: &mut LeaseDatabase, req: &DhcpRequest, now: u64) -> (r: Option<DhcpReply>)
        requires
            old(db).wf(),
        ensures
            final(db).wf(),
            final(db).bindings() == old(db).bindings(),
            final(db).duration() == old(db).duration(),
            final(db).pool_start() == old(db).pool_start(),
            final(db).pool_end() == old(db).pool_end(),
            final(db).records() == records_after(old(db), query_of(req), now),
            r.is_some() == reply_kind(old(db), query_of(req), now).is_some(),
            r.is_some() ==> {
                &&& r.unwrap().kind == reply_kind(old(db), query_of(req), now).unwrap()
                &&& r.unwrap().yiaddr == reply_yiaddr(old(db), query_of(req), now)
                &&& r.unwrap().xid == req.xid
                &&& r.unwrap().chaddr@ == req.chaddr@
                &&& self.reply_fields_ok(&r.unwrap(), old(db))
            },
    {
        if !req.boot_request {
            return None;
        }
        let mac = match mac_from_bytes(req.chaddr.as_slice()) {
            Some(m) => m,
            None => {
                return None;
            },
        };
        if req.message_type == Some(DISCOVER) {
            match db.allocate_ip(mac, req.requested_ip, now) {
                Some(lease) => Some(self.reply(ReplyKind::Offer, req, lease.ip, db)),
                None => None,
            }
        } else if req.message_type == Some(REQUEST) {
            let target = match req.requested_ip {
                Some(ip) => ip,
                None => {
                    if req.ciaddr == 0 {
                        return None;
                    }
                    req.ciaddr
                },
            };
            match db.allocate_ip(mac, Some(target), now) {
                Some(lease) => {
                    if lease.ip == target {
                        Some(self.reply(ReplyKind::Ack, req, target, db))
                    } else {
                        Some(self.reply(ReplyKind::Nak, req, 0, db))
                    }
                },
                None => Some(self.reply(ReplyKind::Nak, req, 0, db)),
            }
        } else {
            None
        }
    }

    /// Answers one datagram: reads it, answers as `handle_request` does, and
    /// puts the reply on the wire. A datagram that is not readable gets no
    /// answer and changes nothing.
    pub fn handle_datagram(&self, db: &mut LeaseDatabase, buf: &[u8], now: u64) -> (r: Option<Vec<u8>>)
        requires
            old(db).wf(),
        ensures
            final(db).wf(),
            final(db).bindings() == old(db).bindings(),
            final(db).duration() == old(db).duration(),
            final(db).pool_start() == old(db).pool_start(),
            final(db).pool_end() == old(db).pool_end(),
            !readable(buf@) ==> r.is_none() && final(db).records() == old(db).records(),
            readable(buf@) ==> final(db).records() == records_after(old(db), query_in(buf@), now),
            readable(buf@) && reply_kind(old(db), query_in(buf@), now).is_none() ==> r.is_none(),
            r.is_some() ==> readable(buf@) && ({
                let q = query_in(buf@);
                let k = reply_kind(old(db), q, now);
                let b = r.unwrap()@;
                &&& k.is_some()
                &&& readable(b)
                &&& b[OP_AT as int] == 2
                &&& be32(b, XID_AT as int) == be32(buf@, XID_AT as int)
                &&& chaddr_in(b) == chaddr_in(buf@)
                &&& be32(b, YIADDR_AT as int) == reply_yiaddr(old(db), q, now)
                &&& message_type_in(b) == Some(kind_code(k.unwrap()))
                &&& server_id_in(b) == Some(self.server_ip())
                &&& k.unwrap() != ReplyKind::Nak ==> {
                    &&& lease_time_in(b) == Some(lease_seconds(old(db).duration()))
                    &&& subnet_mask_in(b) == Some(self.subnet_mask())
                    &&& routers_in(b) == (if self.config().options.gateway.is_some() {
                        seq![self.config().options.gateway.unwrap()]
                    } else {
                        Seq::<u32>::empty()
                    })
                    &&& dns_in(b) == self.config().options.dns@
                }
            }),
    {
        let req = match read_request(buf) {
            Some(q) => q,
            None => {
                return None;
            },
        };
        proof {
            assert(req.chaddr@ =~= chaddr_in(buf@));
            assert(query_of(&req) == query_in(buf@));
        }
        match self.handle_request(db, &req, now) {
            Some(reply) => encode_reply(&reply),
            None => None,
        }
    }

    pub open spec fn server_ip(&self) -> u32 {
        if self.config().options.gateway.is_some() {
            self.config().options.gateway.unwrap()
        } else {
            FALLBACK_SERVER_IP
        }
    }

    pub open spec fn subnet_mask(&self) -> u32 {
        if self.config().options.subnet_mask.is_some() {
            self.config().options.subnet_mask.unwrap()
        } else {
            DEFAULT_SUBNET_MASK
        }
    }
}

/// Reads a client datagram: none unless it is readable; else each field is
/// what the datagram holds.
pub fn read_request(buf: &[u8]) -> (r: Option<DhcpRequest>)
    ensures
        r.is_some() == readable(buf@),
        r.is_some() ==> {
            let q = r.unwrap();
            &&& q.boot_request == (buf@[OP_AT as int] == 1)
            &&& q.message_type == message_type_in(buf@)
            &&& q.xid == be32(buf@, XID_AT as int)
            &&& q.chaddr@ == chaddr_in(buf@)
            &&& q.ciaddr == be32(buf@, CIADDR_AT as int)
            &&& q.requested_ip == requested_ip_in(buf@)
            &&& q.server_id == server_id_in(buf@)
        },
{
    if !wire::decodes(buf) || buf[HLEN_AT] > 16 {
        return None;
    }
    Some(
        DhcpRequest {
            boot_request: buf[OP_AT] == 1,
            message_type: wire::message_type_option(buf),
            xid: read_be32(buf, XID_AT),
            chaddr: read_chaddr(buf),
            ciaddr: read_be32(buf, CIADDR_AT),
            requested_ip: wire::requested_ip_option(buf),
            server_id: wire::server_id_option(buf),
        },
    )
}

/// Puts a reply on the wire through dhcproto, and hands the bytes out only
/// when they read back as `r` (see `reply_on_wire`).
pub fn encode_reply(r: &DhcpReply) -> (b: Option<Vec<u8>>)
    ensures
        b.is_some() ==> reply_on_wire(b.unwrap()@, r),
{
    let mut m = wire::new_message(r.xid, r.chaddr.as_slice());
    wire::mark_reply(&mut m);
    wire::put_yiaddr(&mut m, r.yiaddr);
    let code = match r.kind {
        ReplyKind::Offer => OFFER,
        ReplyKind::Ack => ACK,
        ReplyKind::Nak => NAK,
    };
    wire::put_message_type(&mut m, code);
    wire::put_server_id(&mut m, r.server_id);
    let mut routers: Vec<u32> = Vec::new();
    if r.kind != ReplyKind::Nak {
        wire::put_lease_time(&mut m, r.lease_time);
        wire::put_subnet_mask(&mut m, r.subnet_mask);
        if let Some(g) = r.router {
            routers.push(g);
            wire::put_routers(&mut m, &routers);
        }
        if r.dns.len() > 0 {
            wire::put_dns_servers(&mut m, &r.dns);
        }
    }
    let bytes = match wire::encode_message(&m) {
        Some(b) => b,
        None => {
            return None;
        },
    };
    let buf = bytes.as_slice();
    if !wire::decodes(buf) || buf[HLEN_AT] > 16 || buf[OP_AT] != 2 {
        return None;
    }
    if read_be32(buf, XID_AT) != r.xid || read_be32(buf, YIADDR_AT) != r.yiaddr {
        return None;
    }
    if !same_bytes(&read_chaddr(buf), &r.chaddr) {
        return None;
    }
    if wire::message_type_option(buf) != Some(code) || wire::server_id_option(buf) != Some(
        r.server_id,
    ) {
        return None;
    }
    if r.kind != ReplyKind::Nak {
        if wire::lease_time_option(buf) != Some(r.lease_time) || wire::subnet_mask_option(buf)
            != Some(r.subnet_mask) {
            return None;
        }
        if !same_words(&wire::router_option(buf), &routers) || !same_words(
            &wire::dns_option(buf),
            &r.dns,
        ) {
            return None;
        }
        proof {
            if r.router.is_some() {
                assert(routers@ =~= seq![r.router.unwrap()]);
            } else {
                assert(routers@ =~= Seq::<u32>::empty());
            }
        }
    }
    Some(bytes)
}

} // verus!
