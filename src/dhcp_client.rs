//! The DHCP client of the WAN side: the messages it sends, how it reads the
//! server's answers, and the lease it takes from an acknowledgement. The
//! socket and the timers are the caller's.

use vstd::prelude::*;
use crate::dhcp_server::{ACK, DISCOVER, NAK, OFFER, REQUEST, DEFAULT_SUBNET_MASK};
use crate::wire;
use crate::wire::{
    be32, chaddr_in, dns_in, lease_time_in, message_type_in, parameter_requests_in, read_be32,
    read_chaddr, readable, requested_ip_in, routers_in, same_bytes, server_id_in, subnet_mask_in,
    FLAGS_AT, HLEN_AT, OP_AT, XID_AT, YIADDR_AT,
};

verus! {

/// Relies on rand's `random`: a value drawn from the thread-local generator;
/// nothing is promised of it.
pub assume_specification<T>[ rand::random::<T> ]() -> (r: T)
    where
        rand::distributions::Standard: rand::distributions::Distribution<T>,
;

/// Seconds to wait before a new handshake after a failed one.
pub const RETRY_DELAY_SECS: u64 = 5;

/// Option codes the client asks the server for.
pub const OPTION_SUBNET_MASK: u8 = 1;
pub const OPTION_ROUTER: u8 = 3;
pub const OPTION_DOMAIN_NAME_SERVER: u8 = 6;
pub const OPTION_DOMAIN_NAME: u8 = 15;

/// Lease time assumed when the server sends none.
pub const DEFAULT_LEASE_SECS: u32 = 3600;

pub struct ClientConfig {
    pub interface: String,
    pub mac: [u8; 6],
}

/// A lease taken from the server; addresses in host byte order.
pub struct DhcpLease {
    pub ip: u32,
    pub netmask: u32,
    pub gateway: Option<u32>,
    pub dns: Vec<u32>,
    pub lease_time: u32,
    pub server_id: u32,
}

/// The fields of a server message that the client reads.
pub struct ServerMessage {
    pub xid: u32,
    pub message_type: Option<u8>,
    pub yiaddr: u32,
    pub server_id: Option<u32>,
    pub subnet_mask: Option<u32>,
    pub routers: Vec<u32>,
    pub dns: Vec<u32>,
    pub lease_time: Option<u32>,
}

/// What a server message means to a client waiting for an offer or an ack.
pub enum ClientEvent {
    /// Not for this handshake, or not what is awaited.
    Ignore,
    /// An offer: the offered address and the offering server, if named.
    Offered { ip: u32, server_id: Option<u32> },
    Acked(DhcpLease),
    Refused,
}

#[derive(Clone, Copy, Debug, PartialEq, Eq, Structural)]
pub enum Awaiting {
    Offer,
    Ack,
}

pub struct Client {
    config: ClientConfig,
    xid: u32,
}

/// The lease an acknowledgement gives, with the defaults for missing options:
/// mask 255.255.255.0, no gateway (else the first router), no name servers,
/// 3600 s, server identifier 0.0.0.0.
pub open spec fn lease_ok(l: &DhcpLease, m: &ServerMessage) -> bool {
    &&& l.ip == m.yiaddr
    &&& l.netmask == (if m.subnet_mask.is_some() {
        m.subnet_mask.unwrap()
    } else {
        DEFAULT_SUBNET_MASK
    })
    &&& l.gateway == (if m.routers@.len() > 0 {
        Some(m.routers@[0])
    } else {
        None
    })
    &&& l.dns@ == m.dns@
    &&& l.lease_time == (if m.lease_time.is_some() {
        m.lease_time.unwrap()
    } else {
        DEFAULT_LEASE_SECS
    })
    &&& l.server_id == (if m.server_id.is_some() {
        m.server_id.unwrap()
    } else {
        0
    })
}

impl Client {
    /// A client with a random transaction id, kept for one full handshake.
    pub fn new(config: ClientConfig) -> (r: Client)
        ensures
            r.config() == config,
    {
        let xid: u32 = rand::random::<u32>();
        Client { config, xid }
    }

    /// A client with the given transaction id.
    pub fn with_xid(config: ClientConfig, xid: u32) -> (r: Client)
        ensures
            r.config() == config,
            r.xid() == xid,
    {
        Client { config, xid }
    }

    pub closed spec fn config(&self) -> ClientConfig {
        self.config
    }

    pub closed spec fn xid(&self) -> u32 {
        self.xid
    }

    pub fn transaction_id(&self) -> (r: u32)
        ensures
            r == self.xid(),
    {
        self.xid
    }

    /// The lease an acknowledgement gives.
    pub fn parse_lease(m: &ServerMessage) -> (r: DhcpLease)
        ensures
            lease_ok(&r, m),
    {
        DhcpLease {
            ip: m.yiaddr,
            netmask: match m.subnet_mask {
                Some(mask) => mask,
                None => DEFAULT_SUBNET_MASK,
            },
            gateway: if m.routers.len() > 0 {
                Some(m.routers[0])
            } else {
                None
            },
            dns: m.dns.clone(),
            lease_time: match m.lease_time {
                Some(t) => t,
                None => DEFAULT_LEASE_SECS,
            },
            server_id: match m.server_id {
                Some(s) => s,
                None => 0,
            },
        }
    }

    /// What a server message means while waiting: messages of another
    /// transaction are ignored; an offer counts while waiting for one; an ACK
    /// gives the lease and a NAK ends the handshake while waiting for an ack.
    pub fn classify(&self, awaiting: Awaiting, m: &ServerMessage) -> (r: ClientEvent)
        ensures
            m.xid != self.xid() ==> r is Ignore,
            m.xid == self.xid() && awaiting == Awaiting::Offer && m.message_type == Some(OFFER) ==> r
                == (ClientEvent::Offered { ip: m.yiaddr, server_id: m.server_id }),
            m.xid == self.xid() && awaiting == Awaiting::Offer && m.message_type != Some(OFFER) ==> r is Ignore,
            m.xid == self.xid() && awaiting == Awaiting::Ack && m.message_type == Some(ACK) ==> (r matches ClientEvent::Acked(l) && lease_ok(&l, m)),
            m.xid == self.xid() && awaiting == Awaiting::Ack && m.message_type == Some(NAK) ==> r is Refused,
            m.xid == self.xid() && awaiting == Awaiting::Ack && m.message_type != Some(ACK)
                && m.message_type != Some(NAK) ==> r is Ignore,
    {
        if m.xid != self.xid {
            return ClientEvent::Ignore;
        }
        match awaiting {
            Awaiting::Offer => {
                if m.message_type == Some(OFFER) {
                    ClientEvent::Offered { ip: m.yiaddr, server_id: m.server_id }
                } else {
                    ClientEvent::Ignore
                }
            },
            Awaiting::Ack => {
                if m.message_type == Some(ACK) {
                    ClientEvent::Acked(Self::parse_lease(m))
                } else if m.message_type == Some(NAK) {
                    ClientEvent::Refused
                } else {
                    ClientEvent::Ignore
                }
            },
        }
    }

    /// `b` is a client message of this handshake: a BootRequest with this
    /// transaction id, the client's six-byte MAC, the broadcast flag set and
    /// message type `code`.
    pub open spec fn sent_by(&self, b: Seq<u8>, code: u8) -> bool {
        &&& readable(b)
        &&& b[OP_AT as int] == 1
        &&& be32(b, XID_AT as int) == self.xid()
        &&& chaddr_in(b) == self.config().mac@
        &&& b[FLAGS_AT as int] == 0x80 && b[FLAGS_AT + 1] == 0
        &&& message_type_in(b) == Some(code)
    }

    fn check_sent(&self, buf: &[u8], code: u8) -> (r: bool)
        ensures
            r == self.sent_by(buf@, code),
    {
        if !wire::decodes(buf) || buf[HLEN_AT] > 16 || buf[OP_AT] != 1 {
            return false;
        }
        let mut mac: Vec<u8> = Vec::new();
        let mut i: usize = 0;
        while i < 6
            invariant
                i <= 6,
                mac@ == self.config.mac@.subrange(0, i as int),
            decreases 6 - i,
        {
            mac.push(self.config.mac[i]);
            proof {
                assert(mac@ =~= self.config.mac@.subrange(0, i + 1));
            }
            i = i + 1;
        }
        proof {
            assert(self.config.mac@.subrange(0, 6) =~= self.config.mac@);
        }
        read_be32(buf, XID_AT) == self.xid && same_bytes(&read_chaddr(buf), &mac)
            && buf[FLAGS_AT] == 0x80 && buf[FLAGS_AT + 1] == 0 && wire::message_type_option(buf)
            == Some(code)
    }

    /// The DISCOVER of this handshake, asking for mask, router, name servers
    /// and domain name. Built through dhcproto, and handed out only when the
    /// bytes read back as that.
    pub fn discover_packet(&self) -> (r: Option<Vec<u8>>)
        ensures
            r.is_some() ==> self.sent_by(r.unwrap()@, DISCOVER) && parameter_requests_in(
                r.unwrap()@,
            ) == seq![OPTION_SUBNET_MASK, OPTION_ROUTER, OPTION_DOMAIN_NAME_SERVER, OPTION_DOMAIN_NAME],
    {
        let mut m = wire::new_message(self.xid, vstd::array::array_as_slice(&self.config.mac));
        wire::mark_broadcast(&mut m);
        wire::put_message_type(&mut m, DISCOVER);
        let wanted: Vec<u8> = vec![
            OPTION_SUBNET_MASK,
            OPTION_ROUTER,
            OPTION_DOMAIN_NAME_SERVER,
            OPTION_DOMAIN_NAME,
        ];
        wire::put_parameter_requests(&mut m, &wanted);
        let bytes = wire::encode_message(&m)?;
        if !self.check_sent(bytes.as_slice(), DISCOVER) || !same_bytes(
            &wire::parameter_requests_option(bytes.as_slice()),
            &wanted,
        ) {
            return None;
        }
        proof {
            assert(wanted@ =~= seq![OPTION_SUBNET_MASK, OPTION_ROUTER, OPTION_DOMAIN_NAME_SERVER, OPTION_DOMAIN_NAME]);
        }
        Some(bytes)
    }

    /// The REQUEST for an offered address, naming the offering server when
    /// the offer did. Built through dhcproto, and handed out only when the
    /// bytes read back as that.
    pub fn request_packet(&self, ip: u32, server_id: Option<u32>) -> (r: Option<Vec<u8>>)
        ensures
            r.is_some() ==> self.sent_by(r.unwrap()@, REQUEST) && requested_ip_in(r.unwrap()@)
                == Some(ip) && server_id_in(r.unwrap()@) == server_id,
    {
        let mut m = wire::new_message(self.xid, vstd::array::array_as_slice(&self.config.mac));
        wire::mark_broadcast(&mut m);
        wire::put_message_type(&mut m, REQUEST);
        wire::put_requested_ip(&mut m, ip);
        if let Some(s) = server_id {
            wire::put_server_id(&mut m, s);
        }
        let bytes = wire::encode_message(&m)?;
        let buf = bytes.as_slice();
        if !self.check_sent(buf, REQUEST) || wire::requested_ip_option(buf) != Some(ip)
            || wire::server_id_option(buf) != server_id {
            return None;
        }
        Some(bytes)
    }
}

/// Reads a server datagram: none unless it is readable; else each field is
/// what the datagram holds.
pub fn read_server_message(buf: &[u8]) -> (r: Option<ServerMessage>)
    ensures
        r.is_some() == readable(buf@),
        r.is_some() ==> {
            let m = r.unwrap();
            &&& m.xid == be32(buf@, XID_AT as int)
            &&& m.message_type == message_type_in(buf@)
            &&& m.yiaddr == be32(buf@, YIADDR_AT as int)
            &&& m.server_id == server_id_in(buf@)
            &&& m.subnet_mask == subnet_mask_in(buf@)
            &&& m.routers@ == routers_in(buf@)
            &&& m.dns@ == dns_in(buf@)
            &&& m.lease_time == lease_time_in(buf@)
        },
{
    if !wire::decodes(buf) || buf[HLEN_AT] > 16 {
        return None;
    }
    Some(
        ServerMessage {
            xid: read_be32(buf, XID_AT),
            message_type: wire::message_type_option(buf),
            yiaddr: read_be32(buf, YIADDR_AT),
            server_id: wire::server_id_option(buf),
            subnet_mask: wire::subnet_mask_option(buf),
            routers: wire::router_option(buf),
            dns: wire::dns_option(buf),
            lease_time: wire::lease_time_option(buf),
        },
    )
}

/// Seconds to wait before renewing: half the lease time.
pub fn renewal_delay(lease: &DhcpLease) -> (r: u64)
    ensures
        r == lease.lease_time / 2,
{
    (lease.lease_time / 2) as u64
}

} // verus!
