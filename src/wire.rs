//! DHCPv4 messages on the wire. The fixed header is read here at its
//! offsets; the options are read and messages built through dhcproto, whose
//! readings are named as functions of the datagram's bytes.

use vstd::prelude::*;
use dhcproto::v4::{DhcpOption, Flags, Message, MessageType, Opcode, OptionCode};
use dhcproto::{Decodable, Encodable};

verus! {

#[verifier::external_type_specification]
#[verifier::external_body]
pub struct ExMessage(Message);

/// The datagram decodes as a DHCPv4 message.
pub uninterp spec fn dhcp_decodes(b: Seq<u8>) -> bool;

/// The numeric message type (option 53) of the message the datagram decodes to.
pub uninterp spec fn message_type_in(b: Seq<u8>) -> Option<u8>;

/// The requested address (option 50), host byte order.
pub uninterp spec fn requested_ip_in(b: Seq<u8>) -> Option<u32>;

/// The server identifier (option 54), host byte order.
pub uninterp spec fn server_id_in(b: Seq<u8>) -> Option<u32>;

/// The subnet mask (option 1), host byte order.
pub uninterp spec fn subnet_mask_in(b: Seq<u8>) -> Option<u32>;

/// The routers (option 3); empty when absent.
pub uninterp spec fn routers_in(b: Seq<u8>) -> Seq<u32>;

/// The name servers (option 6); empty when absent.
pub uninterp spec fn dns_in(b: Seq<u8>) -> Seq<u32>;

/// The lease time in seconds (option 51).
pub uninterp spec fn lease_time_in(b: Seq<u8>) -> Option<u32>;

/// The requested option codes (option 55); empty when absent.
pub uninterp spec fn parameter_requests_in(b: Seq<u8>) -> Seq<u8>;

/// Relies on dhcproto's `Decodable::from_bytes` for `v4::Message`, which
/// reads the 240 bytes of the fixed header and magic cookie before the options.
#[verifier::external_body]
pub(crate) fn decodes(buf: &[u8]) -> (r: bool)
    ensures
        r == dhcp_decodes(buf@),
        r ==> buf@.len() >= 240,
{
    Message::from_bytes(buf).is_ok()
}

/// Relies on dhcproto's `from_bytes` and `DhcpOptions::get` for option 53, as its numeric code.
#[verifier::external_body]
pub(crate) fn message_type_option(buf: &[u8]) -> (r: Option<u8>)
    ensures
        r == message_type_in(buf@),
{
    match Message::from_bytes(buf).ok()?.opts().get(OptionCode::MessageType) {
        Some(DhcpOption::MessageType(t)) => Some(u8::from(*t)),
        _ => None,
    }
}

/// Relies on dhcproto's `from_bytes` and `DhcpOptions::get` for option 50.
#[verifier::external_body]
pub(crate) fn requested_ip_option(buf: &[u8]) -> (r: Option<u32>)
    ensures
        r == requested_ip_in(buf@),
{
    match Message::from_bytes(buf).ok()?.opts().get(OptionCode::RequestedIpAddress) {
        Some(DhcpOption::RequestedIpAddress(ip)) => Some(u32::from(*ip)),
        _ => None,
    }
}

/// Relies on dhcproto's `from_bytes` and `DhcpOptions::get` for option 54.
#[verifier::external_body]
pub(crate) fn server_id_option(buf: &[u8]) -> (r: Option<u32>)
    ensures
        r == server_id_in(buf@),
{
    match Message::from_bytes(buf).ok()?.opts().get(OptionCode::ServerIdentifier) {
        Some(DhcpOption::ServerIdentifier(ip)) => Some(u32::from(*ip)),
        _ => None,
    }
}

/// Relies on dhcproto's `from_bytes` and `DhcpOptions::get` for option 1.
#[verifier::external_body]
pub(crate) fn subnet_mask_option(buf: &[u8]) -> (r: Option<u32>)
    ensures
        r == subnet_mask_in(buf@),
{
    match Message::from_bytes(buf).ok()?.opts().get(OptionCode::SubnetMask) {
        Some(DhcpOption::SubnetMask(ip)) => Some(u32::from(*ip)),
        _ => None,
    }
}

/// Relies on dhcproto's `from_bytes` and `DhcpOptions::get` for option 3.
#[verifier::external_body]
pub(crate) fn router_option(buf: &[u8]) -> (r: Vec<u32>)
    ensures
        r@ == routers_in(buf@),
{
    match Message::from_bytes(buf).ok().as_ref().and_then(|m| m.opts().get(OptionCode::Router)) {
        Some(DhcpOption::Router(ips)) => ips.iter().map(|ip| u32::from(*ip)).collect(),
        _ => Vec::new(),
    }
}

/// Relies on dhcproto's `from_bytes` and `DhcpOptions::get` for option 6.
#[verifier::external_body]
pub(crate) fn dns_option(buf: &[u8]) -> (r: Vec<u32>)
    ensures
        r@ == dns_in(buf@),
{
    match Message::from_bytes(buf).ok().as_ref().and_then(|m| m.opts().get(OptionCode::DomainNameServer)) {
        Some(DhcpOption::DomainNameServer(ips)) => ips.iter().map(|ip| u32::from(*ip)).collect(),
        _ => Vec::new(),
    }
}

/// Relies on dhcproto's `from_bytes` and `DhcpOptions::get` for option 51.
#[verifier::external_body]
pub(crate) fn lease_time_option(buf: &[u8]) -> (r: Option<u32>)
    ensures
        r == lease_time_in(buf@),
{
    match Message::from_bytes(buf).ok()?.opts().get(OptionCode::AddressLeaseTime) {
        Some(DhcpOption::AddressLeaseTime(secs)) => Some(*secs),
        _ => None,
    }
}

/// Relies on dhcproto's `from_bytes` and `DhcpOptions::get` for option 55, as numeric codes.
#[verifier::external_body]
pub(crate) fn parameter_requests_option(buf: &[u8]) -> (r: Vec<u8>)
    ensures
        r@ == parameter_requests_in(buf@),
{
    match Message::from_bytes(buf).ok().as_ref().and_then(|m| m.opts().get(OptionCode::ParameterRequestList)) {
        Some(DhcpOption::ParameterRequestList(codes)) => codes.iter().map(|c| u8::from(*c)).collect(),
        _ => Vec::new(),
    }
}

/// Relies on dhcproto's `Encodable::to_vec` for `v4::Message`.
#[verifier::external_body]
pub(crate) fn encode_message(m: &Message) -> Option<Vec<u8>> {
    m.to_vec().ok()
}

/// The big-endian 32-bit value at `b[i..i + 4]`.
pub open spec fn be32(b: Seq<u8>, i: int) -> u32 {
    (b[i] as int * 0x100_0000 + b[i + 1] as int * 0x1_0000 + b[i + 2] as int * 0x100 + b[
        i + 3
    ] as int) as u32
}

pub fn read_be32(buf: &[u8], i: usize) -> (r: u32)
    requires
        i + 4 <= buf@.len(),
    ensures
        r == be32(buf@, i as int),
{
    (buf[i] as u32) * 0x100_0000 + (buf[i + 1] as u32) * 0x1_0000 + (buf[i + 2] as u32) * 0x100
        + (buf[i + 3] as u32)
}

/// Offsets in the fixed header.
pub const OP_AT: usize = 0;
pub const HLEN_AT: usize = 2;
pub const XID_AT: usize = 4;
pub const FLAGS_AT: usize = 10;
pub const CIADDR_AT: usize = 12;
pub const YIADDR_AT: usize = 16;
pub const CHADDR_AT: usize = 28;

/// The client hardware address field: the first `hlen` of its 16 bytes.
pub open spec fn chaddr_in(b: Seq<u8>) -> Seq<u8> {
    b.subrange(CHADDR_AT as int, CHADDR_AT + b[HLEN_AT as int])
}

/// A datagram the server and client read: it decodes, and its hardware
/// address length fits the 16-byte field.
pub open spec fn readable(b: Seq<u8>) -> bool {
    dhcp_decodes(b) && b.len() >= 240 && b[HLEN_AT as int] <= 16
}

/// Reads the hardware address of a readable datagram.
pub fn read_chaddr(buf: &[u8]) -> (r: Vec<u8>)
    requires
        buf@.len() >= 240,
        buf@[HLEN_AT as int] <= 16,
    ensures
        r@ == chaddr_in(buf@),
{
    let n = buf[HLEN_AT] as usize;
    let mut out: Vec<u8> = Vec::new();
    let mut i: usize = 0;
    while i < n
        invariant
            i <= n <= 16,
            buf@.len() >= 240,
            n == buf@[HLEN_AT as int],
            out@ == buf@.subrange(CHADDR_AT as int, CHADDR_AT + i),
        decreases n - i,
    {
        out.push(buf[CHADDR_AT + i]);
        proof {
            assert(out@ =~= buf@.subrange(CHADDR_AT as int, CHADDR_AT + i + 1));
        }
        i = i + 1;
    }
    out
}

/// The two byte sequences are equal.
pub fn same_bytes(a: &Vec<u8>, b: &Vec<u8>) -> (r: bool)
    ensures
        r == (a@ == b@),
{
    if a.len() != b.len() {
        return false;
    }
    let mut i: usize = 0;
    while i < a.len()
        invariant
            i <= a@.len() == b@.len(),
            forall|j: int| 0 <= j < i ==> a@[j] == b@[j],
        decreases a@.len() - i,
    {
        if a[i] != b[i] {
            return false;
        }
        i = i + 1;
    }
    assert(a@ =~= b@);
    true
}

pub fn same_words(a: &Vec<u32>, b: &Vec<u32>) -> (r: bool)
    ensures
        r == (a@ == b@),
{
    if a.len() != b.len() {
        return false;
    }
    let mut i: usize = 0;
    while i < a.len()
        invariant
            i <= a@.len() == b@.len(),
            forall|j: int| 0 <= j < i ==> a@[j] == b@[j],
        decreases a@.len() - i,
    {
        if a[i] != b[i] {
            return false;
        }
        i = i + 1;
    }
    assert(a@ =~= b@);
    true
}

/// Relies on dhcproto's `Message::default`, `set_xid` and `set_chaddr`: a
/// BootRequest with that transaction id and hardware address, no options.
#[verifier::external_body]
pub(crate) fn new_message(xid: u32, chaddr: &[u8]) -> Message {
    let mut m = Message::default();
    m.set_xid(xid).set_chaddr(chaddr);
    m
}

/// Relies on dhcproto's `Message::set_opcode` with `BootReply`.
#[verifier::external_body]
pub(crate) fn mark_reply(m: &mut Message) {
    m.set_opcode(Opcode::BootReply);
}

/// Relies on dhcproto's `Message::set_yiaddr`.
#[verifier::external_body]
pub(crate) fn put_yiaddr(m: &mut Message, ip: u32) {
    m.set_yiaddr(ip);
}

/// Relies on dhcproto's `Message::set_flags` with the broadcast bit set.
#[verifier::external_body]
pub(crate) fn mark_broadcast(m: &mut Message) {
    m.set_flags(Flags::default().set_broadcast());
}

/// Relies on dhcproto's `DhcpOptions::insert` of a message type (option 53).
#[verifier::external_body]
pub(crate) fn put_message_type(m: &mut Message, code: u8) {
    m.opts_mut().insert(DhcpOption::MessageType(MessageType::from(code)));
}

/// Relies on dhcproto's `DhcpOptions::insert` of a server identifier (option 54).
#[verifier::external_body]
pub(crate) fn put_server_id(m: &mut Message, ip: u32) {
    m.opts_mut().insert(DhcpOption::ServerIdentifier(ip.into()));
}

/// Relies on dhcproto's `DhcpOptions::insert` of a requested address (option 50).
#[verifier::external_body]
pub(crate) fn put_requested_ip(m: &mut Message, ip: u32) {
    m.opts_mut().insert(DhcpOption::RequestedIpAddress(ip.into()));
}

/// Relies on dhcproto's `DhcpOptions::insert` of a lease time (option 51).
#[verifier::external_body]
pub(crate) fn put_lease_time(m: &mut Message, secs: u32) {
    m.opts_mut().insert(DhcpOption::AddressLeaseTime(secs));
}

/// Relies on dhcproto's `DhcpOptions::insert` of a subnet mask (option 1).
#[verifier::external_body]
pub(crate) fn put_subnet_mask(m: &mut Message, mask: u32) {
    m.opts_mut().insert(DhcpOption::SubnetMask(mask.into()));
}

/// Relies on dhcproto's `DhcpOptions::insert` of a router list (option 3).
#[verifier::external_body]
pub(crate) fn put_routers(m: &mut Message, ips: &Vec<u32>) {
    m.opts_mut().insert(DhcpOption::Router(ips.iter().map(|ip| (*ip).into()).collect()));
}

/// Relies on dhcproto's `DhcpOptions::insert` of a name server list (option 6).
#[verifier::external_body]
pub(crate) fn put_dns_servers(m: &mut Message, ips: &Vec<u32>) {
    m.opts_mut().insert(DhcpOption::DomainNameServer(ips.iter().map(|ip| (*ip).into()).collect()));
}

/// Relies on dhcproto's `DhcpOptions::insert` of a parameter request list
/// (option 55), from numeric option codes.
#[verifier::external_body]
pub(crate) fn put_parameter_requests(m: &mut Message, codes: &Vec<u8>) {
    m.opts_mut().insert(DhcpOption::ParameterRequestList(codes.iter().map(|c| OptionCode::from(*c)).collect()));
}

} // verus!
