//! The decisions of the in-kernel filter programs, given what their tables
//! hold for a packet: the ingress filter checks the source address and the
//! transport destination port, the egress classifier the destination address.

use vstd::prelude::*;
use crate::common::{PacketAction, Stats, DROP_CODE, wrap64};

verus! {

#[derive(Clone, Copy, Debug, PartialEq, Eq, Structural)]
pub enum Transport {
    Tcp { dst_port: u16 },
    Udp { dst_port: u16 },
    Other,
}

/// The header fields the filters read; addresses in host byte order.
#[derive(Clone, Copy, Debug, PartialEq, Eq, Structural)]
pub struct PacketInfo {
    pub ipv4: bool,
    pub src_ip: u32,
    pub dst_ip: u32,
    pub transport: Transport,
}

/// The destination port of a TCP or UDP packet; 0 for anything else.
pub open spec fn port_of(p: PacketInfo) -> u16 {
    match p.transport {
        Transport::Tcp { dst_port } => dst_port,
        Transport::Udp { dst_port } => dst_port,
        Transport::Other => 0,
    }
}

pub fn dst_port(p: &PacketInfo) -> (r: u16)
    ensures
        r == port_of(*p),
{
    match p.transport {
        Transport::Tcp { dst_port } => dst_port,
        Transport::Udp { dst_port } => dst_port,
        Transport::Other => 0,
    }
}

/// A table slot that blocks.
pub open spec fn blocks(slot: Option<u32>) -> bool {
    slot == Some(DROP_CODE)
}

/// The ingress decision: an IPv4 packet is dropped when the address table
/// blocks its source, or it has a non-zero destination port that the port
/// table blocks; every other packet passes.
pub fn ingress_verdict(p: &PacketInfo, ip_slot: Option<u32>, port_slot: Option<u32>) -> (r: PacketAction)
    ensures
        r == PacketAction::Drop <==> p.ipv4 && (blocks(ip_slot) || (port_of(*p) != 0 && blocks(
            port_slot,
        ))),
{
    if !p.ipv4 {
        return PacketAction::Pass;
    }
    if ip_slot == Some(DROP_CODE) {
        return PacketAction::Drop;
    }
    let port = dst_port(p);
    if port != 0 && port_slot == Some(DROP_CODE) {
        return PacketAction::Drop;
    }
    PacketAction::Pass
}

/// The egress decision: an IPv4 packet whose destination the egress table
/// blocks is dropped.
pub fn egress_verdict(p: &PacketInfo, dst_slot: Option<u32>) -> (r: PacketAction)
    ensures
        r == PacketAction::Drop <==> p.ipv4 && blocks(dst_slot),
{
    if p.ipv4 && dst_slot == Some(DROP_CODE) {
        PacketAction::Drop
    } else {
        PacketAction::Pass
    }
}

/// Counts a packet as the ingress program does: every packet in the total,
/// drops as dropped, IPv4 packets that pass as passed.
pub fn count_ingress(stats: &mut Stats, p: &PacketInfo, action: PacketAction)
    ensures
        final(stats).packets_total == wrap64(old(stats).packets_total + 1),
        final(stats).packets_dropped == wrap64(
            old(stats).packets_dropped + if action == PacketAction::Drop {
                1int
            } else {
                0
            },
        ),
        final(stats).packets_passed == wrap64(
            old(stats).packets_passed + if action == PacketAction::Pass && p.ipv4 {
                1int
            } else {
                0
            },
        ),
{
    if action == PacketAction::Drop || p.ipv4 {
        stats.count(action);
    } else {
        stats.packets_total = stats.packets_total.wrapping_add(1);
    }
}


/// The counters after counting `fed` in order, as `count_ingress` does, from `s`.
pub open spec fn counted(s: Stats, fed: Seq<(PacketInfo, PacketAction)>) -> Stats
    decreases fed.len(),
{
    if fed.len() == 0 {
        s
    } else {
        let before = counted(s, fed.drop_last());
        let (p, a) = fed.last();
        Stats {
            packets_total: wrap64(before.packets_total + 1),
            packets_passed: wrap64(
                before.packets_passed + if a == PacketAction::Pass && p.ipv4 {
                    1int
                } else {
                    0
                },
            ),
            packets_dropped: wrap64(
                before.packets_dropped + if a == PacketAction::Drop {
                    1int
                } else {
                    0
                },
            ),
        }
    }
}

/// Fed from zeroed counters, fewer than 2^64 packets leave the total equal
/// to their number, and passed plus dropped at most that.
pub proof fn lemma_feed_counts(fed: Seq<(PacketInfo, PacketAction)>)
    requires
        fed.len() < 0x1_0000_0000_0000_0000int,
    ensures
        ({
            let c = counted(Stats { packets_total: 0, packets_passed: 0, packets_dropped: 0 }, fed);
            &&& c.packets_total == fed.len()
            &&& c.packets_passed + c.packets_dropped <= fed.len()
        }),
    decreases fed.len(),
{
    if fed.len() > 0 {
        lemma_feed_counts(fed.drop_last());
    }
}

/// Counts a sequence of packets and their actions on one CPU's counters.
pub fn count_all(stats: &mut Stats, fed: &Vec<(PacketInfo, PacketAction)>)
    ensures
        *final(stats) == counted(*old(stats), fed@),
{
    let mut i: usize = 0;
    while i < fed.len()
        invariant
            i <= fed@.len(),
            *stats == counted(*old(stats), fed@.subrange(0, i as int)),
        decreases fed@.len() - i,
    {
        proof {
            assert(fed@.subrange(0, i + 1).drop_last() =~= fed@.subrange(0, i as int));
        }
        let (p, a) = fed[i];
        count_ingress(stats, &p, a);
        i = i + 1;
    }
    proof {
        assert(fed@.subrange(0, fed@.len() as int) =~= fed@);
    }
}
} // verus!
