//! What applying a DHCP lease to the WAN interface consists of: the commands
//! to run and the resolver file to write. Running and writing are the caller's.

use vstd::prelude::*;
use crate::dhcp_client::DhcpLease;
use crate::text::{ipv4_text, push_ipv4};
use crate::uci::{decimal_text, push_decimal};

verus! {

/// Number of set bits among the `k` lowest bits of `x`.
pub open spec fn ones_below(x: u32, k: nat) -> nat
    decreases k,
{
    if k == 0 {
        0
    } else {
        ones_below(x, (k - 1) as nat) + ((x >> ((k - 1) as u32)) & 1u32) as nat
    }
}

/// Number of set bits of `x`.
pub open spec fn ones(x: u32) -> nat {
    ones_below(x, 32)
}

/// Prefix length of a netmask: the number of its set bits.
pub fn prefix_len(mask: u32) -> (r: u32)
    ensures
        r == ones(mask),
{
    let mut n: u32 = 0;
    let mut i: u32 = 0;
    while i < 32
        invariant
            i <= 32,
            n == ones_below(mask, i as nat),
            n <= i,
        decreases 32 - i,
    {
        let bit = (mask >> i) & 1u32;
        assert(bit <= 1) by (bit_vector)
            requires
                bit == (mask >> i) & 1u32,
        ;
        n = n + bit;
        i = i + 1;
    }
    n
}

/// The resolver file: one `nameserver` line per server.
pub open spec fn resolv_text(dns: Seq<u32>) -> Seq<char>
    decreases dns.len(),
{
    if dns.len() == 0 {
        Seq::empty()
    } else {
        resolv_text(dns.drop_last()) + "nameserver "@ + ipv4_text(dns.last()) + "\n"@
    }
}

pub fn resolv_conf(dns: &Vec<u32>) -> (r: String)
    ensures
        r@ == resolv_text(dns@),
{
    let mut out = String::new();
    let mut i: usize = 0;
    while i < dns.len()
        invariant
            i <= dns@.len(),
            out@ == resolv_text(dns@.subrange(0, i as int)),
        decreases dns@.len() - i,
    {
        proof {
            assert(dns@.subrange(0, i + 1).drop_last() =~= dns@.subrange(0, i as int));
        }
        out.append("nameserver ");
        push_ipv4(&mut out, dns[i]);
        out.append("\n");
        proof {
            assert(out@ =~= resolv_text(dns@.subrange(0, i + 1)));
        }
        i = i + 1;
    }
    proof {
        assert(dns@.subrange(0, dns@.len() as int) =~= dns@);
    }
    out
}

/// A command line to run; when `fatal`, its failure fails the whole step.
pub struct NetCommand {
    pub args: Vec<String>,
    pub fatal: bool,
}

pub open spec fn texts(v: Seq<String>) -> Seq<Seq<char>> {
    v.map_values(|s: String| s@)
}

pub open spec fn args_of(c: &NetCommand) -> Seq<Seq<char>> {
    texts(c.args@)
}

fn push_arg(v: &mut Vec<String>, s: &str)
    ensures
        texts(final(v)@) == texts(old(v)@).push(s@),
{
    v.push(String::from_str(s));
    assert(texts(final(v)@) =~= texts(old(v)@).push(s@));
}

fn push_owned(v: &mut Vec<String>, s: String)
    ensures
        texts(final(v)@) == texts(old(v)@).push(s@),
{
    let ghost t = s@;
    v.push(s);
    assert(texts(final(v)@) =~= texts(old(v)@).push(t));
}

/// `<ip>/<prefix>`.
pub open spec fn cidr_text(ip: u32, mask: u32) -> Seq<char> {
    ipv4_text(ip) + "/"@ + decimal_text(ones(mask))
}

/// The commands that put a lease on `interface`: flush its addresses and add
/// the leased one (both fatal); with a gateway, delete the default route
/// (its failure ignored) and add the new one (not fatal).
pub fn lease_commands(interface: &str, lease: &DhcpLease) -> (r: Vec<NetCommand>)
    ensures
        r@.len() == (if lease.gateway.is_some() { 4int } else { 2 }),
        args_of(&r@[0]) == seq!["ip"@, "addr"@, "flush"@, "dev"@, interface@],
        r@[0].fatal,
        args_of(&r@[1]) == seq!["ip"@, "addr"@, "add"@, cidr_text(lease.ip, lease.netmask), "dev"@, interface@],
        r@[1].fatal,
        lease.gateway.is_some() ==> args_of(&r@[2]) == seq!["ip"@, "route"@, "del"@, "default"@] && !r@[2].fatal,
        lease.gateway.is_some() ==> args_of(&r@[3]) == seq!["ip"@, "route"@, "add"@, "default"@, "via"@, ipv4_text(lease.gateway.unwrap()), "dev"@, interface@] && !r@[3].fatal,
{
    let mut out: Vec<NetCommand> = Vec::new();
    let mut flush: Vec<String> = Vec::new();
    push_arg(&mut flush, "ip");
    push_arg(&mut flush, "addr");
    push_arg(&mut flush, "flush");
    push_arg(&mut flush, "dev");
    push_arg(&mut flush, interface);
    proof {
        assert(texts(flush@) =~= seq!["ip"@, "addr"@, "flush"@, "dev"@, interface@]);
    }
    out.push(NetCommand { args: flush, fatal: true });
    let mut cidr = String::new();
    push_ipv4(&mut cidr, lease.ip);
    cidr.append("/");
    push_decimal(&mut cidr, prefix_len(lease.netmask) as u64);
    proof {
        assert(cidr@ =~= cidr_text(lease.ip, lease.netmask));
    }
    let mut add: Vec<String> = Vec::new();
    push_arg(&mut add, "ip");
    push_arg(&mut add, "addr");
    push_arg(&mut add, "add");
    push_owned(&mut add, cidr);
    push_arg(&mut add, "dev");
    push_arg(&mut add, interface);
    proof {
        assert(texts(add@) =~= seq!["ip"@, "addr"@, "add"@, cidr_text(lease.ip, lease.netmask), "dev"@, interface@]);
    }
    out.push(NetCommand { args: add, fatal: true });
    if let Some(gw) = lease.gateway {
        let mut del: Vec<String> = Vec::new();
        push_arg(&mut del, "ip");
        push_arg(&mut del, "route");
        push_arg(&mut del, "del");
        push_arg(&mut del, "default");
        proof {
            assert(texts(del@) =~= seq!["ip"@, "route"@, "del"@, "default"@]);
        }
        out.push(NetCommand { args: del, fatal: false });
        let mut route: Vec<String> = Vec::new();
        push_arg(&mut route, "ip");
        push_arg(&mut route, "route");
        push_arg(&mut route, "add");
        push_arg(&mut route, "default");
        push_arg(&mut route, "via");
        push_owned(&mut route, crate::text::format_ipv4(gw));
        push_arg(&mut route, "dev");
        push_arg(&mut route, interface);
        proof {
            assert(texts(route@) =~= seq!["ip"@, "route"@, "add"@, "default"@, "via"@, ipv4_text(gw), "dev"@, interface@]);
        }
        out.push(NetCommand { args: route, fatal: false });
    }
    out
}

} // verus!
