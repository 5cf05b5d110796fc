//! Firewall configuration and how it is written to the blocklist tables.

use vstd::prelude::*;
use crate::tables::{BlockTable, ReplaceReport, drop_entries, replace_all};
use crate::text::{ipv4_text, parse_ipv4};
use crate::common::DROP_CODE;

verus! {

/// Addresses (dotted quads) and ports to block.
pub struct FirewallConfig {
    /// Source addresses dropped on ingress.
    pub blocked_ips: Vec<String>,
    /// Destination ports dropped on ingress.
    pub blocked_ports: Vec<u16>,
    /// Destination addresses dropped on egress.
    pub blocked_egress_ips: Vec<String>,
}

impl Default for FirewallConfig {
    fn default() -> (r: FirewallConfig)
        ensures
            r.blocked_ips@.len() == 0,
            r.blocked_ports@.len() == 0,
            r.blocked_egress_ips@.len() == 0,
    {
        FirewallConfig {
            blocked_ips: Vec::new(),
            blocked_ports: Vec::new(),
            blocked_egress_ips: Vec::new(),
        }
    }
}

pub open spec fn reads_as_ipv4(t: Seq<char>) -> bool {
    exists|ip: u32| ipv4_text(ip) == t
}

/// The addresses of the entries of `texts` that read as dotted quads, in order.
pub open spec fn readable_ips(texts: Seq<String>) -> Seq<u32>
    decreases texts.len(),
{
    if texts.len() == 0 {
        Seq::empty()
    } else {
        let rest = readable_ips(texts.drop_last());
        if reads_as_ipv4(texts.last()@) {
            rest.push(choose|ip: u32| ipv4_text(ip) == texts.last()@)
        } else {
            rest
        }
    }
}

/// The entries of `texts` that do not read as dotted quads, in order.
pub open spec fn unreadable(texts: Seq<String>) -> Seq<Seq<char>>
    decreases texts.len(),
{
    if texts.len() == 0 {
        Seq::empty()
    } else {
        let rest = unreadable(texts.drop_last());
        if reads_as_ipv4(texts.last()@) {
            rest
        } else {
            rest.push(texts.last()@)
        }
    }
}

pub open spec fn texts_of(v: Seq<String>) -> Seq<Seq<char>> {
    v.map_values(|s: String| s@)
}

/// Reads a list of dotted quads; returns the addresses and the entries that
/// did not read, each in order.
pub fn parse_ip_list(texts: &Vec<String>) -> (r: (Vec<u32>, Vec<String>))
    ensures
        r.0@ == readable_ips(texts@),
        texts_of(r.1@) == unreadable(texts@),
{
    let mut ips: Vec<u32> = Vec::new();
    let mut bad: Vec<String> = Vec::new();
    let mut i: usize = 0;
    while i < texts.len()
        invariant
            i <= texts@.len(),
            ips@ == readable_ips(texts@.subrange(0, i as int)),
            texts_of(bad@) == unreadable(texts@.subrange(0, i as int)),
        decreases texts@.len() - i,
    {
        proof {
            assert(texts@.subrange(0, i + 1).drop_last() =~= texts@.subrange(0, i as int));
            assert(texts@.subrange(0, i + 1).last() == texts@[i as int]);
        }
        let t = &texts[i];
        match parse_ipv4(t.as_str()) {
            Some(ip) => {
                proof {
                    let c = choose|c: u32| ipv4_text(c) == t@;
                    crate::text::lemma_ipv4_text_unique(ip, c);
                }
                ips.push(ip);
            },
            None => {
                let ghost before = bad@;
                bad.push(t.clone());
                proof {
                    assert(texts_of(bad@) =~= texts_of(before).push(t@));
                }
            },
        }
        i = i + 1;
    }
    proof {
        assert(texts@.subrange(0, texts@.len() as int) =~= texts@);
    }
    (ips, bad)
}

/// What applying a firewall configuration did to each table, and which
/// address entries were skipped because they did not read.
pub struct FirewallReport {
    pub skipped: Vec<String>,
    pub ingress_ips: ReplaceReport<u32>,
    pub ingress_ports: ReplaceReport<u16>,
    pub egress_ips: ReplaceReport<u32>,
}

/// Writes `config` to the three blocklist tables, each by `replace_all`.
/// Entries that are not dotted quads are skipped and reported; a table
/// failure skips the key and the rest goes on.
pub fn apply_firewall<A: BlockTable<u32>, P: BlockTable<u16>, E: BlockTable<u32>>(
    ingress_ips: &mut A,
    ingress_ports: &mut P,
    egress_ips: &mut E,
    config: &FirewallConfig,
) -> (r: FirewallReport)
    ensures
        texts_of(r.skipped@) == unreadable(config.blocked_ips@) + unreadable(
            config.blocked_egress_ips@,
        ),
        r.ingress_ips.cleared && r.ingress_ips.failed@.len() == 0 ==> final(ingress_ips).entries()
            == drop_entries(readable_ips(config.blocked_ips@)),
        r.ingress_ports.cleared && r.ingress_ports.failed@.len() == 0 ==> final(ingress_ports).entries() == drop_entries(config.blocked_ports@),
        r.egress_ips.cleared && r.egress_ips.failed@.len() == 0 ==> final(egress_ips).entries()
            == drop_entries(readable_ips(config.blocked_egress_ips@)),
        forall|k: u32|
            readable_ips(config.blocked_ips@).contains(k) && !r.ingress_ips.failed@.contains(k)
                ==> #[trigger] final(ingress_ips).entries().contains_key(k) && final(ingress_ips).entries()[k] == DROP_CODE,
        forall|k: u16|
            config.blocked_ports@.contains(k) && !r.ingress_ports.failed@.contains(k)
                ==> #[trigger] final(ingress_ports).entries().contains_key(k) && final(ingress_ports).entries()[k] == DROP_CODE,
        forall|k: u32|
            readable_ips(config.blocked_egress_ips@).contains(k) && !r.egress_ips.failed@.contains(
                k,
            ) ==> #[trigger] final(egress_ips).entries().contains_key(k) && final(egress_ips).entries()[k] == DROP_CODE,
        forall|k: u32|
            #[trigger] final(ingress_ips).entries().contains_key(k) ==> (old(ingress_ips).entries().contains_key(k)
                && final(ingress_ips).entries()[k] == old(ingress_ips).entries()[k]) || (readable_ips(config.blocked_ips@).contains(k)
                && final(ingress_ips).entries()[k] == DROP_CODE),
        forall|k: u16|
            #[trigger] final(ingress_ports).entries().contains_key(k) ==> (old(ingress_ports).entries().contains_key(k)
                && final(ingress_ports).entries()[k] == old(ingress_ports).entries()[k]) || (config.blocked_ports@.contains(k)
                && final(ingress_ports).entries()[k] == DROP_CODE),
        forall|k: u32|
            #[trigger] final(egress_ips).entries().contains_key(k) ==> (old(egress_ips).entries().contains_key(k)
                && final(egress_ips).entries()[k] == old(egress_ips).entries()[k]) || (readable_ips(config.blocked_egress_ips@).contains(k)
                && final(egress_ips).entries()[k] == DROP_CODE),
{
    let (ips, mut skipped) = parse_ip_list(&config.blocked_ips);
    let (egress, mut bad_egress) = parse_ip_list(&config.blocked_egress_ips);
    let ghost s1 = skipped@;
    let ghost s2 = bad_egress@;
    skipped.append(&mut bad_egress);
    proof {
        assert(texts_of(skipped@) =~= texts_of(s1) + texts_of(s2));
    }
    let ingress_report = replace_all(ingress_ips, &ips);
    let port_report = replace_all(ingress_ports, &config.blocked_ports);
    let egress_report = replace_all(egress_ips, &egress);
    FirewallReport {
        skipped,
        ingress_ips: ingress_report,
        ingress_ports: port_report,
        egress_ips: egress_report,
    }
}

} // verus!
