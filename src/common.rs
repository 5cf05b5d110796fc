//! Values shared with the in-kernel filter: the packet action stored in every
//! table slot, and the per-CPU packet counters.

use vstd::prelude::*;
use vstd::arithmetic::div_mod::{lemma_add_mod_noop, lemma_small_mod, lemma_mod_twice};

verus! {

/// Action stored in a blocklist slot; the kernel reads `Pass` as 0 and `Drop` as 1.
#[derive(Clone, Copy, Debug, PartialEq, Eq, Structural)]
pub enum PacketAction {
    Pass,
    Drop,
}

pub open spec fn action_of(v: u32) -> PacketAction {
    if v == 1 {
        PacketAction::Drop
    } else {
        PacketAction::Pass
    }
}

pub open spec fn action_code(a: PacketAction) -> u32 {
    match a {
        PacketAction::Pass => 0,
        PacketAction::Drop => 1,
    }
}

/// The slot value that blocks a key.
pub const DROP_CODE: u32 = 1;

impl PacketAction {
    /// The value the kernel stores for this action.
    pub fn code(self) -> (r: u32)
        ensures
            r == action_code(self),
    {
        match self {
            PacketAction::Pass => 0,
            PacketAction::Drop => 1,
        }
    }
}

impl From<u32> for PacketAction {
    fn from(v: u32) -> (r: PacketAction) {
        if v == 1 {
            PacketAction::Drop
        } else {
            PacketAction::Pass
        }
    }
}

impl vstd::std_specs::convert::FromSpecImpl<u32> for PacketAction {
    open spec fn obeys_from_spec() -> bool {
        true
    }

    open spec fn from_spec(v: u32) -> PacketAction {
        action_of(v)
    }
}

/// Packet counters of one CPU.
#[derive(Clone, Copy, Debug)]
pub struct Stats {
    pub packets_total: u64,
    pub packets_passed: u64,
    pub packets_dropped: u64,
}

impl Default for Stats {
    fn default() -> (r: Stats)
        ensures
            r.packets_total == 0 && r.packets_passed == 0 && r.packets_dropped == 0,
    {
        Stats { packets_total: 0, packets_passed: 0, packets_dropped: 0 }
    }
}

pub open spec fn wrap64(x: int) -> u64 {
    (x % 0x1_0000_0000_0000_0000) as u64
}

pub open spec fn total_sum(s: Seq<Stats>) -> int
    decreases s.len(),
{
    if s.len() == 0 {
        0
    } else {
        total_sum(s.drop_last()) + s.last().packets_total
    }
}

pub open spec fn passed_sum(s: Seq<Stats>) -> int
    decreases s.len(),
{
    if s.len() == 0 {
        0
    } else {
        passed_sum(s.drop_last()) + s.last().packets_passed
    }
}

pub open spec fn dropped_sum(s: Seq<Stats>) -> int
    decreases s.len(),
{
    if s.len() == 0 {
        0
    } else {
        dropped_sum(s.drop_last()) + s.last().packets_dropped
    }
}

/// Sums per-CPU counters field by field, wrapping at 2^64.
pub fn sum_stats(per_cpu: &Vec<Stats>) -> (r: Stats)
    ensures
        r.packets_total == wrap64(total_sum(per_cpu@)),
        r.packets_passed == wrap64(passed_sum(per_cpu@)),
        r.packets_dropped == wrap64(dropped_sum(per_cpu@)),
{
    let mut total = Stats { packets_total: 0, packets_passed: 0, packets_dropped: 0 };
    let mut i: usize = 0;
    while i < per_cpu.len()
        invariant
            i <= per_cpu@.len(),
            total.packets_total == wrap64(total_sum(per_cpu@.subrange(0, i as int))),
            total.packets_passed == wrap64(passed_sum(per_cpu@.subrange(0, i as int))),
            total.packets_dropped == wrap64(dropped_sum(per_cpu@.subrange(0, i as int))),
        decreases per_cpu@.len() - i,
    {
        let c = per_cpu[i];
        proof {
            let next = per_cpu@.subrange(0, i + 1);
            assert(next.drop_last() =~= per_cpu@.subrange(0, i as int));
            assert(next.last() == c);
            lemma_wrap_add(total_sum(per_cpu@.subrange(0, i as int)), c.packets_total as int);
            lemma_wrap_add(passed_sum(per_cpu@.subrange(0, i as int)), c.packets_passed as int);
            lemma_wrap_add(dropped_sum(per_cpu@.subrange(0, i as int)), c.packets_dropped as int);
        }
        total.packets_total = total.packets_total.wrapping_add(c.packets_total);
        total.packets_passed = total.packets_passed.wrapping_add(c.packets_passed);
        total.packets_dropped = total.packets_dropped.wrapping_add(c.packets_dropped);
        i = i + 1;
    }
    proof {
        assert(per_cpu@.subrange(0, per_cpu@.len() as int) =~= per_cpu@);
    }
    total
}

proof fn lemma_wrap_add(a: int, b: int)
    requires
        0 <= b < 0x1_0000_0000_0000_0000int,
    ensures
        wrap64(a + b) == wrap64(wrap64(a) + b),
{
    let m = 0x1_0000_0000_0000_0000int;
    lemma_add_mod_noop(a, b, m);
    lemma_small_mod(b as nat, m as nat);
    lemma_add_mod_noop(a % m, b, m);
    lemma_mod_twice(a, m);
}


impl Stats {
    /// Counts one packet and the action taken on it, as the ingress filter does.
    pub fn count(&mut self, action: PacketAction)
        ensures
            final(self).packets_total == wrap64(old(self).packets_total + 1),
            final(self).packets_passed == wrap64(
                old(self).packets_passed + if action == PacketAction::Pass {
                    1int
                } else {
                    0
                },
            ),
            final(self).packets_dropped == wrap64(
                old(self).packets_dropped + if action == PacketAction::Drop {
                    1int
                } else {
                    0
                },
            ),
    {
        self.packets_total = self.packets_total.wrapping_add(1);
        match action {
            PacketAction::Pass => {
                self.packets_passed = self.packets_passed.wrapping_add(1);
            },
            PacketAction::Drop => {
                self.packets_dropped = self.packets_dropped.wrapping_add(1);
            },
        }
    }
}

pub open spec fn is_zero(s: Stats) -> bool {
    s.packets_total == 0 && s.packets_passed == 0 && s.packets_dropped == 0
}

/// When only one CPU has counted, the sums over all CPUs are that CPU's counters.
pub proof fn lemma_sum_single_cpu(s: Seq<Stats>, c: int)
    requires
        0 <= c < s.len(),
        forall|j: int| 0 <= j < s.len() && j != c ==> is_zero(#[trigger] s[j]),
    ensures
        total_sum(s) == s[c].packets_total,
        passed_sum(s) == s[c].packets_passed,
        dropped_sum(s) == s[c].packets_dropped,
    decreases s.len(),
{
    if c == s.len() - 1 {
        lemma_sum_zero(s.drop_last());
    } else {
        lemma_sum_single_cpu(s.drop_last(), c);
    }
}

proof fn lemma_sum_zero(s: Seq<Stats>)
    requires
        forall|j: int| 0 <= j < s.len() ==> is_zero(#[trigger] s[j]),
    ensures
        total_sum(s) == 0,
        passed_sum(s) == 0,
        dropped_sum(s) == 0,
    decreases s.len(),
{
    if s.len() > 0 {
        lemma_sum_zero(s.drop_last());
    }
}

} // verus!
