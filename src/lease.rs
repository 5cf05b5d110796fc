//! The lease database: static bindings, dynamic allocation from a pool,
//! hostname lookup, and the journal records it is saved to and loaded from.

use vstd::prelude::*;
use crate::text::{
    all_digits, decimal_value, is_digit, parse_mac, parse_ipv4, format_mac, format_ipv4, mac_text, ipv4_text, mac_matches, lemma_mac_unique, lemma_ipv4_text_unique, lemma_mac_text_matches, eq_ignore_case, mac_limit, parse_decimal, str_eq_ignore_case,
};

verus! {

/// What a lease holds, with its hostname as text.
pub ghost struct LeaseView {
    pub mac: u64,
    pub ip: u32,
    pub hostname: Option<Seq<char>>,
    pub expires_at: u64,
}

/// What a static binding holds.
pub ghost struct BindingView {
    pub mac: u64,
    pub ip: u32,
    pub hostname: Option<Seq<char>>,
}

pub open spec fn text_of(h: Option<String>) -> Option<Seq<char>> {
    match h {
        Some(s) => Some(s@),
        None => None,
    }
}

/// A binding of a client MAC (low 48 bits) to an IPv4 address (host byte
/// order) until `expires_at` (seconds since the epoch).
pub struct Lease {
    pub mac: u64,
    pub ip: u32,
    pub hostname: Option<String>,
    pub expires_at: u64,
}

impl View for Lease {
    type V = LeaseView;

    open spec fn view(&self) -> LeaseView {
        LeaseView {
            mac: self.mac,
            ip: self.ip,
            hostname: text_of(self.hostname),
            expires_at: self.expires_at,
        }
    }
}

pub fn clone_text(h: &Option<String>) -> (r: Option<String>)
    ensures
        text_of(r) == text_of(*h),
{
    match h {
        Some(s) => Some(s.clone()),
        None => None,
    }
}

impl Lease {
    /// A copy of this lease.
    pub fn duplicate(&self) -> (r: Lease)
        ensures
            r@ == self@,
    {
        Lease {
            mac: self.mac,
            ip: self.ip,
            hostname: clone_text(&self.hostname),
            expires_at: self.expires_at,
        }
    }
}

/// A MAC address permanently bound to an IPv4 address.
pub struct StaticBinding {
    pub mac: u64,
    pub ip: u32,
    pub hostname: Option<String>,
}

impl View for StaticBinding {
    type V = BindingView;

    open spec fn view(&self) -> BindingView {
        BindingView { mac: self.mac, ip: self.ip, hostname: text_of(self.hostname) }
    }
}

/// A static lease as the configuration writes it.
pub struct StaticLease {
    pub mac: String,
    pub ip: u32,
    pub hostname: Option<String>,
}

/// The dynamic pool: an inclusive address range and a lease time such as `12h`.
pub struct PoolConfig {
    pub start: u32,
    pub end: u32,
    pub lease_time: String,
}

pub open spec fn sat_add(a: u64, b: u64) -> u64 {
    if a + b <= u64::MAX {
        (a + b) as u64
    } else {
        u64::MAX
    }
}

/// Lease duration in seconds for a text `<N>h`, `<N>m`, `<N>s` or `<N>`;
/// one hour for anything else or for a value that does not fit.
pub open spec fn duration_of(s: Seq<char>) -> u64 {
    let body = s.drop_last();
    if s.len() > 0 && s.last() == 'h' && all_digits(body) && decimal_value(body) * 3600
        <= u64::MAX {
        (decimal_value(body) * 3600) as u64
    } else if s.len() > 0 && s.last() == 'm' && all_digits(body) && decimal_value(body) * 60
        <= u64::MAX {
        (decimal_value(body) * 60) as u64
    } else if s.len() > 0 && s.last() == 's' && all_digits(body) && decimal_value(body)
        <= u64::MAX {
        decimal_value(body) as u64
    } else if all_digits(s) && decimal_value(s) <= u64::MAX {
        decimal_value(s) as u64
    } else {
        3600
    }
}

/// Parses a lease time; see `duration_of`.
pub fn parse_duration(s: &str) -> (r: u64)
    ensures
        r == duration_of(s@),
{
    let n = s.unicode_len();
    let ghost body = s@.drop_last();
    if n > 0 {
        let last = s.get_char(n - 1);
        proof {
            assert(s@.subrange(0, n - 1) =~= body);
        }
        if last == 'h' || last == 'm' || last == 's' {
            let v = parse_decimal(s, 0, n - 1);
            if let Some(v) = v {
                if last == 'h' && v <= u64::MAX / 3600 {
                    return v * 3600;
                }
                if last == 'm' && v <= u64::MAX / 60 {
                    return v * 60;
                }
                if last == 's' {
                    return v;
                }
            }
        }
    }
    let v = parse_decimal(s, 0, n);
    proof {
        assert(s@.subrange(0, n as int) =~= s@);
        if n > 0 && all_digits(s@) {
            assert(is_digit(s@.last()));
        }
    }
    match v {
        Some(v) => v,
        None => 3600,
    }
}



pub open spec fn lease_view(r: Option<Lease>) -> Option<LeaseView> {
    match r {
        Some(l) => Some(l@),
        None => None,
    }
}

/// No two bindings share a MAC or an address.
pub open spec fn distinct_bindings(b: Seq<BindingView>) -> bool {
    forall|i: int, j: int|
        0 <= i < b.len() && 0 <= j < b.len() && i != j ==> b[i].mac != b[j].mac && b[i].ip
            != b[j].ip
}

/// The static bindings a configuration gives, entry by entry: an entry whose
/// MAC does not read is left out; one whose address is already bound to
/// another MAC is left out; otherwise it replaces the binding of its MAC, or
/// is added.
pub open spec fn bindings_from(config: Seq<StaticLease>) -> Seq<BindingView>
    decreases config.len(),
{
    if config.len() == 0 {
        Seq::empty()
    } else {
        let prev = bindings_from(config.drop_last());
        let e = config.last();
        if exists|m: u64| parsed_mac(e.mac@, m) {
            let m = choose|m: u64| parsed_mac(e.mac@, m);
            let b = BindingView { mac: m, ip: e.ip, hostname: text_of(e.hostname) };
            if exists|i: int| 0 <= i < prev.len() && prev[i].ip == e.ip && prev[i].mac != m {
                prev
            } else if exists|i: int| 0 <= i < prev.len() && prev[i].mac == m {
                prev.update(choose|i: int| 0 <= i < prev.len() && prev[i].mac == m, b)
            } else {
                prev.push(b)
            }
        } else {
            prev
        }
    }
}

/// `t` reads as the 48-bit MAC address `m`.
pub open spec fn parsed_mac(t: Seq<char>, m: u64) -> bool {
    m < mac_limit() && mac_matches(t, m)
}

/// Removes the entry with MAC `mac`, if any.
pub open spec fn without_mac(s: Seq<LeaseView>, mac: u64) -> Seq<LeaseView> {
    if exists|i: int| 0 <= i < s.len() && s[i].mac == mac {
        s.remove(choose|i: int| 0 <= i < s.len() && s[i].mac == mac)
    } else {
        s
    }
}

/// Removes the entry for address `ip`, if any.
pub open spec fn without_ip(s: Seq<LeaseView>, ip: u32) -> Seq<LeaseView> {
    if exists|i: int| 0 <= i < s.len() && s[i].ip == ip {
        s.remove(choose|i: int| 0 <= i < s.len() && s[i].ip == ip)
    } else {
        s
    }
}

/// `l` takes the place of whatever lease held its MAC or its address.
pub open spec fn upsert(s: Seq<LeaseView>, l: LeaseView) -> Seq<LeaseView> {
    without_ip(without_mac(s, l.mac), l.ip).push(l)
}

pub open spec fn distinct_keys(s: Seq<LeaseView>) -> bool {
    forall|i: int, j: int|
        0 <= i < s.len() && 0 <= j < s.len() && i != j ==> s[i].mac != s[j].mac && s[i].ip
            != s[j].ip
}

/// The lease database. Leases are kept one per MAC and one per address.
pub struct LeaseDatabase {
    leases: Vec<Lease>,
    statics: Vec<StaticBinding>,
    pool_start: u32,
    pool_end: u32,
    duration: u64,
}

impl LeaseDatabase {
    /// The stored leases, valid or not.
    pub closed spec fn records(&self) -> Seq<LeaseView> {
        self.leases@.map_values(|l: Lease| l@)
    }

    /// The static bindings, one per MAC.
    pub closed spec fn bindings(&self) -> Seq<BindingView> {
        self.statics@.map_values(|b: StaticBinding| b@)
    }

    pub closed spec fn pool_start(&self) -> u32 {
        self.pool_start
    }

    pub closed spec fn pool_end(&self) -> u32 {
        self.pool_end
    }

    /// Lease duration in seconds.
    pub closed spec fn duration(&self) -> u64 {
        self.duration
    }

    pub open spec fn has_static(&self, mac: u64) -> bool {
        exists|i: int| 0 <= i < self.bindings().len() && self.bindings()[i].mac == mac
    }

    pub open spec fn static_binding(&self, mac: u64) -> BindingView {
        self.bindings()[choose|i: int|
            0 <= i < self.bindings().len() && self.bindings()[i].mac == mac]
    }

    pub open spec fn is_static_ip(&self, ip: u32) -> bool {
        exists|i: int| 0 <= i < self.bindings().len() && self.bindings()[i].ip == ip
    }

    pub open spec fn has_lease(&self, mac: u64) -> bool {
        exists|i: int| 0 <= i < self.records().len() && self.records()[i].mac == mac
    }

    pub open spec fn lease_of(&self, mac: u64) -> LeaseView {
        self.records()[choose|i: int|
            0 <= i < self.records().len() && self.records()[i].mac == mac]
    }

    /// A lease is valid while it has not expired; one of a static MAC always is.
    pub open spec fn is_valid(&self, l: LeaseView, now: u64) -> bool {
        self.has_static(l.mac) || l.expires_at > now
    }

    pub open spec fn in_pool(&self, ip: u32) -> bool {
        self.pool_start() <= ip <= self.pool_end()
    }

    /// Another MAC holds `ip` under a lease that has not expired.
    pub open spec fn held_by_other(&self, ip: u32, mac: u64, now: u64) -> bool {
        exists|i: int|
            0 <= i < self.records().len() && self.records()[i].ip == ip && self.records()[i].mac
                != mac && #[trigger] self.is_valid(self.records()[i], now)
    }

    /// `ip` may be handed to `mac` from the pool.
    pub open spec fn is_free(&self, ip: u32, mac: u64, now: u64) -> bool {
        self.in_pool(ip) && !self.is_static_ip(ip) && !self.held_by_other(ip, mac, now)
    }

    pub open spec fn is_first_free(&self, ip: u32, mac: u64, now: u64) -> bool {
        self.is_free(ip, mac, now) && forall|j: u32|
            self.pool_start() <= j < ip ==> !#[trigger] self.is_free(j, mac, now)
    }

    pub open spec fn has_free(&self, mac: u64, now: u64) -> bool {
        exists|ip: u32| self.is_free(ip, mac, now)
    }

    /// The lease that `allocate_ip` hands out, by the first rule that applies:
    /// the static binding, the MAC's own unexpired lease, the requested
    /// address, the lowest free address of the pool; else none.
    pub open spec fn allocation(&self, mac: u64, requested: Option<u32>, now: u64) -> Option<
        LeaseView,
    > {
        let expires_at = sat_add(now, self.duration());
        if self.has_static(mac) {
            let b = self.static_binding(mac);
            Some(LeaseView { mac, ip: b.ip, hostname: b.hostname, expires_at })
        } else if self.has_lease(mac) && self.lease_of(mac).expires_at > now {
            let l = self.lease_of(mac);
            Some(LeaseView { expires_at, ..l })
        } else if requested.is_some() && self.is_free(requested.unwrap(), mac, now) {
            Some(LeaseView { mac, ip: requested.unwrap(), hostname: None, expires_at })
        } else if self.has_free(mac, now) {
            let ip = choose|ip: u32| self.is_first_free(ip, mac, now);
            Some(LeaseView { mac, ip, hostname: None, expires_at })
        } else {
            None
        }
    }

    /// The current lease of `mac`: its stored lease while valid, else its
    /// static binding (which never expires).
    pub open spec fn current_lease(&self, mac: u64, now: u64) -> Option<LeaseView> {
        if self.has_lease(mac) && self.is_valid(self.lease_of(mac), now) {
            Some(self.lease_of(mac))
        } else if self.has_static(mac) {
            let b = self.static_binding(mac);
            Some(LeaseView { mac, ip: b.ip, hostname: b.hostname, expires_at: u64::MAX })
        } else {
            None
        }
    }

    /// The conditions every stored lease sequence meets.
    pub closed spec fn records_ok(&self, r: Seq<LeaseView>) -> bool {
        &&& distinct_keys(r)
        &&& forall|i: int| 0 <= i < r.len() ==> #[trigger] r[i].mac < mac_limit()
        &&& forall|i: int|
            0 <= i < r.len() && self.has_static(#[trigger] r[i].mac) ==> r[i].ip
                == self.static_binding(r[i].mac).ip
        &&& forall|i: int|
            0 <= i < r.len() && !self.has_static(#[trigger] r[i].mac) ==> !self.is_static_ip(
                r[i].ip,
            )
    }

    pub closed spec fn wf(&self) -> bool {
        &&& distinct_bindings(self.bindings())
        &&& self.records_ok(self.records())
    }

    proof fn lemma_remove_ok(&self, r: Seq<LeaseView>, i: int)
        requires
            self.records_ok(r),
            0 <= i < r.len(),
        ensures
            self.records_ok(r.remove(i)),
            forall|j: int| 0 <= j < r.remove(i).len() ==> r.remove(i)[j].mac != r[i].mac && r.remove(i)[j].ip != r[i].ip,
    {
        let t = r.remove(i);
        assert forall|a: int, b: int|
            0 <= a < t.len() && 0 <= b < t.len() && a != b implies t[a].mac != t[b].mac && t[a].ip
            != t[b].ip by {
            let a0 = if a < i { a } else { a + 1 };
            let b0 = if b < i { b } else { b + 1 };
            assert(t[a] == r[a0] && t[b] == r[b0]);
        }
        assert forall|j: int| 0 <= j < t.len() implies #[trigger] t[j].mac < mac_limit() by {
            let j0 = if j < i { j } else { j + 1 };
            assert(t[j] == r[j0]);
        }
        assert forall|j: int| 0 <= j < t.len() && self.has_static(#[trigger] t[j].mac) implies t[j].ip
            == self.static_binding(t[j].mac).ip by {
            let j0 = if j < i { j } else { j + 1 };
            assert(t[j] == r[j0]);
        }
        assert forall|j: int| 0 <= j < t.len() && !self.has_static(#[trigger] t[j].mac) implies !self.is_static_ip(t[j].ip) by {
            let j0 = if j < i { j } else { j + 1 };
            assert(t[j] == r[j0]);
        }
        assert forall|j: int| 0 <= j < t.len() implies t[j].mac != r[i].mac && t[j].ip != r[i].ip by {
            let j0 = if j < i { j } else { j + 1 };
            assert(t[j] == r[j0]);
        }
    }

    proof fn lemma_push_ok(&self, r: Seq<LeaseView>, l: LeaseView)
        requires
            self.records_ok(r),
            forall|j: int| 0 <= j < r.len() ==> r[j].mac != l.mac && r[j].ip != l.ip,
            l.mac < mac_limit(),
            self.has_static(l.mac) ==> l.ip == self.static_binding(l.mac).ip,
            !self.has_static(l.mac) ==> !self.is_static_ip(l.ip),
        ensures
            self.records_ok(r.push(l)),
    {
        let t = r.push(l);
        assert forall|j: int| 0 <= j < t.len() implies #[trigger] t[j].mac < mac_limit() by {
            if j < r.len() {
                assert(t[j] == r[j]);
            }
        }
        assert forall|j: int| 0 <= j < t.len() && self.has_static(#[trigger] t[j].mac) implies t[j].ip
            == self.static_binding(t[j].mac).ip by {
            if j < r.len() {
                assert(t[j] == r[j]);
            }
        }
        assert forall|j: int| 0 <= j < t.len() && !self.has_static(#[trigger] t[j].mac) implies !self.is_static_ip(t[j].ip) by {
            if j < r.len() {
                assert(t[j] == r[j]);
            }
        }
    }

    fn find_static(&self, mac: u64) -> (r: Option<usize>)
        ensures
            r.is_some() ==> r.unwrap() < self.bindings().len() && self.bindings()[r.unwrap() as int].mac
                == mac,
            r.is_none() ==> !self.has_static(mac),
    {
        let mut i: usize = 0;
        while i < self.statics.len()
            invariant
                i <= self.statics@.len(),
                forall|j: int| 0 <= j < i ==> self.bindings()[j].mac != mac,
            decreases self.statics@.len() - i,
        {
            if self.statics[i].mac == mac {
                return Some(i);
            }
            i = i + 1;
        }
        None
    }

    fn static_ip_taken(&self, ip: u32) -> (r: bool)
        ensures
            r == self.is_static_ip(ip),
    {
        let mut i: usize = 0;
        while i < self.statics.len()
            invariant
                i <= self.statics@.len(),
                forall|j: int| 0 <= j < i ==> self.bindings()[j].ip != ip,
            decreases self.statics@.len() - i,
        {
            if self.statics[i].ip == ip {
                assert(self.bindings()[i as int] == self.statics@[i as int]@);
                return true;
            }
            i = i + 1;
        }
        false
    }

    fn find_by_mac(&self, mac: u64) -> (r: Option<usize>)
        ensures
            r.is_some() ==> r.unwrap() < self.records().len() && self.records()[r.unwrap() as int].mac
                == mac,
            r.is_none() ==> !self.has_lease(mac),
    {
        let mut i: usize = 0;
        while i < self.leases.len()
            invariant
                i <= self.leases@.len(),
                forall|j: int| 0 <= j < i ==> self.records()[j].mac != mac,
            decreases self.leases@.len() - i,
        {
            if self.leases[i].mac == mac {
                return Some(i);
            }
            i = i + 1;
        }
        None
    }

    fn find_by_ip(&self, ip: u32) -> (r: Option<usize>)
        ensures
            r.is_some() ==> r.unwrap() < self.records().len() && self.records()[r.unwrap() as int].ip
                == ip,
            r.is_none() ==> forall|j: int| 0 <= j < self.records().len() ==> self.records()[j].ip != ip,
    {
        let mut i: usize = 0;
        while i < self.leases.len()
            invariant
                i <= self.leases@.len(),
                forall|j: int| 0 <= j < i ==> self.records()[j].ip != ip,
            decreases self.leases@.len() - i,
        {
            if self.leases[i].ip == ip {
                return Some(i);
            }
            i = i + 1;
        }
        None
    }

    fn valid_exec(&self, l: &Lease, now: u64) -> (r: bool)
        ensures
            r == self.is_valid(l@, now),
    {
        l.expires_at > now || self.find_static(l.mac).is_some()
    }

    fn held_by_other_exec(&self, ip: u32, mac: u64, now: u64) -> (r: bool)
        ensures
            r == self.held_by_other(ip, mac, now),
    {
        let mut i: usize = 0;
        while i < self.leases.len()
            invariant
                i <= self.leases@.len(),
                forall|j: int|
                    0 <= j < i ==> !(self.records()[j].ip == ip && self.records()[j].mac != mac
                        && #[trigger] self.is_valid(self.records()[j], now)),
            decreases self.leases@.len() - i,
        {
            let l = &self.leases[i];
            if l.ip == ip && l.mac != mac && self.valid_exec(l, now) {
                assert(self.records()[i as int] == self.leases@[i as int]@);
                return true;
            }
            i = i + 1;
        }
        false
    }

    /// `ip` may be handed to `mac` from the pool at time `now`: it is in the
    /// pool, bound to no static MAC, and held by no valid lease of another MAC.
    pub fn available(&self, ip: u32, mac: u64, now: u64) -> (r: bool)
        ensures
            r == self.is_free(ip, mac, now),
    {
        self.pool_start <= ip && ip <= self.pool_end && !self.static_ip_taken(ip)
            && !self.held_by_other_exec(ip, mac, now)
    }

    fn first_free(&self, mac: u64, now: u64) -> (r: Option<u32>)
        ensures
            r.is_some() ==> self.is_first_free(r.unwrap(), mac, now),
            r.is_none() ==> !self.has_free(mac, now),
    {
        let mut cur: u64 = self.pool_start as u64;
        while cur <= self.pool_end as u64
            invariant
                self.pool_start() <= cur <= self.pool_end() as u64 + 1 || cur == self.pool_start(),
                forall|j: u32| self.pool_start() <= j < cur ==> !#[trigger] self.is_free(j, mac, now),
            decreases self.pool_end() as u64 + 1 - cur,
        {
            if self.available(cur as u32, mac, now) {
                return Some(cur as u32);
            }
            cur = cur + 1;
        }
        None
    }

    /// Puts `l` in place of the leases of its MAC and of its address.
    fn upsert_exec(&mut self, l: Lease)
        requires
            old(self).wf(),
            l.mac < mac_limit(),
            old(self).has_static(l.mac) ==> l.ip == old(self).static_binding(l.mac).ip,
            !old(self).has_static(l.mac) ==> !old(self).is_static_ip(l.ip),
        ensures
            final(self).wf(),
            final(self).records() == upsert(old(self).records(), l@),
            final(self).bindings() == old(self).bindings(),
            final(self).pool_start() == old(self).pool_start(),
            final(self).pool_end() == old(self).pool_end(),
            final(self).duration() == old(self).duration(),
    {
        let ghost s0 = self.records();
        let ghost lv = l@;
        if let Some(i) = self.find_by_mac(l.mac) {
            self.leases.remove(i);
            proof {
                assert(self.records() =~= s0.remove(i as int));
                old(self).lemma_remove_ok(s0, i as int);
                assert forall|j: int| 0 <= j < s0.len() && s0[j].mac == lv.mac implies j == i by {}
            }
        }
        let ghost s1 = self.records();
        proof {
            assert(s1 == without_mac(s0, lv.mac));
            assert(old(self).records_ok(s1));
            assert(forall|j: int| 0 <= j < s1.len() ==> s1[j].mac != lv.mac);
        }
        if let Some(i) = self.find_by_ip(l.ip) {
            self.leases.remove(i);
            proof {
                assert(self.records() =~= s1.remove(i as int));
                old(self).lemma_remove_ok(s1, i as int);
                assert forall|j: int| 0 <= j < s1.len() && s1[j].ip == lv.ip implies j == i by {}
                assert forall|j: int| 0 <= j < s1.remove(i as int).len() implies s1.remove(i as int)[j].mac != lv.mac by {
                    let j0 = if j < i { j } else { j + 1 };
                    assert(s1.remove(i as int)[j] == s1[j0]);
                }
            }
        }
        let ghost s2 = self.records();
        proof {
            assert(s2 == without_ip(s1, lv.ip));
            assert(old(self).records_ok(s2));
            assert(forall|j: int| 0 <= j < s2.len() ==> s2[j].mac != lv.mac && s2[j].ip != lv.ip);
            old(self).lemma_push_ok(s2, lv);
        }
        self.leases.push(l);
        proof {
            assert(self.records() =~= s2.push(lv));
            assert(self.bindings() == old(self).bindings());
        }
    }

    proof fn lemma_binding_at(&self, i: int, mac: u64)
        requires
            self.wf(),
            0 <= i < self.bindings().len(),
            self.bindings()[i].mac == mac,
        ensures
            self.has_static(mac),
            self.static_binding(mac) == self.bindings()[i],
    {
        let j = choose|j: int| 0 <= j < self.bindings().len() && self.bindings()[j].mac == mac;
        assert(j == i);
    }

    proof fn lemma_upserted(&self, s: Seq<LeaseView>, l: LeaseView)
        requires
            self.wf(),
            self.records() == upsert(s, l),
        ensures
            self.has_lease(l.mac),
            self.lease_of(l.mac) == l,
    {
        let n = self.records().len() - 1;
        assert(self.records()[n] == l);
        self.lemma_lease_at(n, l.mac);
    }

    proof fn lemma_lease_at(&self, i: int, mac: u64)
        requires
            self.wf(),
            0 <= i < self.records().len(),
            self.records()[i].mac == mac,
        ensures
            self.has_lease(mac),
            self.lease_of(mac) == self.records()[i],
    {
        let j = choose|j: int| 0 <= j < self.records().len() && self.records()[j].mac == mac;
        assert(distinct_keys(self.records()));
        assert(j == i);
    }

    /// Hands out a lease to `mac` by the rules of `allocation`, and records it
    /// in place of any lease of that MAC or that address.
    pub fn allocate_ip(&mut self, mac: u64, requested: Option<u32>, now: u64) -> (r: Option<Lease>)
        requires
            old(self).wf(),
            mac < mac_limit(),
        ensures
            final(self).wf(),
            lease_view(r) == old(self).allocation(mac, requested, now),
            r.is_some() ==> final(self).records() == upsert(old(self).records(), r.unwrap()@),
            r.is_some() ==> r.unwrap().mac == mac && final(self).has_lease(mac)
                && final(self).lease_of(mac) == r.unwrap()@,
            r.is_none() ==> final(self).records() == old(self).records(),
            final(self).bindings() == old(self).bindings(),
            final(self).pool_start() == old(self).pool_start(),
            final(self).pool_end() == old(self).pool_end(),
            final(self).duration() == old(self).duration(),
    {
        let expires_at = if now <= u64::MAX - self.duration {
            now + self.duration
        } else {
            u64::MAX
        };
        if let Some(i) = self.find_static(mac) {
            proof {
                self.lemma_binding_at(i as int, mac);
                assert(self.bindings()[i as int] == self.statics@[i as int]@);
            }
            let l = Lease {
                mac,
                ip: self.statics[i].ip,
                hostname: clone_text(&self.statics[i].hostname),
                expires_at,
            };
            let out = l.duplicate();
            self.upsert_exec(l);
            proof {
                self.lemma_upserted(old(self).records(), out@);
            }
            return Some(out);
        }
        if let Some(i) = self.find_by_mac(mac) {
            if self.leases[i].expires_at > now {
                proof {
                    self.lemma_lease_at(i as int, mac);
                    assert(self.records()[i as int] == self.leases@[i as int]@);
                    assert(!self.has_static(self.records()[i as int].mac));
                }
                let old_lease = &self.leases[i];
                let l = Lease {
                    mac,
                    ip: old_lease.ip,
                    hostname: clone_text(&old_lease.hostname),
                    expires_at,
                };
                let out = l.duplicate();
                self.upsert_exec(l);
            proof {
                self.lemma_upserted(old(self).records(), out@);
            }
                return Some(out);
            }
            proof {
                self.lemma_lease_at(i as int, mac);
                assert(self.records()[i as int] == self.leases@[i as int]@);
            }
        }
        if let Some(req) = requested {
            if self.available(req, mac, now) {
                let l = Lease { mac, ip: req, hostname: None, expires_at };
                let out = l.duplicate();
                self.upsert_exec(l);
            proof {
                self.lemma_upserted(old(self).records(), out@);
            }
                return Some(out);
            }
        }
        match self.first_free(mac, now) {
            Some(ip) => {
                proof {
                    assert(self.has_free(mac, now));
                    let c = choose|c: u32| self.is_first_free(c, mac, now);
                    assert(self.is_first_free(c, mac, now));
                    if c < ip {
                        assert(!self.is_free(c, mac, now));
                    }
                    if c > ip {
                        assert(!self.is_free(ip, mac, now));
                    }
                    assert(c == ip);
                }
                let l = Lease { mac, ip, hostname: None, expires_at };
                let out = l.duplicate();
                self.upsert_exec(l);
            proof {
                self.lemma_upserted(old(self).records(), out@);
            }
                Some(out)
            },
            None => None,
        }
    }

    /// The current lease of `mac`, as `current_lease` gives it.
    pub fn get_lease(&self, mac: u64, now: u64) -> (r: Option<Lease>)
        requires
            self.wf(),
        ensures
            lease_view(r) == self.current_lease(mac, now),
    {
        if let Some(i) = self.find_by_mac(mac) {
            proof {
                self.lemma_lease_at(i as int, mac);
                assert(self.records()[i as int] == self.leases@[i as int]@);
            }
            if self.valid_exec(&self.leases[i], now) {
                return Some(self.leases[i].duplicate());
            }
        }
        if let Some(i) = self.find_static(mac) {
            proof {
                self.lemma_binding_at(i as int, mac);
                assert(self.bindings()[i as int] == self.statics@[i as int]@);
            }
            return Some(
                Lease {
                    mac,
                    ip: self.statics[i].ip,
                    hostname: clone_text(&self.statics[i].hostname),
                    expires_at: u64::MAX,
                },
            );
        }
        None
    }

    /// Lease duration in seconds.
    pub fn get_duration(&self) -> (r: u64)
        ensures
            r == self.duration(),
    {
        self.duration
    }

    pub open spec fn static_host_is(&self, i: int, name: Seq<char>) -> bool {
        match self.bindings()[i].hostname {
            Some(h) => eq_ignore_case(h, name),
            None => false,
        }
    }

    pub open spec fn lease_host_is(&self, i: int, name: Seq<char>, now: u64) -> bool {
        self.is_valid(self.records()[i], now) && match self.records()[i].hostname {
            Some(h) => eq_ignore_case(h, name),
            None => false,
        }
    }

    /// The address of the host named `name` (ASCII case ignored): the first
    /// static binding with that hostname, else the first valid stored lease.
    pub open spec fn host_address(&self, name: Seq<char>, now: u64) -> Option<u32> {
        if exists|i: int| 0 <= i < self.bindings().len() && self.static_host_is(i, name) {
            let i = choose|i: int|
                0 <= i < self.bindings().len() && self.static_host_is(i, name) && forall|j: int|
                    0 <= j < i ==> !self.static_host_is(j, name);
            Some(self.bindings()[i].ip)
        } else if exists|i: int| 0 <= i < self.records().len() && self.lease_host_is(i, name, now) {
            let i = choose|i: int|
                0 <= i < self.records().len() && self.lease_host_is(i, name, now) && forall|j: int|
                    0 <= j < i ==> !self.lease_host_is(j, name, now);
            Some(self.records()[i].ip)
        } else {
            None
        }
    }

    fn host_matches(h: &Option<String>, name: &str) -> (r: bool)
        ensures
            r == match text_of(*h) {
                Some(t) => eq_ignore_case(t, name@),
                None => false,
            },
    {
        match h {
            Some(t) => str_eq_ignore_case(t.as_str(), name),
            None => false,
        }
    }

    /// Looks a hostname up among the static bindings and the valid leases.
    pub fn get_ip_by_hostname(&self, name: &str, now: u64) -> (r: Option<u32>)
        requires
            self.wf(),
        ensures
            r == self.host_address(name@, now),
    {
        let mut i: usize = 0;
        while i < self.statics.len()
            invariant
                i <= self.statics@.len(),
                forall|j: int| 0 <= j < i ==> !self.static_host_is(j, name@),
            decreases self.statics@.len() - i,
        {
            proof {
                assert(self.bindings()[i as int] == self.statics@[i as int]@);
            }
            if Self::host_matches(&self.statics[i].hostname, name) {
                proof {
                    let c = choose|c: int|
                        0 <= c < self.bindings().len() && self.static_host_is(c, name@) && forall|
                            j: int,
                        | 0 <= j < c ==> !self.static_host_is(j, name@);
                    assert(0 <= i < self.bindings().len() && self.static_host_is(i as int, name@)
                        && forall|j: int| 0 <= j < i ==> !self.static_host_is(j, name@));
                    if c < i {
                    }
                    if c > i {
                        assert(!self.static_host_is(i as int, name@));
                    }
                }
                return Some(self.statics[i].ip);
            }
            i = i + 1;
        }
        let mut k: usize = 0;
        while k < self.leases.len()
            invariant
                k <= self.leases@.len(),
                forall|j: int| 0 <= j < self.bindings().len() ==> !self.static_host_is(j, name@),
                forall|j: int| 0 <= j < k ==> !self.lease_host_is(j, name@, now),
            decreases self.leases@.len() - k,
        {
            proof {
                assert(self.records()[k as int] == self.leases@[k as int]@);
            }
            if self.valid_exec(&self.leases[k], now) && Self::host_matches(
                &self.leases[k].hostname,
                name,
            ) {
                proof {
                    let c = choose|c: int|
                        0 <= c < self.records().len() && self.lease_host_is(c, name@, now)
                            && forall|j: int| 0 <= j < c ==> !self.lease_host_is(j, name@, now);
                    assert(0 <= k < self.records().len() && self.lease_host_is(k as int, name@, now)
                        && forall|j: int| 0 <= j < k ==> !self.lease_host_is(j, name@, now));
                    if c > k {
                        assert(!self.lease_host_is(k as int, name@, now));
                    }
                }
                return Some(self.leases[k].ip);
            }
            k = k + 1;
        }
        None
    }

    /// An empty database over `pool`, bound as `bindings_from` says.
    pub fn new(pool: &PoolConfig, static_leases: &Vec<StaticLease>) -> (r: Self)
        ensures
            r.wf(),
            r.records() == Seq::<LeaseView>::empty(),
            r.bindings() == bindings_from(static_leases@),
            r.pool_start() == pool.start,
            r.pool_end() == pool.end,
            r.duration() == duration_of(pool.lease_time@),
    {
        let ghost config = static_leases@;
        let mut statics: Vec<StaticBinding> = Vec::new();
        let mut k: usize = 0;
        while k < static_leases.len()
            invariant
                k <= config.len(),
                config == static_leases@,
                statics@.map_values(|b: StaticBinding| b@) == bindings_from(config.subrange(0, k as int)),
                distinct_bindings(statics@.map_values(|b: StaticBinding| b@)),
            decreases config.len() - k,
        {
            let ghost prev = statics@.map_values(|b: StaticBinding| b@);
            proof {
                assert(config.subrange(0, k + 1).drop_last() =~= config.subrange(0, k as int));
                assert(config.subrange(0, k + 1).last() == config[k as int]);
            }
            let entry = &static_leases[k];
            if let Some(m) = parse_mac(entry.mac.as_str()) {
                proof {
                    assert(parsed_mac(entry.mac@, m));
                    let c = choose|c: u64| parsed_mac(entry.mac@, c);
                    lemma_mac_unique(entry.mac@, m, c);
                }
                let mut conflict = false;
                let mut found: Option<usize> = None;
                let mut i: usize = 0;
                while i < statics.len()
                    invariant
                        i <= statics@.len(),
                        prev == statics@.map_values(|b: StaticBinding| b@),
                        conflict == exists|j: int| 0 <= j < i && prev[j].ip == entry.ip && prev[j].mac != m,
                        found.is_none() ==> forall|j: int| 0 <= j < i ==> prev[j].mac != m,
                        found.is_some() ==> found.unwrap() < prev.len() && prev[found.unwrap() as int].mac == m,
                    decreases statics@.len() - i,
                {
                    proof {
                        assert(prev[i as int] == statics@[i as int]@);
                    }
                    if statics[i].ip == entry.ip && statics[i].mac != m {
                        conflict = true;
                    }
                    if found.is_none() && statics[i].mac == m {
                        found = Some(i);
                    }
                    i = i + 1;
                }
                if !conflict {
                    let b = StaticBinding { mac: m, ip: entry.ip, hostname: clone_text(&entry.hostname) };
                    let ghost bv = b@;
                    match found {
                        Some(j) => {
                            statics.set(j, b);
                            proof {
                                let c = choose|c: int| 0 <= c < prev.len() && prev[c].mac == m;
                                assert(c == j);
                                assert(statics@.map_values(|b: StaticBinding| b@) =~= prev.update(j as int, bv));
                                let nb = prev.update(j as int, bv);
                                assert forall|x: int, y: int| 0 <= x < nb.len() && 0 <= y < nb.len() && x != y implies nb[x].mac != nb[y].mac && nb[x].ip != nb[y].ip by {
                                    if x != j && y != j {
                                    } else if x == j {
                                        assert(prev[y].mac != m);
                                    } else {
                                        assert(prev[x].mac != m);
                                    }
                                }
                            }
                        },
                        None => {
                            statics.push(b);
                            proof {
                                assert(statics@.map_values(|b: StaticBinding| b@) =~= prev.push(bv));
                            }
                        },
                    }
                }
            }
            k = k + 1;
        }
        let r = LeaseDatabase {
            leases: Vec::new(),
            statics,
            pool_start: pool.start,
            pool_end: pool.end,
            duration: parse_duration(pool.lease_time.as_str()),
        };
        proof {
            assert(config.subrange(0, config.len() as int) =~= config);
            assert(r.records() =~= Seq::<LeaseView>::empty());
        }
        r
    }
}


/// A lease as the journal writes it: MAC as `aa:bb:cc:dd:ee:ff`, address as
/// a dotted quad, expiry in seconds since the epoch.
pub struct LeaseRecord {
    pub mac: String,
    pub ip: String,
    pub hostname: Option<String>,
    pub expires_at: u64,
}

pub ghost struct RecordView {
    pub mac: Seq<char>,
    pub ip: Seq<char>,
    pub hostname: Option<Seq<char>>,
    pub expires_at: u64,
}

impl View for LeaseRecord {
    type V = RecordView;

    open spec fn view(&self) -> RecordView {
        RecordView {
            mac: self.mac@,
            ip: self.ip@,
            hostname: text_of(self.hostname),
            expires_at: self.expires_at,
        }
    }
}

pub open spec fn record_of(l: LeaseView) -> RecordView {
    RecordView {
        mac: mac_text(l.mac),
        ip: ipv4_text(l.ip),
        hostname: l.hostname,
        expires_at: l.expires_at,
    }
}

pub open spec fn record_views(r: Seq<LeaseRecord>) -> Seq<RecordView> {
    r.map_values(|x: LeaseRecord| x@)
}

impl LeaseDatabase {
    pub open spec fn valid_at(&self, now: u64) -> spec_fn(LeaseView) -> bool {
        |l: LeaseView| self.is_valid(l, now)
    }

    /// The valid leases, in order.
    pub open spec fn valid_leases(&self, now: u64) -> Seq<LeaseView> {
        self.records().filter(self.valid_at(now))
    }

    /// What `save` writes: one record per valid lease, expired ones pruned.
    pub open spec fn journal(&self, now: u64) -> Seq<RecordView> {
        self.valid_leases(now).map_values(|l: LeaseView| record_of(l))
    }

    /// The lease a journal record gives, if its MAC and address read, it is
    /// valid at `now`, and it agrees with the static bindings.
    pub open spec fn admitted(&self, r: RecordView, now: u64) -> Option<LeaseView> {
        if (exists|m: u64| parsed_mac(r.mac, m)) && (exists|ip: u32| ipv4_text(ip) == r.ip) {
            let m = choose|m: u64| parsed_mac(r.mac, m);
            let ip = choose|ip: u32| ipv4_text(ip) == r.ip;
            let l = LeaseView { mac: m, ip, hostname: r.hostname, expires_at: r.expires_at };
            if self.is_valid(l, now) && (self.has_static(m) ==> ip == self.static_binding(m).ip)
                && (!self.has_static(m) ==> !self.is_static_ip(ip)) {
                Some(l)
            } else {
                None
            }
        } else {
            None
        }
    }

    /// The leases after loading `recs` in order on top of `s`.
    pub open spec fn loaded(&self, s: Seq<LeaseView>, recs: Seq<RecordView>, now: u64) -> Seq<
        LeaseView,
    >
        decreases recs.len(),
    {
        if recs.len() == 0 {
            s
        } else {
            let s1 = self.loaded(s, recs.drop_last(), now);
            match self.admitted(recs.last(), now) {
                Some(l) => upsert(s1, l),
                None => s1,
            }
        }
    }

    /// The journal records of the valid leases.
    pub fn save(&self, now: u64) -> (r: Vec<LeaseRecord>)
        ensures
            record_views(r@) == self.journal(now),
    {
        let mut out: Vec<LeaseRecord> = Vec::new();
        let mut i: usize = 0;
        while i < self.leases.len()
            invariant
                i <= self.leases@.len(),
                record_views(out@) == self.records().subrange(0, i as int).filter(
                    self.valid_at(now),
                ).map_values(|l: LeaseView| record_of(l)),
            decreases self.leases@.len() - i,
        {
            let ghost pre = self.records().subrange(0, i as int);
            proof {
                assert(self.records().subrange(0, i + 1) =~= pre.push(self.records()[i as int]));
                pre.lemma_filter_push(self.records()[i as int], self.valid_at(now));
                assert(self.records()[i as int] == self.leases@[i as int]@);
            }
            let l = &self.leases[i];
            if self.valid_exec(l, now) {
                let rec = LeaseRecord {
                    mac: format_mac(l.mac),
                    ip: format_ipv4(l.ip),
                    hostname: clone_text(&l.hostname),
                    expires_at: l.expires_at,
                };
                let ghost rv = rec@;
                proof {
                    assert(rv == record_of(self.records()[i as int]));
                }
                let ghost before = out@;
                out.push(rec);
                proof {
                    assert(record_views(out@) =~= record_views(before).push(rv));
                    assert(pre.filter(self.valid_at(now)).push(self.records()[i as int]).map_values(
                        |l: LeaseView| record_of(l),
                    ) =~= pre.filter(self.valid_at(now)).map_values(|l: LeaseView| record_of(l)).push(
                        rv,
                    ));
                }
            }
            i = i + 1;
        }
        proof {
            assert(self.records().subrange(0, self.leases@.len() as int) =~= self.records());
        }
        out
    }

    fn admit_exec(&self, r: &LeaseRecord, now: u64) -> (l: Option<Lease>)
        requires
            self.wf(),
        ensures
            lease_view(l) == self.admitted(r@, now),
            l.is_some() ==> l.unwrap().mac < mac_limit(),
    {
        let m = parse_mac(r.mac.as_str());
        let ip = parse_ipv4(r.ip.as_str());
        if m.is_none() || ip.is_none() {
            return None;
        }
        let m = m.unwrap();
        let ip = ip.unwrap();
        proof {
            assert(parsed_mac(r@.mac, m));
            assert(ipv4_text(ip) == r@.ip);
            let m2 = choose|m2: u64| parsed_mac(r@.mac, m2);
            lemma_mac_unique(r@.mac, m, m2);
            let ip2 = choose|ip2: u32| ipv4_text(ip2) == r@.ip;
            lemma_ipv4_text_unique(ip, ip2);
        }
        let l = Lease { mac: m, ip, hostname: clone_text(&r.hostname), expires_at: r.expires_at };
        if !self.valid_exec(&l, now) {
            return None;
        }
        match self.find_static(m) {
            Some(i) => {
                proof {
                    self.lemma_binding_at(i as int, m);
                    assert(self.bindings()[i as int] == self.statics@[i as int]@);
                }
                if self.statics[i].ip != ip {
                    return None;
                }
            },
            None => {
                if self.static_ip_taken(ip) {
                    return None;
                }
            },
        }
        Some(l)
    }

    /// Loads journal records in order; a record whose MAC or address does
    /// not read, that has expired, or that conflicts with a static binding is
    /// dropped; a later record replaces an earlier one for the same MAC or address.
    pub fn load(&mut self, recs: &Vec<LeaseRecord>, now: u64)
        requires
            old(self).wf(),
        ensures
            final(self).wf(),
            final(self).records() == old(self).loaded(old(self).records(), record_views(recs@), now),
            final(self).bindings() == old(self).bindings(),
            final(self).pool_start() == old(self).pool_start(),
            final(self).pool_end() == old(self).pool_end(),
            final(self).duration() == old(self).duration(),
    {
        let ghost views = record_views(recs@);
        let mut i: usize = 0;
        while i < recs.len()
            invariant
                i <= recs@.len(),
                views == record_views(recs@),
                self.wf(),
                self.records() == old(self).loaded(old(self).records(), views.subrange(0, i as int), now),
                self.bindings() == old(self).bindings(),
                self.pool_start() == old(self).pool_start(),
                self.pool_end() == old(self).pool_end(),
                self.duration() == old(self).duration(),
            decreases recs@.len() - i,
        {
            proof {
                assert(views.subrange(0, i + 1).drop_last() =~= views.subrange(0, i as int));
                assert(views.subrange(0, i + 1).last() == recs@[i as int]@);
            }
            if let Some(l) = self.admit_exec(&recs[i], now) {
                self.upsert_exec(l);
            }
            i = i + 1;
        }
        proof {
            assert(views.subrange(0, recs@.len() as int) =~= views);
        }
    }
}

proof fn lemma_first_free_exists(db: &LeaseDatabase, mac: u64, now: u64, w: u32)
    requires
        db.is_free(w, mac, now),
    ensures
        exists|c: u32| db.is_first_free(c, mac, now),
    decreases w - db.pool_start(),
{
    if forall|j: u32| db.pool_start() <= j < w ==> !#[trigger] db.is_free(j, mac, now) {
        assert(db.is_first_free(w, mac, now));
    } else {
        let j = choose|j: u32| db.pool_start() <= j < w && #[trigger] db.is_free(j, mac, now);
        lemma_first_free_exists(db, mac, now, j);
    }
}

/// What every well-formed database keeps: one lease per MAC and per
/// address, the bindings one per MAC and per address, a static MAC's lease
/// at its bound address, and no other MAC's lease at a static address.
pub proof fn lemma_wf_facts(db: &LeaseDatabase)
    requires
        db.wf(),
    ensures
        distinct_keys(db.records()),
        distinct_bindings(db.bindings()),
        forall|i: int|
            0 <= i < db.records().len() && db.has_static(#[trigger] db.records()[i].mac)
                ==> db.records()[i].ip == db.static_binding(db.records()[i].mac).ip,
        forall|i: int|
            0 <= i < db.records().len() && !db.has_static(#[trigger] db.records()[i].mac)
                ==> !db.is_static_ip(db.records()[i].ip),
        forall|i: int| 0 <= i < db.records().len() ==> #[trigger] db.records()[i].mac < mac_limit(),
{
}

/// A MAC with a static binding is always found at its bound address. Every
/// database that `new` builds and `allocate_ip` changes is well formed, so this
/// holds after any sequence of allocations.
pub proof fn lemma_static_binding_holds(db: &LeaseDatabase, mac: u64, now: u64)
    requires
        db.wf(),
        db.has_static(mac),
    ensures
        db.current_lease(mac, now).is_some(),
        db.current_lease(mac, now).unwrap().ip == db.static_binding(mac).ip,
{
    if db.has_lease(mac) {
        let i = choose|i: int| 0 <= i < db.records().len() && db.records()[i].mac == mac;
        assert(db.records()[i].mac == mac);
    }
}

/// An allocated address is the MAC's static address, its previous unexpired
/// lease, or one of the pool; no valid lease of another MAC holds it, and it
/// is no other MAC's static address.
pub proof fn lemma_allocation_safe(db: &LeaseDatabase, mac: u64, requested: Option<u32>, now: u64)
    requires
        db.wf(),
    ensures
        ({
            let a = db.allocation(mac, requested, now);
            a.is_some() ==> {
                let ip = a.unwrap().ip;
                &&& (db.has_static(mac) && ip == db.static_binding(mac).ip) || (db.has_lease(mac)
                    && db.lease_of(mac).expires_at > now && ip == db.lease_of(mac).ip)
                    || db.in_pool(ip)
                &&& forall|i: int|
                    0 <= i < db.records().len() && db.records()[i].mac != mac && db.is_valid(
                        db.records()[i],
                        now,
                    ) ==> db.records()[i].ip != ip
                &&& forall|i: int|
                    0 <= i < db.bindings().len() && db.bindings()[i].mac != mac
                        ==> db.bindings()[i].ip != ip
            }
        }),
{
    let a = db.allocation(mac, requested, now);
    if a.is_some() {
        let ip = a.unwrap().ip;
        if db.has_static(mac) {
            let bi = choose|i: int| 0 <= i < db.bindings().len() && db.bindings()[i].mac == mac;
            assert forall|i: int|
                0 <= i < db.records().len() && db.records()[i].mac != mac && db.is_valid(
                    db.records()[i],
                    now,
                ) implies db.records()[i].ip != ip by {
                let m2 = db.records()[i].mac;
                if db.has_static(m2) {
                    let bj = choose|j: int| 0 <= j < db.bindings().len() && db.bindings()[j].mac == m2;
                    assert(db.records()[i].ip == db.bindings()[bj].ip);
                    assert(bj != bi);
                } else {
                    assert(!db.is_static_ip(db.records()[i].ip));
                    assert(db.bindings()[bi].ip == ip);
                }
            }
        } else if db.has_lease(mac) && db.lease_of(mac).expires_at > now {
            let li = choose|i: int| 0 <= i < db.records().len() && db.records()[i].mac == mac;
            assert forall|i: int|
                0 <= i < db.records().len() && db.records()[i].mac != mac && db.is_valid(
                    db.records()[i],
                    now,
                ) implies db.records()[i].ip != ip by {
                assert(i != li);
            }
        } else if requested.is_some() && db.is_free(requested.unwrap(), mac, now) {
        } else {
            let w = choose|w: u32| db.is_free(w, mac, now);
            lemma_first_free_exists(db, mac, now, w);
        }
    }
}

proof fn lemma_filter_keeps(s: Seq<LeaseView>, p: spec_fn(LeaseView) -> bool)
    ensures
        forall|i: int|
            0 <= i < s.filter(p).len() ==> exists|j: int|
                0 <= j < s.len() && #[trigger] s.filter(p)[i] == s[j],
        distinct_keys(s) ==> distinct_keys(s.filter(p)),
    decreases s.len(),
{
    reveal(Seq::filter);
    if s.len() > 0 {
        let d = s.drop_last();
        lemma_filter_keeps(d, p);
        let f = s.filter(p);
        assert forall|i: int| 0 <= i < f.len() implies exists|j: int|
            0 <= j < s.len() && #[trigger] f[i] == s[j] by {
            if i < d.filter(p).len() {
                let j = choose|j: int| 0 <= j < d.len() && d.filter(p)[i] == d[j];
                assert(f[i] == s[j]);
            } else {
                assert(f[i] == s[s.len() - 1]);
            }
        }
        if distinct_keys(s) {
            assert(distinct_keys(d));
            assert forall|a: int, b: int|
                0 <= a < f.len() && 0 <= b < f.len() && a != b implies f[a].mac != f[b].mac
                && f[a].ip != f[b].ip by {
                let n = d.filter(p).len();
                if a < n && b < n {
                    assert(f[a] == d.filter(p)[a] && f[b] == d.filter(p)[b]);
                } else if a < n {
                    let j = choose|j: int| 0 <= j < d.len() && d.filter(p)[a] == d[j];
                    assert(f[a] == s[j] && f[b] == s[s.len() - 1]);
                } else if b < n {
                    let j = choose|j: int| 0 <= j < d.len() && d.filter(p)[b] == d[j];
                    assert(f[b] == s[j] && f[a] == s[s.len() - 1]);
                }
            }
        }
    }
}

proof fn lemma_loaded_prefix(db: &LeaseDatabase, now: u64, k: int)
    requires
        db.wf(),
        0 <= k <= db.valid_leases(now).len(),
    ensures
        db.loaded(Seq::empty(), db.journal(now).subrange(0, k), now) == db.valid_leases(now).subrange(
            0,
            k,
        ),
    decreases k,
{
    let v = db.valid_leases(now);
    let j = db.journal(now);
    if k == 0 {
        assert(j.subrange(0, 0) =~= Seq::<RecordView>::empty());
        assert(v.subrange(0, 0) =~= Seq::<LeaseView>::empty());
    } else {
        lemma_loaded_prefix(db, now, k - 1);
        lemma_filter_keeps(db.records(), db.valid_at(now));
        let l = v[k - 1];
        let r = j[k - 1];
        assert(j.subrange(0, k).drop_last() =~= j.subrange(0, k - 1));
        assert(j.subrange(0, k).last() == r);
        assert(r == record_of(l));
        let ri = choose|ri: int| 0 <= ri < db.records().len() && v[k - 1] == db.records()[ri];
        assert(l == db.records()[ri]);
        assert(l.mac < mac_limit());
        db.records().lemma_filter_pred(db.valid_at(now), k - 1);
        assert(db.is_valid(l, now));
        lemma_mac_text_matches(l.mac);
        assert(parsed_mac(r.mac, l.mac));
        let m = choose|m: u64| parsed_mac(r.mac, m);
        lemma_mac_unique(r.mac, l.mac, m);
        let ip = choose|ip: u32| ipv4_text(ip) == r.ip;
        lemma_ipv4_text_unique(l.ip, ip);
        assert(db.admitted(r, now) == Some(l));
        let pre = v.subrange(0, k - 1);
        assert forall|i: int| 0 <= i < pre.len() implies pre[i].mac != l.mac && pre[i].ip != l.ip by {
            assert(pre[i] == v[i]);
        }
        assert(without_mac(pre, l.mac) == pre);
        assert(without_ip(pre, l.ip) == pre);
        assert(v.subrange(0, k) =~= pre.push(l));
    }
}

/// Loading what `save` wrote into a database with the same static
/// bindings and no leases gives back exactly the valid leases, in order.
pub proof fn lemma_journal_round_trip(db: &LeaseDatabase, now: u64)
    requires
        db.wf(),
    ensures
        db.loaded(Seq::empty(), db.journal(now), now) == db.valid_leases(now),
{
    let n = db.valid_leases(now).len() as int;
    lemma_loaded_prefix(db, now, n);
    assert(db.journal(now).subrange(0, n) =~= db.journal(now));
    assert(db.valid_leases(now).subrange(0, n) =~= db.valid_leases(now));
}
} // verus!
