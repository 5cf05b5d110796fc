//! Textual forms of addresses: dotted-quad IPv4 and colon-separated MACs.

use vstd::prelude::*;

verus! {

/// The decimal digit character for `d` (0 to 9).
pub open spec fn digit_char(d: int) -> char {
    if d == 0 {
        '0'
    } else if d == 1 {
        '1'
    } else if d == 2 {
        '2'
    } else if d == 3 {
        '3'
    } else if d == 4 {
        '4'
    } else if d == 5 {
        '5'
    } else if d == 6 {
        '6'
    } else if d == 7 {
        '7'
    } else if d == 8 {
        '8'
    } else {
        '9'
    }
}

pub open spec fn is_digit(c: char) -> bool {
    '0' <= c && c <= '9'
}

pub open spec fn digit_value(c: char) -> int {
    (c as u32) as int - ('0' as u32) as int
}

/// Shortest decimal text of an octet (no leading zeros).
pub open spec fn octet_text(v: int) -> Seq<char> {
    if v < 10 {
        seq![digit_char(v)]
    } else if v < 100 {
        seq![digit_char(v / 10), digit_char(v % 10)]
    } else {
        seq![digit_char(v / 100), digit_char((v / 10) % 10), digit_char(v % 10)]
    }
}

/// Octet `i` of an address in host byte order, `0` being the most significant.
pub open spec fn octet(ip: u32, i: int) -> u32 {
    if i == 0 {
        (ip >> 24u32) & 0xffu32
    } else if i == 1 {
        (ip >> 16u32) & 0xffu32
    } else if i == 2 {
        (ip >> 8u32) & 0xffu32
    } else {
        ip & 0xffu32
    }
}

pub open spec fn ipv4_from_octets(a: u32, b: u32, c: u32, d: u32) -> u32 {
    (a << 24u32) | (b << 16u32) | (c << 8u32) | d
}

/// Dotted-quad text of an address held in host byte order.
pub open spec fn ipv4_text(ip: u32) -> Seq<char> {
    octet_text(octet(ip, 0) as int) + seq!['.'] + octet_text(octet(ip, 1) as int) + seq!['.']
        + octet_text(octet(ip, 2) as int) + seq!['.'] + octet_text(octet(ip, 3) as int)
}

pub open spec fn has_no_dot(t: Seq<char>) -> bool {
    forall|i: int| 0 <= i < t.len() ==> t[i] != '.'
}

proof fn lemma_digit_char(d: int)
    requires
        0 <= d < 10,
    ensures
        is_digit(digit_char(d)),
        digit_value(digit_char(d)) == d,
        digit_char(d) != '.',
{
}

proof fn lemma_octet_text(v: int)
    requires
        0 <= v < 256,
    ensures
        1 <= octet_text(v).len() <= 3,
        octet_text(v).len() == 1 <==> v < 10,
        octet_text(v).len() == 2 <==> 10 <= v < 100,
        octet_text(v).len() == 3 <==> 100 <= v,
        has_no_dot(octet_text(v)),
        forall|i: int| 0 <= i < octet_text(v).len() ==> is_digit(#[trigger] octet_text(v)[i]),
        octet_text(v).len() > 1 ==> octet_text(v)[0] != '0',
{
    lemma_digit_char(v % 10);
    lemma_digit_char((v / 10) % 10);
    if v < 100 {
        lemma_digit_char(v / 10);
    } else {
        lemma_digit_char(v / 100);
    }
}

proof fn lemma_octets_of(a: u32, b: u32, c: u32, d: u32)
    requires
        a < 256,
        b < 256,
        c < 256,
        d < 256,
    ensures
        octet(ipv4_from_octets(a, b, c, d), 0) == a,
        octet(ipv4_from_octets(a, b, c, d), 1) == b,
        octet(ipv4_from_octets(a, b, c, d), 2) == c,
        octet(ipv4_from_octets(a, b, c, d), 3) == d,
{
    assert((((a << 24u32) | (b << 16u32) | (c << 8u32) | d) >> 24u32) & 0xffu32 == a)
        by (bit_vector)
        requires
            a < 256,
            b < 256,
            c < 256,
            d < 256,
    ;
    assert((((a << 24u32) | (b << 16u32) | (c << 8u32) | d) >> 16u32) & 0xffu32 == b)
        by (bit_vector)
        requires
            a < 256,
            b < 256,
            c < 256,
            d < 256,
    ;
    assert((((a << 24u32) | (b << 16u32) | (c << 8u32) | d) >> 8u32) & 0xffu32 == c)
        by (bit_vector)
        requires
            a < 256,
            b < 256,
            c < 256,
            d < 256,
    ;
    assert(((a << 24u32) | (b << 16u32) | (c << 8u32) | d) & 0xffu32 == d) by (bit_vector)
        requires
            a < 256,
            b < 256,
            c < 256,
            d < 256,
    ;
}

proof fn lemma_octet_bound(ip: u32, i: int)
    ensures
        octet(ip, i) < 256,
{
    assert((ip >> 24u32) & 0xffu32 < 256) by (bit_vector);
    assert((ip >> 16u32) & 0xffu32 < 256) by (bit_vector);
    assert((ip >> 8u32) & 0xffu32 < 256) by (bit_vector);
    assert(ip & 0xffu32 < 256) by (bit_vector);
}

/// Relies on `String::push`: the character is appended at the end.
#[verifier::external_body]
pub(crate) fn push_char(s: &mut String, c: char)
    ensures
        final(s)@ == old(s)@.push(c),
{
    s.push(c)
}

fn digit_to_char(d: u8) -> (c: char)
    requires
        d < 10,
    ensures
        c == digit_char(d as int),
{
    if d == 0 {
        '0'
    } else if d == 1 {
        '1'
    } else if d == 2 {
        '2'
    } else if d == 3 {
        '3'
    } else if d == 4 {
        '4'
    } else if d == 5 {
        '5'
    } else if d == 6 {
        '6'
    } else if d == 7 {
        '7'
    } else if d == 8 {
        '8'
    } else {
        '9'
    }
}

fn push_octet(s: &mut String, v: u8)
    ensures
        final(s)@ == old(s)@ + octet_text(v as int),
{
    if v < 10 {
        push_char(s, digit_to_char(v));
    } else if v < 100 {
        push_char(s, digit_to_char(v / 10));
        push_char(s, digit_to_char(v % 10));
    } else {
        push_char(s, digit_to_char(v / 100));
        push_char(s, digit_to_char((v / 10) % 10));
        push_char(s, digit_to_char(v % 10));
    }
    assert(final(s)@ =~= old(s)@ + octet_text(v as int));
}

/// Appends the dotted-quad text of `ip` to `s`.
pub fn push_ipv4(s: &mut String, ip: u32)
    ensures
        final(s)@ == old(s)@ + ipv4_text(ip),
{
    proof {
        lemma_octet_bound(ip, 0);
        lemma_octet_bound(ip, 1);
        lemma_octet_bound(ip, 2);
        lemma_octet_bound(ip, 3);
    }
    push_octet(s, ((ip >> 24u32) & 0xffu32) as u8);
    push_char(s, '.');
    push_octet(s, ((ip >> 16u32) & 0xffu32) as u8);
    push_char(s, '.');
    push_octet(s, ((ip >> 8u32) & 0xffu32) as u8);
    push_char(s, '.');
    push_octet(s, (ip & 0xffu32) as u8);
    assert(final(s)@ =~= old(s)@ + ipv4_text(ip));
}

/// Dotted-quad text of an address held in host byte order.
pub fn format_ipv4(ip: u32) -> (s: String)
    ensures
        s@ == ipv4_text(ip),
{
    let mut s = String::new();
    push_ipv4(&mut s, ip);
    assert(s@ =~= ipv4_text(ip));
    s
}

fn char_digit(c: char) -> (r: Option<u8>)
    ensures
        r.is_some() <==> is_digit(c),
        r.is_some() ==> r.unwrap() as int == digit_value(c) && r.unwrap() < 10,
        r.is_some() ==> c == digit_char(r.unwrap() as int),
{
    if '0' <= c && c <= '9' {
        let d = ((c as u32) - ('0' as u32)) as u8;
        Some(d)
    } else {
        None
    }
}

/// Reads the octet written in `s[start..end]` in its shortest decimal form.
fn parse_octet(s: &str, start: usize, end: usize) -> (r: Option<u8>)
    requires
        start <= end <= s@.len(),
    ensures
        r.is_some() ==> s@.subrange(start as int, end as int) == octet_text(r.unwrap() as int),
        r.is_none() ==> forall|v: int|
            0 <= v < 256 ==> s@.subrange(start as int, end as int) != #[trigger] octet_text(v),
{
    let ghost t = s@.subrange(start as int, end as int);
    let len = end - start;
    if len == 0 || len > 3 {
        proof {
            assert forall|v: int| 0 <= v < 256 implies t != #[trigger] octet_text(v) by {
                lemma_octet_text(v);
            }
        }
        return None;
    }
    let mut value: u32 = 0;
    let mut i: usize = start;
    while i < end
        invariant
            start <= i <= end,
            end - start <= 3,
            end <= s@.len(),
            t == s@.subrange(start as int, end as int),
            forall|j: int| start <= j < i ==> is_digit(#[trigger] s@[j]),
            value < 1000,
            i - start == 0 ==> value == 0,
            i - start == 1 ==> value == digit_value(s@[start as int]),
            i - start == 2 ==> value == 10 * digit_value(s@[start as int]) + digit_value(
                s@[start + 1],
            ),
            i - start == 3 ==> value == 100 * digit_value(s@[start as int]) + 10 * digit_value(
                s@[start + 1],
            ) + digit_value(s@[start + 2]),
        decreases end - i,
    {
        let c = s.get_char(i);
        match char_digit(c) {
            Some(d) => {
                value = value * 10 + d as u32;
            },
            None => {
                proof {
                    assert forall|v: int| 0 <= v < 256 implies t != #[trigger] octet_text(v) by {
                        lemma_octet_text(v);
                        if t == octet_text(v) {
                            assert(t[i - start] == s@[i as int]);
                        }
                    }
                }
                return None;
            },
        }
        i = i + 1;
    }
    let first = s.get_char(start);
    if len > 1 && first == '0' {
        proof {
            assert forall|v: int| 0 <= v < 256 implies t != #[trigger] octet_text(v) by {
                lemma_octet_text(v);
                if t == octet_text(v) {
                    assert(t[0] == s@[start as int]);
                }
            }
        }
        return None;
    }
    if value > 255 {
        proof {
            assert forall|v: int| 0 <= v < 256 implies t != #[trigger] octet_text(v) by {
                lemma_octet_text(v);
                if t == octet_text(v) {
                    lemma_digit_char(v % 10);
                    lemma_digit_char((v / 10) % 10);
                    lemma_digit_char(v / 100);
                    assert(t[0] == s@[start as int]);
                    assert(t[1] == s@[start + 1]);
                    assert(t[2] == s@[start + 2]);
                }
            }
        }
        return None;
    }
    proof {
        let v = value as int;
        let d0 = digit_value(s@[start as int]);
        lemma_digit_char(v % 10);
        lemma_digit_char((v / 10) % 10);
        lemma_digit_char(v / 100);
        assert(is_digit(s@[start as int]));
        if len == 1 {
            assert(t =~= octet_text(v));
        } else if len == 2 {
            assert(is_digit(s@[start + 1]));
            lemma_digit_char(v / 10);
            assert(d0 != 0);
            assert(t =~= octet_text(v));
        } else {
            assert(is_digit(s@[start + 1]));
            assert(is_digit(s@[start + 2]));
            assert(d0 != 0);
            assert(t =~= octet_text(v));
        }
    }
    Some(value as u8)
}

/// First index in `[from, n)` holding a dot, or `n` when there is none.
fn find_dot(s: &str, from: usize, n: usize) -> (r: usize)
    requires
        from <= n,
        n == s@.len(),
    ensures
        from <= r <= n,
        forall|j: int| from <= j < r ==> s@[j] != '.',
        r < n ==> s@[r as int] == '.',
    decreases n - from,
{
    let mut i = from;
    while i < n
        invariant
            from <= i <= n,
            n == s@.len(),
            forall|j: int| from <= j < i ==> s@[j] != '.',
        decreases n - i,
    {
        if s.get_char(i) == '.' {
            return i;
        }
        i = i + 1;
    }
    i
}

proof fn lemma_ipv4_text_parts(ip: u32)
    ensures
        ({
            let t0 = octet_text(octet(ip, 0) as int);
            let t1 = octet_text(octet(ip, 1) as int);
            let t2 = octet_text(octet(ip, 2) as int);
            let t3 = octet_text(octet(ip, 3) as int);
            let dot1 = t0.len() as int;
            let dot2 = dot1 + 1 + t1.len();
            let dot3 = dot2 + 1 + t2.len();
            let n = dot3 + 1 + t3.len();
            &&& ipv4_text(ip).len() == n
            &&& ipv4_text(ip)[dot1] == '.' && ipv4_text(ip)[dot2] == '.' && ipv4_text(ip)[dot3] == '.'
            &&& forall|j: int| 0 <= j < dot1 ==> ipv4_text(ip)[j] != '.'
            &&& forall|j: int| dot1 < j < dot2 ==> ipv4_text(ip)[j] != '.'
            &&& forall|j: int| dot2 < j < dot3 ==> ipv4_text(ip)[j] != '.'
            &&& forall|j: int| dot3 < j < n ==> ipv4_text(ip)[j] != '.'
            &&& ipv4_text(ip).subrange(0, dot1) == t0
            &&& ipv4_text(ip).subrange(dot1 + 1, dot2) == t1
            &&& ipv4_text(ip).subrange(dot2 + 1, dot3) == t2
            &&& ipv4_text(ip).subrange(dot3 + 1, n) == t3
        }),
{
    let t0 = octet_text(octet(ip, 0) as int);
    let t1 = octet_text(octet(ip, 1) as int);
    let t2 = octet_text(octet(ip, 2) as int);
    let t3 = octet_text(octet(ip, 3) as int);
    lemma_octet_bound(ip, 0);
    lemma_octet_bound(ip, 1);
    lemma_octet_bound(ip, 2);
    lemma_octet_bound(ip, 3);
    lemma_octet_text(octet(ip, 0) as int);
    lemma_octet_text(octet(ip, 1) as int);
    lemma_octet_text(octet(ip, 2) as int);
    lemma_octet_text(octet(ip, 3) as int);
    let t = ipv4_text(ip);
    let dot1 = t0.len() as int;
    let dot2 = dot1 + 1 + t1.len();
    let dot3 = dot2 + 1 + t2.len();
    let n = dot3 + 1 + t3.len();
    assert(t.subrange(0, dot1) =~= t0);
    assert(t.subrange(dot1 + 1, dot2) =~= t1);
    assert(t.subrange(dot2 + 1, dot3) =~= t2);
    assert(t.subrange(dot3 + 1, n) =~= t3);
    assert forall|j: int| 0 <= j < dot1 implies t[j] != '.' by {
        assert(t[j] == t0[j]);
    }
    assert forall|j: int| dot1 < j < dot2 implies t[j] != '.' by {
        assert(t[j] == t1[j - dot1 - 1]);
    }
    assert forall|j: int| dot2 < j < dot3 implies t[j] != '.' by {
        assert(t[j] == t2[j - dot2 - 1]);
    }
    assert forall|j: int| dot3 < j < n implies t[j] != '.' by {
        assert(t[j] == t3[j - dot3 - 1]);
    }
}

pub open spec fn dot_free(s: Seq<char>, from: int, to: int) -> bool {
    forall|j: int| from <= j < to ==> s[j] != '.'
}

/// Where the dots of an address's text stand, as `find_dot` finds them.
proof fn lemma_text_layout(s: Seq<char>, ip: u32, dot1: int, dot2: int, dot3: int, dot4: int)
    requires
        s == ipv4_text(ip),
        0 <= dot1 <= s.len(),
        dot_free(s, 0, dot1),
        dot1 < s.len() ==> s[dot1] == '.',
        dot1 < s.len() ==> dot1 + 1 <= dot2 <= s.len() && dot_free(s, dot1 + 1, dot2) && (dot2 < s.len()
            ==> s[dot2] == '.'),
        dot1 >= s.len() ==> dot2 == s.len(),
        dot2 < s.len() ==> dot2 + 1 <= dot3 <= s.len() && dot_free(s, dot2 + 1, dot3) && (dot3 < s.len()
            ==> s[dot3] == '.'),
        dot2 >= s.len() ==> dot3 == s.len(),
        dot3 < s.len() ==> dot3 + 1 <= dot4 <= s.len() && dot_free(s, dot3 + 1, dot4) && (dot4 < s.len()
            ==> s[dot4] == '.'),
        dot3 >= s.len() ==> dot4 == s.len(),
    ensures
        dot1 < s.len() && dot2 < s.len() && dot3 < s.len() && dot4 == s.len(),
        s.subrange(0, dot1) == octet_text(octet(ip, 0) as int),
        s.subrange(dot1 + 1, dot2) == octet_text(octet(ip, 1) as int),
        s.subrange(dot2 + 1, dot3) == octet_text(octet(ip, 2) as int),
        s.subrange(dot3 + 1, dot4) == octet_text(octet(ip, 3) as int),
{
    lemma_ipv4_text_parts(ip);
    let at1 = octet_text(octet(ip, 0) as int).len() as int;
    let at2 = at1 + 1 + octet_text(octet(ip, 1) as int).len();
    let at3 = at2 + 1 + octet_text(octet(ip, 2) as int).len();
    assert(dot1 <= at1);
    assert(dot1 == at1);
    assert(dot2 <= at2);
    assert(dot2 == at2);
    assert(dot3 <= at3);
    assert(dot3 == at3);
}

/// Reads a dotted-quad IPv4 address into host byte order. Each octet must be
/// written in its shortest decimal form (no sign, no leading zeros).
pub fn parse_ipv4(s: &str) -> (r: Option<u32>)
    ensures
        r.is_some() ==> s@ == ipv4_text(r.unwrap()),
        r.is_none() ==> forall|ip: u32| s@ != #[trigger] ipv4_text(ip),
{
    let n = s.unicode_len();
    let dot1 = find_dot(s, 0, n);
    let dot2 = if dot1 < n {
        find_dot(s, dot1 + 1, n)
    } else {
        n
    };
    let dot3 = if dot2 < n {
        find_dot(s, dot2 + 1, n)
    } else {
        n
    };
    let dot4 = if dot3 < n {
        find_dot(s, dot3 + 1, n)
    } else {
        n
    };
    if dot1 >= n || dot2 >= n || dot3 >= n || dot4 < n {
        proof {
            assert forall|ip: u32| s@ != #[trigger] ipv4_text(ip) by {
                if s@ == ipv4_text(ip) {
                    lemma_text_layout(s@, ip, dot1 as int, dot2 as int, dot3 as int, dot4 as int);
                }
            }
        }
        return None;
    }
    let a = parse_octet(s, 0, dot1);
    let b = parse_octet(s, dot1 + 1, dot2);
    let c = parse_octet(s, dot2 + 1, dot3);
    let d = parse_octet(s, dot3 + 1, n);
    if a.is_none() || b.is_none() || c.is_none() || d.is_none() {
        proof {
            assert forall|ip: u32| s@ != #[trigger] ipv4_text(ip) by {
                if s@ == ipv4_text(ip) {
                    lemma_text_layout(s@, ip, dot1 as int, dot2 as int, dot3 as int, dot4 as int);
                    lemma_octet_bound(ip, 0);
                    lemma_octet_bound(ip, 1);
                    lemma_octet_bound(ip, 2);
                    lemma_octet_bound(ip, 3);
                }
            }
        }
        return None;
    }
    let a = a.unwrap() as u32;
    let b = b.unwrap() as u32;
    let c = c.unwrap() as u32;
    let d = d.unwrap() as u32;
    let ip = (a << 24u32) | (b << 16u32) | (c << 8u32) | d;
    proof {
        lemma_octets_of(a, b, c, d);
        assert(s@ =~= s@.subrange(0, dot1 as int) + seq!['.'] + s@.subrange(dot1 + 1, dot2 as int)
            + seq!['.'] + s@.subrange(dot2 + 1, dot3 as int) + seq!['.'] + s@.subrange(
            dot3 + 1,
            n as int,
        ));
        assert(s@ =~= ipv4_text(ip));
    }
    Some(ip)
}

/// Lower-case hexadecimal digit for `d` (0 to 15).
pub open spec fn hex_char(d: int) -> char {
    if d < 10 {
        digit_char(d)
    } else if d == 10 {
        'a'
    } else if d == 11 {
        'b'
    } else if d == 12 {
        'c'
    } else if d == 13 {
        'd'
    } else if d == 14 {
        'e'
    } else {
        'f'
    }
}

/// Value of a hexadecimal digit of either case; `-1` for any other character.
pub open spec fn hex_value(c: char) -> int {
    if '0' <= c && c <= '9' {
        (c as u32) as int - ('0' as u32) as int
    } else if 'a' <= c && c <= 'f' {
        (c as u32) as int - ('a' as u32) as int + 10
    } else if 'A' <= c && c <= 'F' {
        (c as u32) as int - ('A' as u32) as int + 10
    } else {
        -1
    }
}

/// Largest value a 48-bit MAC address can take, plus one.
pub open spec fn mac_limit() -> u64 {
    0x1_0000_0000_0000u64
}

/// Byte `k` of a MAC address held in the low 48 bits, `0` being the first on the wire.
pub open spec fn mac_byte(m: u64, k: int) -> u64 {
    if k == 0 {
        (m >> 40u64) & 0xffu64
    } else if k == 1 {
        (m >> 32u64) & 0xffu64
    } else if k == 2 {
        (m >> 24u64) & 0xffu64
    } else if k == 3 {
        (m >> 16u64) & 0xffu64
    } else if k == 4 {
        (m >> 8u64) & 0xffu64
    } else {
        m & 0xffu64
    }
}

/// The hex digit that stands at position `i` of the text of `m`.
pub open spec fn mac_nibble(m: u64, i: int) -> int {
    if i % 3 == 0 {
        mac_byte(m, i / 3) as int / 16
    } else {
        mac_byte(m, i / 3) as int % 16
    }
}

/// The canonical text of a MAC address: `aa:bb:cc:dd:ee:ff`, lower case.
pub open spec fn mac_text(m: u64) -> Seq<char> {
    Seq::new(17, |i: int| if i % 3 == 2 { ':' } else { hex_char(mac_nibble(m, i)) })
}

/// `t` writes the address `m`, with hex digits of either case.
pub open spec fn mac_matches(t: Seq<char>, m: u64) -> bool {
    &&& t.len() == 17
    &&& forall|i: int|
        0 <= i < 17 ==> (if i % 3 == 2 {
            t[i] == ':'
        } else {
            hex_value(#[trigger] t[i]) == mac_nibble(m, i)
        })
}

proof fn lemma_hex_char(d: int)
    requires
        0 <= d < 16,
    ensures
        hex_value(hex_char(d)) == d,
        hex_char(d) != ':',
{
}

proof fn lemma_mac_bytes(b0: u64, b1: u64, b2: u64, b3: u64, b4: u64, b5: u64)
    requires
        b0 < 256,
        b1 < 256,
        b2 < 256,
        b3 < 256,
        b4 < 256,
        b5 < 256,
    ensures
        ({
            let m = (b0 << 40u64) | (b1 << 32u64) | (b2 << 24u64) | (b3 << 16u64) | (b4 << 8u64)
                | b5;
            &&& m < mac_limit()
            &&& mac_byte(m, 0) == b0
            &&& mac_byte(m, 1) == b1
            &&& mac_byte(m, 2) == b2
            &&& mac_byte(m, 3) == b3
            &&& mac_byte(m, 4) == b4
            &&& mac_byte(m, 5) == b5
        }),
{
    let m = (b0 << 40u64) | (b1 << 32u64) | (b2 << 24u64) | (b3 << 16u64) | (b4 << 8u64) | b5;
    assert(((b0 << 40u64) | (b1 << 32u64) | (b2 << 24u64) | (b3 << 16u64) | (b4 << 8u64) | b5)
        < 0x1_0000_0000_0000u64) by (bit_vector)
        requires
            b0 < 256,
            b1 < 256,
            b2 < 256,
            b3 < 256,
            b4 < 256,
            b5 < 256,
    ;
    assert((((b0 << 40u64) | (b1 << 32u64) | (b2 << 24u64) | (b3 << 16u64) | (b4 << 8u64) | b5)
        >> 40u64) & 0xffu64 == b0) by (bit_vector)
        requires
            b0 < 256,
            b1 < 256,
            b2 < 256,
            b3 < 256,
            b4 < 256,
            b5 < 256,
    ;
    assert((((b0 << 40u64) | (b1 << 32u64) | (b2 << 24u64) | (b3 << 16u64) | (b4 << 8u64) | b5)
        >> 32u64) & 0xffu64 == b1) by (bit_vector)
        requires
            b0 < 256,
            b1 < 256,
            b2 < 256,
            b3 < 256,
            b4 < 256,
            b5 < 256,
    ;
    assert((((b0 << 40u64) | (b1 << 32u64) | (b2 << 24u64) | (b3 << 16u64) | (b4 << 8u64) | b5)
        >> 24u64) & 0xffu64 == b2) by (bit_vector)
        requires
            b0 < 256,
            b1 < 256,
            b2 < 256,
            b3 < 256,
            b4 < 256,
            b5 < 256,
    ;
    assert((((b0 << 40u64) | (b1 << 32u64) | (b2 << 24u64) | (b3 << 16u64) | (b4 << 8u64) | b5)
        >> 16u64) & 0xffu64 == b3) by (bit_vector)
        requires
            b0 < 256,
            b1 < 256,
            b2 < 256,
            b3 < 256,
            b4 < 256,
            b5 < 256,
    ;
    assert((((b0 << 40u64) | (b1 << 32u64) | (b2 << 24u64) | (b3 << 16u64) | (b4 << 8u64) | b5)
        >> 8u64) & 0xffu64 == b4) by (bit_vector)
        requires
            b0 < 256,
            b1 < 256,
            b2 < 256,
            b3 < 256,
            b4 < 256,
            b5 < 256,
    ;
    assert(((b0 << 40u64) | (b1 << 32u64) | (b2 << 24u64) | (b3 << 16u64) | (b4 << 8u64) | b5)
        & 0xffu64 == b5) by (bit_vector)
        requires
            b0 < 256,
            b1 < 256,
            b2 < 256,
            b3 < 256,
            b4 < 256,
            b5 < 256,
    ;
}

proof fn lemma_mac_byte_bound(m: u64, k: int)
    ensures
        mac_byte(m, k) < 256,
{
    assert((m >> 40u64) & 0xffu64 < 256) by (bit_vector);
    assert((m >> 32u64) & 0xffu64 < 256) by (bit_vector);
    assert((m >> 24u64) & 0xffu64 < 256) by (bit_vector);
    assert((m >> 16u64) & 0xffu64 < 256) by (bit_vector);
    assert((m >> 8u64) & 0xffu64 < 256) by (bit_vector);
    assert(m & 0xffu64 < 256) by (bit_vector);
}

/// The canonical text of an address always reads back as that address.
pub proof fn lemma_mac_text_matches(m: u64)
    ensures
        mac_matches(mac_text(m), m),
{
    assert forall|i: int| 0 <= i < 17 && i % 3 != 2 implies hex_value(
        #[trigger] mac_text(m)[i],
    ) == mac_nibble(m, i) by {
        lemma_mac_byte_bound(m, i / 3);
        lemma_hex_char(mac_nibble(m, i));
    }
}

fn hex_digit_char(d: u8) -> (c: char)
    requires
        d < 16,
    ensures
        c == hex_char(d as int),
{
    if d < 10 {
        digit_to_char(d)
    } else if d == 10 {
        'a'
    } else if d == 11 {
        'b'
    } else if d == 12 {
        'c'
    } else if d == 13 {
        'd'
    } else if d == 14 {
        'e'
    } else {
        'f'
    }
}

fn mac_byte_of(m: u64, k: usize) -> (b: u8)
    requires
        k < 6,
    ensures
        b as u64 == mac_byte(m, k as int),
{
    proof {
        lemma_mac_byte_bound(m, k as int);
    }
    if k == 0 {
        ((m >> 40u64) & 0xffu64) as u8
    } else if k == 1 {
        ((m >> 32u64) & 0xffu64) as u8
    } else if k == 2 {
        ((m >> 24u64) & 0xffu64) as u8
    } else if k == 3 {
        ((m >> 16u64) & 0xffu64) as u8
    } else if k == 4 {
        ((m >> 8u64) & 0xffu64) as u8
    } else {
        (m & 0xffu64) as u8
    }
}

/// The canonical text of a MAC address held in the low 48 bits of `m`.
pub fn format_mac(m: u64) -> (s: String)
    ensures
        s@ == mac_text(m),
{
    let mut s = String::new();
    let mut k: usize = 0;
    while k < 6
        invariant
            k <= 6,
            k < 6 ==> s@ == mac_text(m).subrange(0, 3 * k as int),
            k == 6 ==> s@ == mac_text(m),
        decreases 6 - k,
    {
        let b = mac_byte_of(m, k);
        push_char(&mut s, hex_digit_char(b / 16));
        push_char(&mut s, hex_digit_char(b % 16));
        if k < 5 {
            push_char(&mut s, ':');
            assert(s@ =~= mac_text(m).subrange(0, 3 * k + 3));
        } else {
            assert(s@ =~= mac_text(m));
        }
        k = k + 1;
    }
    s
}

fn hex_digit_value(c: char) -> (r: Option<u8>)
    ensures
        r.is_some() <==> hex_value(c) >= 0,
        r.is_some() ==> r.unwrap() as int == hex_value(c) && r.unwrap() < 16,
{
    if '0' <= c && c <= '9' {
        Some(((c as u32) - ('0' as u32)) as u8)
    } else if 'a' <= c && c <= 'f' {
        Some(((c as u32) - ('a' as u32) + 10) as u8)
    } else if 'A' <= c && c <= 'F' {
        Some(((c as u32) - ('A' as u32) + 10) as u8)
    } else {
        None
    }
}

/// Reads a MAC address written `aa:bb:cc:dd:ee:ff`, hex digits of either case,
/// into the low 48 bits of the result.
pub fn parse_mac(s: &str) -> (r: Option<u64>)
    ensures
        r.is_some() ==> r.unwrap() < mac_limit() && mac_matches(s@, r.unwrap()),
        r.is_none() ==> forall|m: u64| !#[trigger] mac_matches(s@, m),
{
    let n = s.unicode_len();
    if n != 17 {
        return None;
    }
    let mut bytes: Vec<u64> = Vec::new();
    let mut k: usize = 0;
    while k < 6
        invariant
            k <= 6,
            n == 17 == s@.len(),
            bytes@.len() == k,
            forall|j: int|
                0 <= j < k ==> #[trigger] bytes@[j] < 256 && hex_value(s@[3 * j]) == bytes@[j]
                    / 16 && hex_value(s@[3 * j + 1]) == bytes@[j] % 16,
            forall|j: int| 0 <= j < k && j < 5 ==> #[trigger] s@[3 * j + 2] == ':',
        decreases 6 - k,
    {
        let hi = hex_digit_value(s.get_char(3 * k));
        let lo = hex_digit_value(s.get_char(3 * k + 1));
        if hi.is_none() || lo.is_none() {
            proof {
                assert forall|m: u64| !#[trigger] mac_matches(s@, m) by {
                    if mac_matches(s@, m) {
                        assert(hex_value(s@[3 * k as int]) == mac_nibble(m, 3 * k as int));
                        assert(hex_value(s@[3 * k + 1]) == mac_nibble(m, 3 * k + 1));
                        lemma_mac_byte_bound(m, k as int);
                    }
                }
            }
            return None;
        }
        if k < 5 && s.get_char(3 * k + 2) != ':' {
            proof {
                assert forall|m: u64| !#[trigger] mac_matches(s@, m) by {
                    if mac_matches(s@, m) {
                        assert((3 * k + 2) % 3 == 2);
                    }
                }
            }
            return None;
        }
        let b = hi.unwrap() as u64 * 16 + lo.unwrap() as u64;
        bytes.push(b);
        k = k + 1;
    }
    let m = (bytes[0] << 40u64) | (bytes[1] << 32u64) | (bytes[2] << 24u64) | (bytes[3] << 16u64)
        | (bytes[4] << 8u64) | bytes[5];
    proof {
        lemma_mac_bytes(bytes@[0], bytes@[1], bytes@[2], bytes@[3], bytes@[4], bytes@[5]);
        assert forall|i: int| 0 <= i < 17 implies (if i % 3 == 2 {
            s@[i] == ':'
        } else {
            hex_value(#[trigger] s@[i]) == mac_nibble(m, i)
        }) by {
            let j = i / 3;
            assert(0 <= j < 6);
            assert(i == 3 * j + i % 3);
            assert(mac_byte(m, j) == bytes@[j]);
        }
    }
    Some(m)
}

/// The 48-bit address whose bytes are `b[0..6]`, first on the wire first.
pub open spec fn mac_of_bytes(b: Seq<u8>) -> u64 {
    ((b[0] as u64) << 40u64) | ((b[1] as u64) << 32u64) | ((b[2] as u64) << 24u64) | ((
    b[3] as u64) << 16u64) | ((b[4] as u64) << 8u64) | (b[5] as u64)
}

/// The address held in the six bytes of a hardware address field.
pub fn mac_from_bytes(b: &[u8]) -> (r: Option<u64>)
    ensures
        r.is_some() <==> b@.len() == 6,
        r.is_some() ==> r.unwrap() == mac_of_bytes(b@),
        r.is_some() ==> r.unwrap() < mac_limit() && forall|k: int|
            0 <= k < 6 ==> #[trigger] mac_byte(r.unwrap(), k) == b@[k] as u64,
{
    if b.len() != 6 {
        return None;
    }
    let m = ((b[0] as u64) << 40u64) | ((b[1] as u64) << 32u64) | ((b[2] as u64) << 24u64) | ((
    b[3] as u64) << 16u64) | ((b[4] as u64) << 8u64) | (b[5] as u64);
    proof {
        lemma_mac_bytes(
            b@[0] as u64,
            b@[1] as u64,
            b@[2] as u64,
            b@[3] as u64,
            b@[4] as u64,
            b@[5] as u64,
        );
    }
    Some(m)
}

/// The six bytes of a MAC address, first on the wire first.
pub fn mac_to_bytes(m: u64) -> (r: Vec<u8>)
    ensures
        r@.len() == 6,
        forall|k: int| 0 <= k < 6 ==> #[trigger] r@[k] as u64 == mac_byte(m, k),
{
    let mut r: Vec<u8> = Vec::new();
    let mut k: usize = 0;
    while k < 6
        invariant
            k <= 6,
            r@.len() == k,
            forall|j: int| 0 <= j < k ==> #[trigger] r@[j] as u64 == mac_byte(m, j),
        decreases 6 - k,
    {
        r.push(mac_byte_of(m, k));
        k = k + 1;
    }
    r
}

pub open spec fn is_ascii_upper(c: char) -> bool {
    'A' <= c && c <= 'Z'
}

/// Two characters that are equal once ASCII letters are folded to lower case.
pub open spec fn same_ignoring_case(a: char, b: char) -> bool {
    a == b || (is_ascii_upper(a) && (a as u32) + 32 == (b as u32)) || (is_ascii_upper(b) && (
    b as u32) + 32 == (a as u32))
}

pub open spec fn eq_ignore_case(a: Seq<char>, b: Seq<char>) -> bool {
    a.len() == b.len() && forall|i: int| 0 <= i < a.len() ==> same_ignoring_case(a[i], b[i])
}

fn same_char_ignoring_case(a: char, b: char) -> (r: bool)
    ensures
        r == same_ignoring_case(a, b),
{
    a == b || ('A' <= a && a <= 'Z' && (a as u32) + 32 == (b as u32)) || ('A' <= b && b <= 'Z'
        && (b as u32) + 32 == (a as u32))
}

/// `a[a_from..a_from + len]` and `b[b_from..b_from + len]` are equal up to ASCII case.
pub fn range_eq_ignore_case(a: &str, a_from: usize, b: &str, b_from: usize, len: usize) -> (r:
    bool)
    requires
        a_from + len <= a@.len() <= usize::MAX,
        b_from + len <= b@.len() <= usize::MAX,
    ensures
        r == eq_ignore_case(
            a@.subrange(a_from as int, a_from + len),
            b@.subrange(b_from as int, b_from + len),
        ),
{
    let mut i: usize = 0;
    while i < len
        invariant
            i <= len,
            a_from + len <= a@.len() <= usize::MAX,
            b_from + len <= b@.len() <= usize::MAX,
            forall|j: int| 0 <= j < i ==> #[trigger] same_ignoring_case(a@[a_from + j], b@[b_from + j]),
        decreases len - i,
    {
        if !same_char_ignoring_case(a.get_char(a_from + i), b.get_char(b_from + i)) {
            proof {
                let sa = a@.subrange(a_from as int, a_from + len);
                let sb = b@.subrange(b_from as int, b_from + len);
                assert(sa[i as int] == a@[a_from + i]);
                assert(sb[i as int] == b@[b_from + i]);
            }
            return false;
        }
        i = i + 1;
    }
    proof {
        let sa = a@.subrange(a_from as int, a_from + len);
        let sb = b@.subrange(b_from as int, b_from + len);
        assert forall|j: int| 0 <= j < sa.len() implies same_ignoring_case(sa[j], sb[j]) by {
            assert(sa[j] == a@[a_from + j]);
            assert(sb[j] == b@[b_from + j]);
        }
    }
    true
}

/// `a` and `b` are equal up to ASCII case.
pub fn str_eq_ignore_case(a: &str, b: &str) -> (r: bool)
    ensures
        r == eq_ignore_case(a@, b@),
{
    let n = a.unicode_len();
    if n != b.unicode_len() {
        return false;
    }
    let r = range_eq_ignore_case(a, 0, b, 0, n);
    proof {
        assert(a@.subrange(0, n as int) =~= a@);
        assert(b@.subrange(0, n as int) =~= b@);
    }
    r
}

/// Value of a string of decimal digits.
pub open spec fn decimal_value(t: Seq<char>) -> int
    decreases t.len(),
{
    if t.len() == 0 {
        0
    } else {
        decimal_value(t.drop_last()) * 10 + digit_value(t.last())
    }
}

pub open spec fn all_digits(t: Seq<char>) -> bool {
    t.len() > 0 && forall|i: int| 0 <= i < t.len() ==> is_digit(t[i])
}

proof fn lemma_decimal_grows(t: Seq<char>, k: int)
    requires
        0 <= k <= t.len(),
        forall|i: int| 0 <= i < t.len() ==> is_digit(t[i]),
    ensures
        decimal_value(t) >= decimal_value(t.subrange(0, k)) >= 0,
    decreases t.len(),
{
    if t.len() == 0 {
        assert(t.subrange(0, k) =~= t);
    } else if k == t.len() {
        assert(t.subrange(0, k) =~= t);
        lemma_decimal_grows(t.drop_last(), 0);
    } else {
        lemma_decimal_grows(t.drop_last(), k);
        assert(t.drop_last().subrange(0, k) =~= t.subrange(0, k));
    }
}

/// Reads the decimal number written in `s[start..end]` (digits only).
pub fn parse_decimal(s: &str, start: usize, end: usize) -> (r: Option<u64>)
    requires
        start <= end <= s@.len(),
    ensures
        ({
            let t = s@.subrange(start as int, end as int);
            &&& r.is_some() <==> all_digits(t) && decimal_value(t) <= u64::MAX
            &&& r.is_some() ==> r.unwrap() == decimal_value(t)
        }),
{
    let ghost t = s@.subrange(start as int, end as int);
    if start == end {
        return None;
    }
    let mut value: u64 = 0;
    let mut i: usize = start;
    while i < end
        invariant
            start <= i <= end <= s@.len(),
            t == s@.subrange(start as int, end as int),
            forall|j: int| start <= j < i ==> is_digit(#[trigger] s@[j]),
            value == decimal_value(s@.subrange(start as int, i as int)),
        decreases end - i,
    {
        let ghost before = s@.subrange(start as int, i as int);
        let c = s.get_char(i);
        proof {
            assert(s@.subrange(start as int, i + 1).drop_last() =~= before);
        }
        match char_digit(c) {
            Some(d) => {
                if value > (u64::MAX - d as u64) / 10 {
                    proof {
                        assert(t.subrange(0, i + 1 - start) =~= s@.subrange(start as int, i + 1));
                        if forall|j: int| 0 <= j < t.len() ==> is_digit(t[j]) {
                            lemma_decimal_grows(t, i + 1 - start);
                        }
                    }
                    return None;
                }
                value = value * 10 + d as u64;
            },
            None => {
                proof {
                    assert(t[i - start] == c);
                }
                return None;
            },
        }
        i = i + 1;
    }
    proof {
        assert(s@.subrange(start as int, end as int) =~= t);
    }
    Some(value)
}

proof fn lemma_mac_from_bytes(m: u64)
    requires
        m < mac_limit(),
    ensures
        m == (mac_byte(m, 0) << 40u64) | (mac_byte(m, 1) << 32u64) | (mac_byte(m, 2) << 24u64) | (
        mac_byte(m, 3) << 16u64) | (mac_byte(m, 4) << 8u64) | mac_byte(m, 5),
{
    assert(m == (((m >> 40u64) & 0xffu64) << 40u64) | (((m >> 32u64) & 0xffu64) << 32u64) | (((m
        >> 24u64) & 0xffu64) << 24u64) | (((m >> 16u64) & 0xffu64) << 16u64) | (((m >> 8u64)
        & 0xffu64) << 8u64) | (m & 0xffu64)) by (bit_vector)
        requires
            m < 0x1_0000_0000_0000u64,
    ;
}

/// A text reads as at most one 48-bit address.
pub proof fn lemma_mac_unique(t: Seq<char>, m1: u64, m2: u64)
    requires
        m1 < mac_limit(),
        m2 < mac_limit(),
        mac_matches(t, m1),
        mac_matches(t, m2),
    ensures
        m1 == m2,
{
    assert forall|k: int| 0 <= k < 6 implies mac_byte(m1, k) == mac_byte(m2, k) by {
        assert(hex_value(t[3 * k]) == mac_nibble(m1, 3 * k));
        assert(hex_value(t[3 * k]) == mac_nibble(m2, 3 * k));
        assert(hex_value(t[3 * k + 1]) == mac_nibble(m1, 3 * k + 1));
        assert(hex_value(t[3 * k + 1]) == mac_nibble(m2, 3 * k + 1));
        assert((3 * k) / 3 == k && (3 * k) % 3 == 0);
        assert((3 * k + 1) / 3 == k && (3 * k + 1) % 3 == 1);
        lemma_mac_byte_bound(m1, k);
        lemma_mac_byte_bound(m2, k);
    }
    lemma_mac_from_bytes(m1);
    lemma_mac_from_bytes(m2);
    assert(mac_byte(m1, 0) == mac_byte(m2, 0));
    assert(mac_byte(m1, 1) == mac_byte(m2, 1));
    assert(mac_byte(m1, 2) == mac_byte(m2, 2));
    assert(mac_byte(m1, 3) == mac_byte(m2, 3));
    assert(mac_byte(m1, 4) == mac_byte(m2, 4));
    assert(mac_byte(m1, 5) == mac_byte(m2, 5));
}

proof fn lemma_octet_text_unique(v1: int, v2: int)
    requires
        0 <= v1 < 256,
        0 <= v2 < 256,
        octet_text(v1) == octet_text(v2),
    ensures
        v1 == v2,
{
    lemma_octet_text(v1);
    lemma_octet_text(v2);
    lemma_digit_char(v1 % 10);
    lemma_digit_char(v2 % 10);
    lemma_digit_char((v1 / 10) % 10);
    lemma_digit_char((v2 / 10) % 10);
    if v1 < 10 {
        lemma_digit_char(v1);
        assert(v2 < 10);
        lemma_digit_char(v2);
        assert(octet_text(v1)[0] == digit_char(v1));
        assert(octet_text(v2)[0] == digit_char(v2));
        assert(digit_value(digit_char(v1)) == digit_value(digit_char(v2)));
    } else if v1 < 100 {
        lemma_digit_char(v1 / 10);
        lemma_digit_char(v2 / 10);
        assert(octet_text(v1)[0] == octet_text(v2)[0]);
        assert(octet_text(v1)[1] == octet_text(v2)[1]);
        assert(v1 / 10 == v2 / 10);
        assert(v1 % 10 == v2 % 10);
        assert(v1 == (v1 / 10) * 10 + v1 % 10);
        assert(v2 == (v2 / 10) * 10 + v2 % 10);
        assert(v1 == v2);
    } else {
        lemma_digit_char(v1 / 100);
        lemma_digit_char(v2 / 100);
        assert(octet_text(v1)[0] == octet_text(v2)[0]);
        assert(octet_text(v1)[1] == octet_text(v2)[1]);
        assert(octet_text(v1)[2] == octet_text(v2)[2]);
        assert(v1 / 100 == v2 / 100);
        assert((v1 / 10) % 10 == (v2 / 10) % 10);
        assert(v1 % 10 == v2 % 10);
        assert(v1 == (v1 / 100) * 100 + ((v1 / 10) % 10) * 10 + v1 % 10);
        assert(v2 == (v2 / 100) * 100 + ((v2 / 10) % 10) * 10 + v2 % 10);
        assert(v1 == v2);
    }
}

/// Two addresses with the same dotted-quad text are the same address.
pub proof fn lemma_ipv4_text_unique(ip1: u32, ip2: u32)
    requires
        ipv4_text(ip1) == ipv4_text(ip2),
    ensures
        ip1 == ip2,
{
    let s = ipv4_text(ip1);
    lemma_ipv4_text_parts(ip1);
    lemma_ipv4_text_parts(ip2);
    let at1 = octet_text(octet(ip1, 0) as int).len() as int;
    let at2 = at1 + 1 + octet_text(octet(ip1, 1) as int).len();
    let at3 = at2 + 1 + octet_text(octet(ip1, 2) as int).len();
    let n = s.len() as int;
    lemma_text_layout(s, ip1, at1, at2, at3, n);
    lemma_text_layout(s, ip2, at1, at2, at3, n);
    lemma_octet_bound(ip1, 0);
    lemma_octet_bound(ip1, 1);
    lemma_octet_bound(ip1, 2);
    lemma_octet_bound(ip1, 3);
    lemma_octet_bound(ip2, 0);
    lemma_octet_bound(ip2, 1);
    lemma_octet_bound(ip2, 2);
    lemma_octet_bound(ip2, 3);
    lemma_octet_text_unique(octet(ip1, 0) as int, octet(ip2, 0) as int);
    lemma_octet_text_unique(octet(ip1, 1) as int, octet(ip2, 1) as int);
    lemma_octet_text_unique(octet(ip1, 2) as int, octet(ip2, 2) as int);
    lemma_octet_text_unique(octet(ip1, 3) as int, octet(ip2, 3) as int);
    assert(ip1 == (((ip1 >> 24u32) & 0xffu32) << 24u32) | (((ip1 >> 16u32) & 0xffu32) << 16u32)
        | (((ip1 >> 8u32) & 0xffu32) << 8u32) | (ip1 & 0xffu32)) by (bit_vector);
    assert(ip2 == (((ip2 >> 24u32) & 0xffu32) << 24u32) | (((ip2 >> 16u32) & 0xffu32) << 16u32)
        | (((ip2 >> 8u32) & 0xffu32) << 8u32) | (ip2 & 0xffu32)) by (bit_vector);
}

} // verus!
