//! IP addresses in text form: the grammar that `std::net` accepts for IPv4
//! and IPv6 addresses, the private ranges, and membership in networks
//! written in CIDR form.
use vstd::prelude::*;
use crate::text::{
    all_digits, chars_of, decimal_value, is_digit, parse_u8, pieces, ranges_within, split_on,
    split_ranges, strip_bounds, strip_leading, strip_trailing,
};

verus! {

// ---------------------------------------------------------------------------
// Addresses and networks
// ---------------------------------------------------------------------------

/// A parsed IP address: four octets or eight 16-bit groups.
#[derive(Debug)]
pub enum IpAddress {
    V4(Vec<u8>),
    V6(Vec<u16>),
}

/// The mathematical value of an address.
pub enum IpValue {
    V4(Seq<u8>),
    V6(Seq<u16>),
}

impl View for IpAddress {
    type V = IpValue;

    open spec fn view(&self) -> IpValue {
        match self {
            IpAddress::V4(o) => IpValue::V4(o@),
            IpAddress::V6(g) => IpValue::V6(g@),
        }
    }
}

/// A network in CIDR form: an address and the length of its prefix.
#[derive(Debug, Clone, Copy, PartialEq, Eq)]
#[allow(inconsistent_fields)]
pub enum IpNetwork {
    V4 { addr: u32, prefix_len: u8 },
    V6 { addr: u128, prefix_len: u8 },
}

// ---------------------------------------------------------------------------
// The grammar
// ---------------------------------------------------------------------------

/// A decimal octet: one to three digits, no leading zero, at most 255.
pub open spec fn dec_octet(s: Seq<char>) -> Option<u8> {
    if 1 <= s.len() <= 3 && all_digits(s) && (s.len() > 1 ==> s[0] != '0') && decimal_value(s)
        <= 255 {
        Some(decimal_value(s) as u8)
    } else {
        None
    }
}

/// The octets of the dotted-quad text `s`.
pub open spec fn ipv4_octets(s: Seq<char>) -> Option<Seq<u8>> {
    let p = split_on(s, '.');
    if p.len() == 4 && forall|i: int| 0 <= i < 4 ==> (#[trigger] dec_octet(p[i])) is Some {
        Some(Seq::new(4, |i: int| dec_octet(p[i])->0))
    } else {
        None
    }
}

pub open spec fn is_hex(c: char) -> bool {
    ||| (48 <= c as u32 && c as u32 <= 57)
    ||| (97 <= c as u32 && c as u32 <= 102)
    ||| (65 <= c as u32 && c as u32 <= 70)
}

pub open spec fn hex_digit_value(c: char) -> nat {
    if 48 <= c as u32 && c as u32 <= 57 {
        (c as u32 - 48) as nat
    } else if 97 <= c as u32 && c as u32 <= 102 {
        (c as u32 - 87) as nat
    } else {
        (c as u32 - 55) as nat
    }
}

/// The number that the hexadecimal digits `s` write.
pub open spec fn hex_value(s: Seq<char>) -> nat
    decreases s.len(),
{
    if s.len() == 0 {
        0
    } else {
        hex_value(s.drop_last()) * 16 + hex_digit_value(s.last())
    }
}

/// A 16-bit group of an IPv6 address: one to four hexadecimal digits.
pub open spec fn hex_group(s: Seq<char>) -> Option<u16> {
    if 1 <= s.len() <= 4 && forall|i: int| 0 <= i < s.len() ==> is_hex(#[trigger] s[i]) {
        Some(hex_value(s) as u16)
    } else {
        None
    }
}

/// The two groups that an embedded IPv4 address stands for.
pub open spec fn v4_as_groups(o: Seq<u8>) -> Seq<u16> {
    seq![(o[0] * 256 + o[1]) as u16, (o[2] * 256 + o[3]) as u16]
}

/// The groups of one colon-separated item; an embedded IPv4 address only
/// where `v4_allowed`.
pub open spec fn item_groups(item: Seq<char>, v4_allowed: bool) -> Option<Seq<u16>> {
    match hex_group(item) {
        Some(g) => Some(seq![g]),
        None => if v4_allowed {
            match ipv4_octets(item) {
                Some(o) => Some(v4_as_groups(o)),
                None => None,
            }
        } else {
            None
        },
    }
}

/// The groups of a list of items, of which only the last may be an
/// embedded IPv4 address, and only where `v4_last`.
pub open spec fn items_groups(items: Seq<Seq<char>>, v4_last: bool) -> Option<Seq<u16>>
    decreases items.len(),
{
    if items.len() == 0 {
        Some(Seq::empty())
    } else {
        match items_groups(items.drop_last(), false) {
            Some(h) => match item_groups(items.last(), v4_last) {
                Some(t) => Some(h + t),
                None => None,
            },
            None => None,
        }
    }
}

/// The groups of a colon-separated list of items.
pub open spec fn group_list(s: Seq<char>, v4_last: bool) -> Option<Seq<u16>> {
    items_groups(split_on(s, ':'), v4_last)
}

/// `::` occurs at `i` and nowhere before.
pub open spec fn first_double_colon_at(s: Seq<char>, i: int) -> bool {
    &&& 0 <= i && i + 1 < s.len()
    &&& s[i] == ':' && s[i + 1] == ':'
    &&& forall|j: int| 0 <= j < i ==> !(s[j] == ':' && #[trigger] s[j + 1] == ':')
}

/// The position of the first `::` in `s`.
pub open spec fn first_double_colon(s: Seq<char>) -> Option<int> {
    if exists|i: int| first_double_colon_at(s, i) {
        Some(choose|i: int| first_double_colon_at(s, i))
    } else {
        None
    }
}

/// The groups of the side of a `::` (none where the side is empty).
pub open spec fn side_groups(s: Seq<char>, v4_last: bool) -> Option<Seq<u16>> {
    if s.len() == 0 {
        Some(Seq::empty())
    } else {
        group_list(s, v4_last)
    }
}

/// The eight groups of the IPv6 text `s`: eight groups, or fewer with one
/// `::` standing for the missing zero groups; an embedded IPv4 address may
/// stand for the last two.
pub open spec fn ipv6_groups(s: Seq<char>) -> Option<Seq<u16>> {
    match first_double_colon(s) {
        None => match group_list(s, true) {
            Some(g) => if g.len() == 8 {
                Some(g)
            } else {
                None
            },
            None => None,
        },
        Some(i) => match (side_groups(s.take(i), false), side_groups(s.skip(i + 2), true)) {
            (Some(h), Some(t)) => if h.len() <= 7 && t.len() <= 7 - h.len() {
                Some(h + Seq::new((8 - h.len() - t.len()) as nat, |k: int| 0u16) + t)
            } else {
                None
            },
            _ => None,
        },
    }
}

/// `s` as an IP address: IPv4 where it is one, else IPv6.
pub open spec fn parse_ip_spec(s: Seq<char>) -> Option<IpValue> {
    match ipv4_octets(s) {
        Some(o) => Some(IpValue::V4(o)),
        None => match ipv6_groups(s) {
            Some(g) => Some(IpValue::V6(g)),
            None => None,
        },
    }
}

// ---------------------------------------------------------------------------
// Private ranges
// ---------------------------------------------------------------------------

/// 10/8, 172.16/12, 192.168/16, 127/8 and 169.254/16.
pub open spec fn private_v4(o: Seq<u8>) -> bool {
    ||| o[0] == 10
    ||| (o[0] == 172 && 16 <= o[1] && o[1] <= 31)
    ||| (o[0] == 192 && o[1] == 168)
    ||| o[0] == 127
    ||| (o[0] == 169 && o[1] == 254)
}

/// `::1`, fe80::/10 and fc00::/7.
pub open spec fn private_v6(g: Seq<u16>) -> bool {
    ||| g == seq![0u16, 0u16, 0u16, 0u16, 0u16, 0u16, 0u16, 1u16]
    ||| (g[0] & 0xffc0u16) == 0xfe80u16
    ||| (g[0] & 0xfe00u16) == 0xfc00u16
}

/// `ip`, without surrounding brackets, is an address in a private,
/// loopback or link-local range.
pub open spec fn is_private_spec(ip: Seq<char>) -> bool {
    let s = strip_trailing(strip_leading(ip, '['), ']');
    match ipv4_octets(s) {
        Some(o) => private_v4(o),
        None => match ipv6_groups(s) {
            Some(g) => private_v6(g),
            None => false,
        },
    }
}

// ---------------------------------------------------------------------------
// Networks
// ---------------------------------------------------------------------------

pub open spec fn pow2(n: nat) -> nat
    decreases n,
{
    if n == 0 {
        1
    } else {
        2 * pow2((n - 1) as nat)
    }
}

pub open spec fn octets_value(o: Seq<u8>) -> nat
    decreases o.len(),
{
    if o.len() == 0 {
        0
    } else {
        octets_value(o.drop_last()) * 256 + o.last() as nat
    }
}

pub open spec fn groups_value(g: Seq<u16>) -> nat
    decreases g.len(),
{
    if g.len() == 0 {
        0
    } else {
        groups_value(g.drop_last()) * 65536 + g.last() as nat
    }
}

/// The first `prefix` of `width` bits of `a` and `b` agree.
pub open spec fn same_prefix(a: nat, b: nat, width: nat, prefix: nat) -> bool {
    a / pow2((width - prefix) as nat) == b / pow2((width - prefix) as nat)
}

/// `net` contains the address `ip` (of the same family).
pub open spec fn network_contains(net: IpNetwork, ip: IpValue) -> bool {
    match (net, ip) {
        (IpNetwork::V4 { addr, prefix_len }, IpValue::V4(o)) => same_prefix(
            addr as nat,
            octets_value(o),
            32,
            prefix_len as nat,
        ),
        (IpNetwork::V6 { addr, prefix_len }, IpValue::V6(g)) => same_prefix(
            addr as nat,
            groups_value(g),
            128,
            prefix_len as nat,
        ),
        _ => false,
    }
}

/// What `str::parse::<ipnet::IpNet>` gives for `s`: the network's address
/// and prefix length, or `None` where `s` is not a network in CIDR form.
pub uninterp spec fn ipnet_parse(s: Seq<char>) -> Option<IpNetwork>;

/// The network that `net` writes contains `a`.
pub open spec fn subnet_admits(net: Seq<char>, a: IpValue) -> bool {
    match ipnet_parse(net) {
        Some(n) => network_contains(n, a),
        None => false,
    }
}

/// `ip` is an address that one of `subnets` contains.
pub open spec fn in_any_subnet_spec(ip: Seq<char>, subnets: Seq<Seq<char>>) -> bool {
    match parse_ip_spec(ip) {
        Some(a) => exists|k: int| 0 <= k < subnets.len() && #[trigger] subnet_admits(subnets[k], a),
        None => false,
    }
}

// ---------------------------------------------------------------------------
// Lemmas
// ---------------------------------------------------------------------------

proof fn lemma_hex_step(s: Seq<char>, i: int)
    requires
        0 <= i < s.len(),
    ensures
        hex_value(s.take(i + 1)) == hex_value(s.take(i)) * 16 + hex_digit_value(s[i]),
{
    assert(s.take(i + 1).drop_last() =~= s.take(i));
}

proof fn lemma_items_step(items: Seq<Seq<char>>, k: int, v4: bool)
    requires
        0 <= k < items.len(),
    ensures
        items_groups(items.take(k + 1), v4) == (match items_groups(items.take(k), false) {
            Some(h) => match item_groups(items[k], v4) {
                Some(t) => Some(h + t),
                None => None,
            },
            None => None,
        }),
{
    assert(items.take(k + 1).drop_last() =~= items.take(k));
}

proof fn lemma_items_prefix_fail(items: Seq<Seq<char>>, m: int, v4: bool)
    requires
        0 <= m < items.len(),
        items_groups(items.take(m), false) is None,
    ensures
        items_groups(items, v4) is None,
    decreases items.len(),
{
    if m == items.len() - 1 {
        assert(items.drop_last() =~= items.take(m));
    } else {
        assert(items.drop_last().take(m) =~= items.take(m));
        lemma_items_prefix_fail(items.drop_last(), m, false);
    }
}

proof fn lemma_pow2_le(a: nat, b: nat)
    requires
        a <= b,
    ensures
        pow2(a) <= pow2(b),
    decreases b,
{
    if a < b {
        lemma_pow2_le(a, (b - 1) as nat);
    }
}

proof fn lemma_pow2_pos(a: nat)
    ensures
        pow2(a) >= 1,
    decreases a,
{
    if a > 0 {
        lemma_pow2_pos((a - 1) as nat);
    }
}

proof fn lemma_pow2_values()
    ensures
        pow2(32) == 0x1_0000_0000,
        pow2(127) == 0x8000_0000_0000_0000_0000_0000_0000_0000,
{
    reveal_with_fuel(pow2, 33);
    assert(pow2(32) == 0x1_0000_0000);
    assert(pow2(64) == 0x1_0000_0000_0000_0000) by {
        reveal_with_fuel(pow2, 33);
        assert(pow2(48) == 0x1_0000_0000_0000);
    }
    assert(pow2(96) == 0x1_0000_0000_0000_0000_0000_0000) by {
        reveal_with_fuel(pow2, 33);
        assert(pow2(80) == 0x1_0000_0000_0000_0000_0000);
    }
    assert(pow2(127) == 0x8000_0000_0000_0000_0000_0000_0000_0000) by {
        reveal_with_fuel(pow2, 32);
        assert(pow2(112) == 0x1_0000_0000_0000_0000_0000_0000_0000);
    }
}

// ---------------------------------------------------------------------------
// Executable parsing
// ---------------------------------------------------------------------------

fn is_digit_char(c: char) -> (b: bool)
    ensures
        b == is_digit(c),
{
    let cu = c as u32;
    48 <= cu && cu <= 57
}

/// A decimal octet of an IPv4 address.
pub fn parse_dec_octet(s: &[char]) -> (r: Option<u8>)
    ensures
        r == dec_octet(s@),
{
    if s.len() < 1 || s.len() > 3 {
        return None;
    }
    let mut i: usize = 0;
    while i < s.len()
        invariant
            i <= s@.len(),
            forall|j: int| 0 <= j < i ==> is_digit(#[trigger] s@[j]),
        decreases s@.len() - i,
    {
        if !is_digit_char(s[i]) {
            return None;
        }
        i = i + 1;
    }
    if s.len() > 1 && s[0] == '0' {
        return None;
    }
    assert(!(s@.len() >= 2 && s@[0] == '+'));
    parse_u8(s)
}

/// The octets of a dotted-quad IPv4 address.
pub fn parse_ipv4(s: &[char]) -> (r: Option<Vec<u8>>)
    ensures
        match r {
            Some(o) => ipv4_octets(s@) == Some(o@),
            None => ipv4_octets(s@) is None,
        },
{
    let p = split_ranges(s, '.');
    let ghost ps = pieces(s@, p@);
    if p.len() != 4 {
        return None;
    }
    let mut out: Vec<u8> = Vec::new();
    let mut k: usize = 0;
    while k < 4
        invariant
            p@.len() == 4,
            ps == pieces(s@, p@),
            ps == split_on(s@, '.'),
            ranges_within(p@, s@.len()),
            k <= 4,
            out@.len() == k,
            forall|i: int| 0 <= i < k ==> dec_octet(ps[i]) == Some(#[trigger] out@[i]),
        decreases 4 - k,
    {
        let (a, b) = p[k];
        assert(a <= b && b <= s@.len()) by {
            assert(p@[k as int].0 <= p@[k as int].1);
        }
        match parse_dec_octet(&s[a..b]) {
            Some(v) => {
                out.push(v);
            },
            None => {
                assert(dec_octet(ps[k as int]) is None);
                return None;
            },
        }
        k = k + 1;
    }
    assert forall|i: int| 0 <= i < 4 implies (#[trigger] dec_octet(ps[i])) is Some by {
        assert(dec_octet(ps[i]) == Some(out@[i]));
    }
    assert(out@ =~= Seq::new(4, |i: int| dec_octet(ps[i])->0));
    Some(out)
}

/// A hexadecimal group of an IPv6 address.
pub fn parse_hex_group(s: &[char]) -> (r: Option<u16>)
    ensures
        r == hex_group(s@),
{
    if s.len() < 1 || s.len() > 4 {
        return None;
    }
    let mut acc: u32 = 0;
    let mut i: usize = 0;
    assert(s@.take(0) =~= Seq::<char>::empty());
    while i < s.len()
        invariant
            1 <= s@.len() <= 4,
            i <= s@.len(),
            forall|j: int| 0 <= j < i ==> is_hex(#[trigger] s@[j]),
            acc as nat == hex_value(s@.take(i as int)),
            acc < pow2(4 * i as nat),
        decreases s@.len() - i,
    {
        let cu = s[i] as u32;
        let d: u32 = if 48 <= cu && cu <= 57 {
            cu - 48
        } else if 97 <= cu && cu <= 102 {
            cu - 87
        } else if 65 <= cu && cu <= 70 {
            cu - 55
        } else {
            return None;
        };
        proof {
            lemma_hex_step(s@, i as int);
            reveal_with_fuel(pow2, 5);
            lemma_pow2_le(4 * i as nat, 12);
            assert(pow2(4 * (i + 1) as nat) == 16 * pow2(4 * i as nat)) by {
                reveal_with_fuel(pow2, 5);
            }
            assert(pow2(12) == 4096) by {
                reveal_with_fuel(pow2, 13);
            }
            assert(acc * 16 + d < 16 * pow2(4 * i as nat)) by (nonlinear_arith)
                requires
                    acc < pow2(4 * i as nat),
                    d < 16,
            ;
        }
        acc = acc * 16 + d;
        i = i + 1;
    }
    proof {
        assert(s@.take(i as int) =~= s@);
        assert(pow2(16) == 65536) by {
            reveal_with_fuel(pow2, 17);
        }
        lemma_pow2_le(4 * i as nat, 16);
    }
    Some(acc as u16)
}

/// The groups of a colon-separated list of items.
pub fn parse_group_list(s: &[char], v4_last: bool) -> (r: Option<Vec<u16>>)
    ensures
        match r {
            Some(g) => group_list(s@, v4_last) == Some(g@),
            None => group_list(s@, v4_last) is None,
        },
{
    let p = split_ranges(s, ':');
    let ghost items = pieces(s@, p@);
    let n = p.len();
    let mut out: Vec<u16> = Vec::new();
    let mut k: usize = 0;
    assert(items.take(0) =~= Seq::<Seq<char>>::empty());
    while k < n
        invariant
            n == p@.len(),
            n >= 1,
            items == pieces(s@, p@),
            items == split_on(s@, ':'),
            ranges_within(p@, s@.len()),
            k <= n,
            items_groups(items.take(k as int), false) == Some(out@),
        decreases n - k,
    {
        let (a, b) = p[k];
        assert(a <= b && b <= s@.len()) by {
            assert(p@[k as int].0 <= p@[k as int].1);
        }
        let item = &s[a..b];
        assert(item@ == items[k as int]);
        let last = k + 1 == n;
        proof {
            lemma_items_step(items, k as int, false);
            lemma_items_step(items, k as int, v4_last);
        }
        match parse_hex_group(item) {
            Some(g) => {
                out.push(g);
            },
            None => {
                if last && v4_last {
                    match parse_ipv4(item) {
                        Some(o) => {
                            let hi: u16 = (o[0] as u16) * 256 + (o[1] as u16);
                            let lo: u16 = (o[2] as u16) * 256 + (o[3] as u16);
                            out.push(hi);
                            out.push(lo);
                            proof {
                                assert(items.take(k + 1) =~= items);
                                assert(out@ =~= items_groups(items.take(k as int), false)->0
                                    + v4_as_groups(o@));
                            }
                            return Some(out);
                        },
                        None => {
                            assert(items.take(k + 1) =~= items);
                            return None;
                        },
                    }
                } else {
                    proof {
                        if last {
                            assert(items.take(k + 1) =~= items);
                        } else {
                            lemma_items_prefix_fail(items, k + 1, v4_last);
                        }
                    }
                    return None;
                }
            },
        }
        k = k + 1;
    }
    proof {
        assert(items.take(n as int) =~= items);
        let pre = items.take(n - 1);
        lemma_items_step(items, n - 1, false);
        lemma_items_step(items, n - 1, v4_last);
        assert(hex_group(items[n - 1]) is Some);
    }
    Some(out)
}

/// The position of the first `::` in `s`.
fn find_double_colon(s: &[char]) -> (r: Option<usize>)
    ensures
        match r {
            Some(i) => first_double_colon(s@) == Some(i as int),
            None => first_double_colon(s@) is None,
        },
{
    let mut i: usize = 0;
    while i < s.len()
        invariant
            i <= s@.len(),
            forall|j: int|
                0 <= j < i && j + 1 < s@.len() ==> !(s@[j] == ':' && #[trigger] s@[j + 1] == ':'),
        decreases s@.len() - i,
    {
        if i + 1 < s.len() && s[i] == ':' && s[i + 1] == ':' {
            assert(first_double_colon_at(s@, i as int));
            let ghost c = choose|x: int| first_double_colon_at(s@, x);
            assert(c == i) by {
                if c < i {
                    assert(!(s@[c] == ':' && s@[c + 1] == ':'));
                } else if c > i {
                    assert(!(s@[i as int] == ':' && s@[i + 1] == ':'));
                }
            }
            return Some(i);
        }
        i = i + 1;
    }
    assert forall|x: int| !first_double_colon_at(s@, x) by {
        if first_double_colon_at(s@, x) {
            assert(!(s@[x] == ':' && s@[x + 1] == ':'));
        }
    }
    None
}

fn parse_side(s: &[char], v4_last: bool) -> (r: Option<Vec<u16>>)
    ensures
        match r {
            Some(g) => side_groups(s@, v4_last) == Some(g@),
            None => side_groups(s@, v4_last) is None,
        },
{
    if s.len() == 0 {
        Some(Vec::new())
    } else {
        parse_group_list(s, v4_last)
    }
}

/// The eight groups of an IPv6 address.
pub fn parse_ipv6(s: &[char]) -> (r: Option<Vec<u16>>)
    ensures
        match r {
            Some(g) => ipv6_groups(s@) == Some(g@),
            None => ipv6_groups(s@) is None,
        },
{
    match find_double_colon(s) {
        None => match parse_group_list(s, true) {
            Some(g) => if g.len() == 8 {
                Some(g)
            } else {
                None
            },
            None => None,
        },
        Some(i) => {
            assert(first_double_colon_at(s@, i as int));
            let n = s.len();
            let head = &s[0..i];
            let tail = &s[i + 2..n];
            assert(head@ == s@.take(i as int));
            assert(tail@ == s@.skip(i + 2));
            let h = parse_side(head, false);
            let t = parse_side(tail, true);
            match (h, t) {
                (Some(h), Some(t)) => {
                    if h.len() <= 7 && t.len() <= 7 - h.len() {
                        let mut g = h;
                        let ghost hv = g@;
                        let zeros = 8 - g.len() - t.len();
                        let mut z: usize = 0;
                        while z < zeros
                            invariant
                                z <= zeros,
                                g@ == hv + Seq::new(z as nat, |k: int| 0u16),
                            decreases zeros - z,
                        {
                            g.push(0);
                            assert(g@ =~= hv + Seq::new((z + 1) as nat, |k: int| 0u16));
                            z = z + 1;
                        }
                        let mut j: usize = 0;
                        let ghost mid = g@;
                        while j < t.len()
                            invariant
                                j <= t@.len(),
                                g@ == mid + t@.take(j as int),
                            decreases t@.len() - j,
                        {
                            g.push(t[j]);
                            assert(g@ =~= mid + t@.take(j + 1));
                            j = j + 1;
                        }
                        assert(t@.take(t@.len() as int) =~= t@);
                        Some(g)
                    } else {
                        None
                    }
                },
                _ => None,
            }
        },
    }
}

/// `s` as an IP address (`str::parse::<std::net::IpAddr>`).
pub fn parse_ip(s: &[char]) -> (r: Option<IpAddress>)
    ensures
        match r {
            Some(a) => parse_ip_spec(s@) == Some(a@),
            None => parse_ip_spec(s@) is None,
        },
{
    match parse_ipv4(s) {
        Some(o) => Some(IpAddress::V4(o)),
        None => match parse_ipv6(s) {
            Some(g) => Some(IpAddress::V6(g)),
            None => None,
        },
    }
}

fn is_private_v4(o: &Vec<u8>) -> (b: bool)
    requires
        o@.len() == 4,
    ensures
        b == private_v4(o@),
{
    o[0] == 10 || (o[0] == 172 && 16 <= o[1] && o[1] <= 31) || (o[0] == 192 && o[1] == 168)
        || o[0] == 127 || (o[0] == 169 && o[1] == 254)
}

fn is_private_v6(g: &Vec<u16>) -> (b: bool)
    requires
        g@.len() == 8,
    ensures
        b == private_v6(g@),
{
    let loopback = g[0] == 0 && g[1] == 0 && g[2] == 0 && g[3] == 0 && g[4] == 0 && g[5] == 0
        && g[6] == 0 && g[7] == 1;
    if loopback {
        assert(g@ =~= seq![0u16, 0u16, 0u16, 0u16, 0u16, 0u16, 0u16, 1u16]);
    } else {
        let ghost l = seq![0u16, 0u16, 0u16, 0u16, 0u16, 0u16, 0u16, 1u16];
        assert(g@ != l) by {
            if g@ == l {
                assert(g@[0] == l[0] && g@[1] == l[1] && g@[2] == l[2] && g@[3] == l[3]);
                assert(g@[4] == l[4] && g@[5] == l[5] && g@[6] == l[6] && g@[7] == l[7]);
            }
        }
    }
    loopback || (g[0] & 0xffc0u16) == 0xfe80u16 || (g[0] & 0xfe00u16) == 0xfc00u16
}

/// `ip`, without surrounding brackets, lies in a private, loopback or
/// link-local range.
pub fn is_private_chars(ip: &[char]) -> (b: bool)
    ensures
        b == is_private_spec(ip@),
{
    let (lo, hi) = strip_bounds(ip, '[', ']');
    let s = &ip[lo..hi];
    match parse_ipv4(s) {
        Some(o) => {
            proof {
                assert(o@.len() == 4);
            }
            is_private_v4(&o)
        },
        None => match parse_ipv6(s) {
            Some(g) => {
                proof {
                    lemma_ipv6_len(s@);
                }
                is_private_v6(&g)
            },
            None => false,
        },
    }
}

/// Every address that the IPv6 grammar accepts has eight groups.
pub proof fn lemma_ipv6_len(s: Seq<char>)
    ensures
        ipv6_groups(s) matches Some(g) ==> g.len() == 8,
{
}

/// The octets' value as a 32-bit number.
fn v4_value(o: &Vec<u8>) -> (v: u32)
    requires
        o@.len() == 4,
    ensures
        v as nat == octets_value(o@),
{
    proof {
        reveal_with_fuel(octets_value, 5);
        assert(o@.drop_last().drop_last().drop_last().drop_last() =~= Seq::<u8>::empty());
    }
    (o[0] as u32) * 0x100_0000 + (o[1] as u32) * 0x1_0000 + (o[2] as u32) * 0x100 + (o[3] as u32)
}

/// The groups' value as a 128-bit number.
fn v6_value(g: &Vec<u16>) -> (v: u128)
    requires
        g@.len() == 8,
    ensures
        v as nat == groups_value(g@),
{
    let mut acc: u128 = 0;
    let mut i: usize = 0;
    assert(g@.take(0) =~= Seq::<u16>::empty());
    while i < 8
        invariant
            g@.len() == 8,
            i <= 8,
            acc as nat == groups_value(g@.take(i as int)),
            acc < pow2(16 * i as nat),
        decreases 8 - i,
    {
        proof {
            assert(g@.take(i + 1).drop_last() =~= g@.take(i as int));
            assert(pow2(16 * (i + 1) as nat) == 65536 * pow2(16 * i as nat)) by {
                reveal_with_fuel(pow2, 17);
            }
            lemma_pow2_le(16 * (i + 1) as nat, 128);
            assert(pow2(128) == 2 * pow2(127));
            lemma_pow2_values();
            assert(acc * 65536 + g@[i as int] < 65536 * pow2(16 * i as nat)) by (nonlinear_arith)
                requires
                    acc < pow2(16 * i as nat),
                    g@[i as int] < 65536,
            ;
        }
        acc = acc * 65536 + (g[i] as u128);
        i = i + 1;
    }
    assert(g@.take(8) =~= g@);
    acc
}

/// The first `prefix` bits of the `width`-bit numbers `a` and `b` agree.
fn same_prefix_exec(a: u128, b: u128, width: u8, prefix: u8) -> (r: bool)
    requires
        prefix <= width <= 128,
        a < pow2(width as nat),
        b < pow2(width as nat),
    ensures
        r == same_prefix(a as nat, b as nat, width as nat, prefix as nat),
{
    if prefix == 0 {
        proof {
            assert((a as nat) / pow2(width as nat) == 0 && (b as nat) / pow2(width as nat) == 0) by (nonlinear_arith)
                requires
                    a < pow2(width as nat),
                    b < pow2(width as nat),
                    a >= 0,
                    b >= 0,
            ;
        }
        return true;
    }
    let shift: u8 = width - prefix;
    let mut d: u128 = 1;
    let mut k: u8 = 0;
    while k < shift
        invariant
            k <= shift,
            shift == width - prefix,
            prefix >= 1,
            width <= 128,
            d as nat == pow2(k as nat),
        decreases shift - k,
    {
        proof {
            lemma_pow2_le((k + 1) as nat, 127);
            lemma_pow2_values();
        }
        d = d * 2;
        k = k + 1;
    }
    proof {
        lemma_pow2_pos(shift as nat);
    }
    a / d == b / d
}

/// `net` contains `ip`.
pub fn network_contains_exec(net: &IpNetwork, ip: &IpAddress) -> (b: bool)
    requires
        match *net {
            IpNetwork::V4 { prefix_len, .. } => prefix_len <= 32,
            IpNetwork::V6 { prefix_len, .. } => prefix_len <= 128,
        },
        match *ip {
            IpAddress::V4(o) => o@.len() == 4,
            IpAddress::V6(g) => g@.len() == 8,
        },
    ensures
        b == network_contains(*net, ip@),
{
    match (net, ip) {
        (IpNetwork::V4 { addr, prefix_len }, IpAddress::V4(o)) => {
            let v = v4_value(o);
            proof {
                lemma_pow2_values();
            }
            same_prefix_exec(*addr as u128, v as u128, 32, *prefix_len)
        },
        (IpNetwork::V6 { addr, prefix_len }, IpAddress::V6(g)) => {
            let v = v6_value(g);
            proof {
                lemma_pow2_values();
                assert(pow2(128) == 2 * pow2(127));
            }
            same_prefix_exec(*addr, v, 128, *prefix_len)
        },
        _ => false,
    }
}

/// `s` parsed as an `ipnet::IpNet`, by the `ipnet` crate.
#[verifier::external_body]
fn parse_ip_network(s: &str) -> (r: Option<IpNetwork>)
    ensures
        r == ipnet_parse(s@),
        r matches Some(IpNetwork::V4 { prefix_len, .. }) ==> prefix_len <= 32,
        r matches Some(IpNetwork::V6 { prefix_len, .. }) ==> prefix_len <= 128,
{
    match s.parse::<ipnet::IpNet>() {
        Ok(ipnet::IpNet::V4(n)) => Some(IpNetwork::V4 { addr: u32::from(n.addr()), prefix_len: n.prefix_len() }),
        Ok(ipnet::IpNet::V6(n)) => Some(IpNetwork::V6 { addr: u128::from(n.addr()), prefix_len: n.prefix_len() }),
        Err(_) => None,
    }
}

/// Whether `ip` is an address that one of the CIDR networks `subnets`
/// contains; `false` where `ip` is no address.
pub fn ip_in_any_subnet(ip: &str, subnets: &[String]) -> (b: bool)
    ensures
        b == in_any_subnet_spec(ip@, subnets@.map_values(|t: String| t@)),
{
    let ghost nets = subnets@.map_values(|t: String| t@);
    let cs = chars_of(ip);
    let addr = match parse_ip(cs.as_slice()) {
        Some(a) => a,
        None => return false,
    };
    proof {
        lemma_ipv6_len(ip@);
    }
    let mut k: usize = 0;
    while k < subnets.len()
        invariant
            k <= subnets@.len(),
            nets == subnets@.map_values(|t: String| t@),
            parse_ip_spec(ip@) == Some(addr@),
            match addr {
                IpAddress::V4(o) => o@.len() == 4,
                IpAddress::V6(g) => g@.len() == 8,
            },
            forall|j: int| 0 <= j < k ==> !#[trigger] subnet_admits(nets[j], addr@),
        decreases subnets@.len() - k,
    {
        match parse_ip_network(subnets[k].as_str()) {
            Some(net) => {
                if network_contains_exec(&net, &addr) {
                    assert(subnet_admits(nets[k as int], addr@));
                    return true;
                }
            },
            None => {},
        }
        k = k + 1;
    }
    false
}

} // verus!
