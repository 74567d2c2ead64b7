//! IP addresses and socket addresses, and the text they are written in.

use vstd::prelude::*;
use vstd::slice::slice_subrange;

use crate::text;

verus! {

#[derive(Clone, Copy, Debug, PartialEq, Eq, PartialOrd, Ord, Hash, Structural)]
pub struct Ipv4Addr {
    pub bits: u32,
}

#[derive(Clone, Copy, Debug, PartialEq, Eq, PartialOrd, Ord, Hash, Structural)]
pub struct Ipv6Addr {
    pub bits: u128,
}

#[derive(Clone, Copy, Debug, PartialEq, Eq, PartialOrd, Ord, Hash, Structural)]
pub enum IpAddr {
    V4(Ipv4Addr),
    V6(Ipv6Addr),
}

// ---------------------------------------------------------------------------
// Addresses as numbers

/// The four octets of an IPv4 address, the most significant first.
pub open spec fn octets(bits: u32) -> Seq<nat> {
    seq![
        (bits / 16777216) as nat,
        (bits / 65536 % 256) as nat,
        (bits / 256 % 256) as nat,
        (bits % 256) as nat,
    ]
}

/// The `k` least significant groups of sixteen bits of `n`, the most
/// significant first.
pub open spec fn groups(n: nat, k: nat) -> Seq<u16>
    decreases k,
{
    if k == 0 {
        Seq::empty()
    } else {
        groups(n / 65536, (k - 1) as nat).push((n % 65536) as u16)
    }
}

/// The number whose groups of sixteen bits are given.
pub open spec fn groups_number(g: Seq<u16>) -> nat
    decreases g.len(),
{
    if g.len() == 0 {
        0
    } else {
        65536 * groups_number(g.drop_last()) + g.last() as nat
    }
}

pub open spec fn group_limit(k: nat) -> nat
    decreases k,
{
    if k == 0 {
        1
    } else {
        65536 * group_limit((k - 1) as nat)
    }
}

impl Ipv6Addr {
    /// The eight groups of the address.
    pub open spec fn spec_segments(self) -> Seq<u16> {
        groups(self.bits as nat, 8)
    }
}

proof fn lemma_group_limit()
    ensures
        group_limit(8) == 0x1_0000_0000_0000_0000_0000_0000_0000_0000,
{
    reveal_with_fuel(group_limit, 9);
}

proof fn lemma_groups_number(n: nat, k: nat)
    requires
        n < group_limit(k),
    ensures
        groups(n, k).len() == k,
        groups_number(groups(n, k)) == n,
    decreases k,
{
    if k > 0 {
        assert(n / 65536 < group_limit((k - 1) as nat));
        lemma_groups_number(n / 65536, (k - 1) as nat);
        assert(groups(n, k).drop_last() =~= groups(n / 65536, (k - 1) as nat));
    }
}

proof fn lemma_number_groups(g: Seq<u16>)
    ensures
        groups_number(g) < group_limit(g.len()),
        groups(groups_number(g), g.len()) == g,
    decreases g.len(),
{
    if g.len() > 0 {
        lemma_number_groups(g.drop_last());
        assert(groups(groups_number(g), g.len()) =~= g);
    }
}

// ---------------------------------------------------------------------------
// How an address is written

/// The dotted decimal notation of an IPv4 address.
pub open spec fn v4_text(bits: u32) -> Seq<char> {
    text::join(octets(bits).map_values(|o: nat| text::decimal(o)), seq!['.'])
}

/// Groups in hexadecimal, with colons between them.
pub open spec fn groups_text(g: Seq<u16>) -> Seq<char> {
    text::join(g.map_values(|x: u16| text::hexadecimal(x as nat)), seq![':'])
}

pub open spec fn is_zero_run(g: Seq<u16>, start: int, len: int) -> bool {
    &&& 0 <= start
    &&& 0 <= len
    &&& start + len <= g.len()
    &&& forall|i: int| start <= i < start + len ==> g[i] == 0
}

/// A run of zero groups than which none is longer and of whose length none is
/// earlier.
pub open spec fn is_longest_zero_run(g: Seq<u16>, start: int, len: int) -> bool {
    &&& is_zero_run(g, start, len)
    &&& forall|a: int, l: int| #[trigger]
        is_zero_run(g, a, l) ==> l < len || (l == len && start <= a)
}

pub open spec fn longest_zero_run(g: Seq<u16>) -> (int, int) {
    choose|r: (int, int)| is_longest_zero_run(g, r.0, r.1)
}

/// The notation of an IPv6 address: an address that maps an IPv4 address ends
/// in dotted decimal, and else the longest run of at least two zero groups is
/// written `::`.
pub open spec fn v6_text(bits: u128) -> Seq<char> {
    let g = groups(bits as nat, 8);
    let run = longest_zero_run(g);
    if bits / 0x1_0000_0000 == 0xffff {
        seq![':', ':', 'f', 'f', 'f', 'f', ':'] + v4_text((bits % 0x1_0000_0000) as u32)
    } else if run.1 > 1 {
        groups_text(g.take(run.0)) + seq![':', ':'] + groups_text(g.skip(run.0 + run.1))
    } else {
        groups_text(g)
    }
}

impl IpAddr {
    /// The text of the address.
    pub open spec fn text(self) -> Seq<char> {
        match self {
            IpAddr::V4(a) => v4_text(a.bits),
            IpAddr::V6(a) => v6_text(a.bits),
        }
    }

    /// The place of an address in the order of addresses: IPv4 before IPv6,
    /// and then by number.
    pub open spec fn rank(self) -> int {
        match self {
            IpAddr::V4(a) => a.bits as int,
            IpAddr::V6(a) => 0x1_0000_0000 + a.bits,
        }
    }
}

// ---------------------------------------------------------------------------
// What a text denotes

/// The IPv4 address that `s` is the dotted decimal notation of.
pub open spec fn v4_of(s: Seq<char>) -> Option<u32> {
    if exists|b: u32| s == #[trigger] v4_text(b) {
        Some(choose|b: u32| s == #[trigger] v4_text(b))
    } else {
        None
    }
}

/// One to four hexadecimal digits.
pub open spec fn group_of(p: Seq<char>) -> Option<u16> {
    if text::is_hex(p) && p.len() <= 4 {
        Some(text::hex_value(p) as u16)
    } else {
        None
    }
}

pub open spec fn v4_groups(bits: u32) -> Seq<u16> {
    seq![(bits / 65536) as u16, (bits % 65536) as u16]
}

/// The groups that a list of pieces denotes; where `v4_tail` holds, the last
/// piece may be an IPv4 address and then stands for two groups.
pub open spec fn groups_of(parts: Seq<Seq<char>>, v4_tail: bool) -> Option<Seq<u16>>
    decreases parts.len(),
{
    if parts.len() == 0 {
        Some(Seq::empty())
    } else if v4_tail && parts.len() == 1 && v4_of(parts[0]) is Some {
        Some(v4_groups(v4_of(parts[0])->0))
    } else {
        match (group_of(parts[0]), groups_of(parts.drop_first(), v4_tail)) {
            (Some(g), Some(rest)) => Some(seq![g] + rest),
            _ => None,
        }
    }
}

/// The groups on one side of `::`; there may be none.
pub open spec fn side_of(s: Seq<char>, v4_tail: bool) -> Option<Seq<u16>> {
    if s.len() == 0 {
        Some(Seq::empty())
    } else {
        groups_of(text::split(s, ':'), v4_tail)
    }
}

/// The position of the first `::` in `s`, or the length of `s` if there is none.
pub open spec fn find_gap(s: Seq<char>) -> nat
    decreases s.len(),
{
    if s.len() == 0 || (s.len() > 1 && s[0] == ':' && s[1] == ':') {
        0
    } else {
        1 + find_gap(s.drop_first())
    }
}

pub open spec fn zeros(n: nat) -> Seq<u16> {
    Seq::new(n, |i: int| 0u16)
}

/// The eight groups that the text of an IPv6 address denotes: all eight, or
/// some, with `::` for one or more groups of zero.
pub open spec fn v6_groups_of(s: Seq<char>) -> Option<Seq<u16>> {
    let i = find_gap(s) as int;
    if i < s.len() {
        match (side_of(s.take(i), false), side_of(s.skip(i + 2), true)) {
            (Some(h), Some(t)) => if h.len() + t.len() <= 7 {
                Some(h + zeros((8 - h.len() - t.len()) as nat) + t)
            } else {
                None
            },
            _ => None,
        }
    } else {
        match groups_of(text::split(s, ':'), true) {
            Some(g) => if g.len() == 8 {
                Some(g)
            } else {
                None
            },
            None => None,
        }
    }
}

/// The address that a text denotes.
pub open spec fn ip_of(s: Seq<char>) -> Option<IpAddr> {
    match v4_of(s) {
        Some(bits) => Some(IpAddr::V4(Ipv4Addr { bits })),
        None => match v6_groups_of(s) {
            Some(g) => Some(IpAddr::V6(Ipv6Addr { bits: groups_number(g) as u128 })),
            None => None,
        },
    }
}


// ---------------------------------------------------------------------------
// Facts

proof fn lemma_decimal_without(n: nat, c: char)
    requires
        !text::is_digit(c),
    ensures
        !text::decimal(n).contains(c),
{
    text::lemma_decimal(n);
}

proof fn lemma_hexadecimal_without_colon(n: nat)
    ensures
        !text::hexadecimal(n).contains(':'),
{
    text::lemma_hexadecimal(n);
}

pub open spec fn octet_texts(bits: u32) -> Seq<Seq<char>> {
    octets(bits).map_values(|o: nat| text::decimal(o))
}

proof fn lemma_v4_split(bits: u32)
    ensures
        text::split(v4_text(bits), '.') == octet_texts(bits),
{
    let parts = octet_texts(bits);
    assert forall|i: int| 0 <= i < parts.len() implies !(#[trigger] parts[i]).contains('.') by {
        lemma_decimal_without(octets(bits)[i], '.');
    }
    text::lemma_split_join(parts, '.');
}

pub proof fn lemma_octets_number(bits: u32)
    ensures
        bits == octets(bits)[0] * 16777216 + octets(bits)[1] * 65536 + octets(bits)[2] * 256
            + octets(bits)[3],
{
    let x = bits / 256;
    let y = bits / 65536;
    assert(x / 256 == y);
    assert(y / 256 == bits / 16777216);
}

/// No two addresses share a dotted decimal notation.
pub proof fn lemma_v4_text_injective(a: u32, b: u32)
    requires
        v4_text(a) == v4_text(b),
    ensures
        a == b,
{
    lemma_v4_split(a);
    lemma_v4_split(b);
    assert forall|i: int| 0 <= i < 4 implies octets(a)[i] == octets(b)[i] by {
        text::lemma_decimal(octets(a)[i]);
        text::lemma_decimal(octets(b)[i]);
        assert(octet_texts(a)[i] == octet_texts(b)[i]);
    }
    lemma_octets_number(a);
    lemma_octets_number(b);
    assert(octets(a) =~= octets(b));
}

/// The notation of an IPv4 address denotes that address.
pub proof fn lemma_v4_round_trip(bits: u32)
    ensures
        v4_of(v4_text(bits)) == Some(bits),
{
    let s = v4_text(bits);
    let b = choose|b: u32| s == #[trigger] v4_text(b);
    lemma_v4_text_injective(bits, b);
}

proof fn lemma_octets(a: u8, b: u8, c: u8, d: u8, bits: u32)
    requires
        bits == a * 16777216 + b * 65536 + c * 256 + d,
    ensures
        octets(bits) == seq![a as nat, b as nat, c as nat, d as nat],
{
    assert(bits / 16777216 == a && bits / 65536 == a * 256 + b && bits / 256 == a * 65536 + b * 256
        + c);
    assert((a * 256 + b) % 256 == b);
    assert((a * 65536 + b * 256 + c) % 256 == c);
    assert(bits % 256 == d);
    assert(octets(bits) =~= seq![a as nat, b as nat, c as nat, d as nat]);
}

proof fn lemma_v4_of_parts(s: Seq<char>, a: u8, b: u8, c: u8, d: u8, bits: u32)
    requires
        text::split(s, '.') == seq![
            text::decimal(a as nat),
            text::decimal(b as nat),
            text::decimal(c as nat),
            text::decimal(d as nat),
        ],
        bits == a * 16777216 + b * 65536 + c * 256 + d,
    ensures
        v4_of(s) == Some(bits),
{
    lemma_octets(a, b, c, d, bits);
    text::lemma_join_split(s, '.');
    assert(octet_texts(bits) =~= text::split(s, '.'));
    lemma_v4_round_trip(bits);
}

proof fn lemma_v4_none(s: Seq<char>)
    requires
        ({
            let parts = text::split(s, '.');
            ||| parts.len() != 4
            ||| exists|i: int|
                0 <= i < parts.len() && forall|n: nat|
                    n < 256 ==> #[trigger] parts[i] != #[trigger] text::decimal(n)
        }),
    ensures
        v4_of(s) is None,
{
    if exists|b: u32| s == #[trigger] v4_text(b) {
        let b = choose|b: u32| s == #[trigger] v4_text(b);
        lemma_v4_split(b);
        let parts = text::split(s, '.');
        let i = choose|i: int|
            0 <= i < parts.len() && forall|n: nat|
                n < 256 ==> #[trigger] parts[i] != #[trigger] text::decimal(n);
        assert(parts[i] == text::decimal(octets(b)[i]));
        assert(octets(b)[i] < 256);
    }
}

// ---------------------------------------------------------------------------
// Reading addresses

fn parse_octet(p: &[char]) -> (r: Option<u8>)
    ensures
        r matches Some(n) ==> p@ == text::decimal(n as nat),
        r is None ==> forall|n: nat| n < 256 ==> p@ != #[trigger] text::decimal(n),
{
    proof {
        assert forall|n: nat| n < 256 && p@ == #[trigger] text::decimal(n) implies {
            &&& text::is_digits(p@)
            &&& text::digits_value(p@) == n
            &&& p@.len() > 1 ==> p@[0] != '0'
        } by {
            text::lemma_decimal(n);
        }
    }
    match text::parse_digits(p, 255) {
        None => None,
        Some(n) => {
            if p.len() > 1 && p[0] == '0' {
                None
            } else {
                proof {
                    text::lemma_canonical_decimal(p@);
                }
                Some(n as u8)
            }
        },
    }
}

fn parse_v4(v: &[char]) -> (r: Option<u32>)
    ensures
        r == v4_of(v@),
{
    let parts = text::split_chars(v, '.');
    let ghost texts = parts@.map_values(|p: Vec<char>| p@);
    if parts.len() != 4 {
        proof {
            lemma_v4_none(v@);
        }
        return None;
    }
    let a = parse_octet(&parts[0]);
    let b = parse_octet(&parts[1]);
    let c = parse_octet(&parts[2]);
    let d = parse_octet(&parts[3]);
    assert(texts[0] == parts@[0]@ && texts[1] == parts@[1]@ && texts[2] == parts@[2]@ && texts[3]
        == parts@[3]@);
    match (a, b, c, d) {
        (Some(a), Some(b), Some(c), Some(d)) => {
            let bits: u32 = a as u32 * 16777216 + b as u32 * 65536 + c as u32 * 256 + d as u32;
            proof {
                assert(texts =~= seq![
                    text::decimal(a as nat),
                    text::decimal(b as nat),
                    text::decimal(c as nat),
                    text::decimal(d as nat),
                ]);
                lemma_v4_of_parts(v@, a, b, c, d, bits);
            }
            Some(bits)
        },
        _ => {
            proof {
                lemma_v4_none(v@);
            }
            None
        },
    }
}

proof fn lemma_group_limit_grows(i: nat, k: nat)
    requires
        i <= k,
    ensures
        1 <= group_limit(i) <= group_limit(k),
    decreases k,
{
    if k > 0 {
        if i < k {
            lemma_group_limit_grows(i, (k - 1) as nat);
        } else {
            lemma_group_limit_grows((k - 1) as nat, (k - 1) as nat);
        }
    }
}

fn parse_group(p: &[char]) -> (r: Option<u16>)
    ensures
        r == group_of(p@),
{
    if p.len() == 0 || p.len() > 4 {
        return None;
    }
    let mut n: u32 = 0;
    let mut i: usize = 0;
    while i < p.len()
        invariant
            i <= p@.len() <= 4,
            n == text::hex_value(p@.take(i as int)),
            i == 0 ==> n == 0,
            i == 1 ==> n < 16,
            i == 2 ==> n < 256,
            i == 3 ==> n < 4096,
            i == 4 ==> n < 65536,
            forall|k: int| 0 <= k < i ==> text::is_hex_digit(#[trigger] p@[k]),
        decreases p@.len() - i,
    {
        let c = p[i];
        let d: u32 = if '0' <= c && c <= '9' {
            c as u32 - 48
        } else if 'a' <= c && c <= 'f' {
            c as u32 - 87
        } else if 'A' <= c && c <= 'F' {
            c as u32 - 55
        } else {
            assert(!text::is_hex_digit(p@[i as int]));
            return None;
        };
        assert(p@.take(i + 1).drop_last() =~= p@.take(i as int));
        n = 16 * n + d;
        i = i + 1;
    }
    assert(p@.take(i as int) =~= p@);
    Some(n as u16)
}

proof fn lemma_groups_none(parts: Seq<Seq<char>>, v4_tail: bool, k: int)
    requires
        0 <= k <= parts.len(),
        groups_of(parts.skip(k), v4_tail) is None,
    ensures
        groups_of(parts, v4_tail) is None,
    decreases k,
{
    if k == 0 {
        assert(parts.skip(0) =~= parts);
    } else {
        assert(parts.drop_first().skip(k - 1) =~= parts.skip(k));
        lemma_groups_none(parts.drop_first(), v4_tail, k - 1);
    }
}

fn parse_groups(parts: &Vec<Vec<char>>, v4_tail: bool) -> (r: Option<Vec<u16>>)
    ensures
        match r {
            Some(g) => groups_of(parts@.map_values(|p: Vec<char>| p@), v4_tail) == Some(g@),
            None => groups_of(parts@.map_values(|p: Vec<char>| p@), v4_tail) is None,
        },
{
    let ghost texts = parts@.map_values(|p: Vec<char>| p@);
    let mut g: Vec<u16> = Vec::new();
    let mut i: usize = parts.len();
    assert(texts.skip(i as int) =~= Seq::empty());
    while i > 0
        invariant
            i <= parts@.len(),
            texts == parts@.map_values(|p: Vec<char>| p@),
            groups_of(texts.skip(i as int), v4_tail) == Some(g@),
        decreases i,
    {
        let ghost rest = texts.skip(i - 1);
        assert(rest.drop_first() =~= texts.skip(i as int));
        assert(rest[0] == parts@[i - 1]@);
        let tail = if v4_tail && i == parts.len() {
            parse_v4(&parts[i - 1])
        } else {
            None
        };
        match tail {
            Some(bits) => {
                assert(rest.len() == 1);
                g = Vec::new();
                g.push((bits / 65536) as u16);
                g.push((bits % 65536) as u16);
                assert(g@ =~= v4_groups(bits));
            },
            None => {
                match parse_group(&parts[i - 1]) {
                    Some(x) => {
                        let ghost before = g@;
                        g.insert(0, x);
                        assert(g@ =~= seq![x] + before);
                    },
                    None => {
                        proof {
                            lemma_groups_none(texts, v4_tail, i - 1);
                        }
                        return None;
                    },
                }
            },
        }
        i = i - 1;
    }
    assert(texts.skip(0) =~= texts);
    Some(g)
}

fn parse_side(v: &[char], v4_tail: bool) -> (r: Option<Vec<u16>>)
    ensures
        match r {
            Some(g) => side_of(v@, v4_tail) == Some(g@),
            None => side_of(v@, v4_tail) is None,
        },
{
    if v.len() == 0 {
        let g: Vec<u16> = Vec::new();
        assert(g@ =~= Seq::empty());
        Some(g)
    } else {
        parse_groups(&text::split_chars(v, ':'), v4_tail)
    }
}

proof fn lemma_find_gap_is(s: Seq<char>, k: int)
    requires
        0 <= k <= s.len(),
        forall|i: int| 0 <= i < k ==> !(i + 1 < s.len() && #[trigger] s[i] == ':' && s[i + 1] == ':'),
        k < s.len() ==> k + 1 < s.len() && s[k] == ':' && s[k + 1] == ':',
    ensures
        find_gap(s) == k,
    decreases s.len(),
{
    if k > 0 {
        let t = s.drop_first();
        assert(!(1 < s.len() && s[0] == ':' && s[1] == ':'));
        assert forall|i: int| 0 <= i < k - 1 implies !(i + 1 < t.len() && #[trigger] t[i] == ':'
            && t[i + 1] == ':') by {
            assert(t[i] == s[i + 1]);
        }
        lemma_find_gap_is(t, k - 1);
    }
}

fn gap(v: &[char]) -> (i: usize)
    ensures
        i == find_gap(v@),
        i <= v@.len(),
        i < v@.len() ==> i + 2 <= v@.len(),
{
    let mut i: usize = 0;
    while i < v.len()
        invariant
            i <= v@.len(),
            forall|k: int|
                0 <= k < i ==> !(k + 1 < v@.len() && #[trigger] v@[k] == ':' && v@[k + 1] == ':'),
        decreases v@.len() - i,
    {
        if i + 1 < v.len() && v[i] == ':' && v[i + 1] == ':' {
            proof {
                lemma_find_gap_is(v@, i as int);
            }
            return i;
        }
        i = i + 1;
    }
    proof {
        lemma_find_gap_is(v@, i as int);
    }
    i
}

fn parse_v6_groups(v: &[char]) -> (r: Option<Vec<u16>>)
    ensures
        match r {
            Some(g) => v6_groups_of(v@) == Some(g@) && g@.len() == 8,
            None => v6_groups_of(v@) is None,
        },
{
    let i = gap(v);
    if i < v.len() {
        let head = parse_side(slice_subrange(v, 0, i), false);
        let tail = parse_side(slice_subrange(v, i + 2, v.len()), true);
        assert(v@.subrange(0, i as int) =~= v@.take(i as int));
        assert(v@.subrange(i + 2, v@.len() as int) =~= v@.skip(i + 2));
        match (head, tail) {
            (Some(head), Some(tail)) => {
                if head.len() > 7 || tail.len() > 7 - head.len() {
                    return None;
                }
                let ghost h = head@;
                let ghost t = tail@;
                let mut g = head;
                let mut tail = tail;
                let fill: usize = 8 - g.len() - tail.len();
                let mut k: usize = 0;
                while k < fill
                    invariant
                        k <= fill,
                        g@ == h + zeros(k as nat),
                    decreases fill - k,
                {
                    g.push(0);
                    k = k + 1;
                    assert(g@ =~= h + zeros(k as nat));
                }
                g.append(&mut tail);
                assert(g@ =~= h + zeros((8 - h.len() - t.len()) as nat) + t);
                Some(g)
            },
            _ => None,
        }
    } else {
        match parse_groups(&text::split_chars(v, ':'), true) {
            Some(g) => if g.len() == 8 {
                Some(g)
            } else {
                None
            },
            None => None,
        }
    }
}

fn number_of(g: &Vec<u16>) -> (n: u128)
    requires
        g@.len() == 8,
    ensures
        n == groups_number(g@),
{
    let mut n: u128 = 0;
    let mut i: usize = 0;
    while i < 8
        invariant
            i <= 8,
            g@.len() == 8,
            n == groups_number(g@.take(i as int)),
        decreases 8 - i,
    {
        proof {
            assert(g@.take(i + 1).drop_last() =~= g@.take(i as int));
            lemma_number_groups(g@.take(i + 1));
            lemma_group_limit_grows((i + 1) as nat, 8);
            lemma_group_limit();
        }
        n = 65536 * n + g[i] as u128;
        i = i + 1;
    }
    assert(g@.take(8) =~= g@);
    n
}

/// Reads an address from text.
pub fn parse_ip(s: &str) -> (r: Option<IpAddr>)
    ensures
        r == ip_of(s@),
{
    let v = text::to_chars(s);
    match parse_v4(&v) {
        Some(bits) => Some(IpAddr::V4(Ipv4Addr { bits })),
        None => match parse_v6_groups(&v) {
            Some(g) => Some(IpAddr::V6(Ipv6Addr { bits: number_of(&g) })),
            None => None,
        },
    }
}

// ---------------------------------------------------------------------------
// Writing addresses

proof fn lemma_longest_zero_run(g: Seq<u16>, start: int, len: int)
    requires
        is_longest_zero_run(g, start, len),
    ensures
        longest_zero_run(g) == (start, len),
{
    let r: (int, int) = (start, len);
    assert(is_longest_zero_run(g, r.0, r.1));
    let q = longest_zero_run(g);
    assert(is_longest_zero_run(g, q.0, q.1));
    assert(is_zero_run(g, q.0, q.1));
    assert(is_zero_run(g, start, len));
}

fn find_longest_zero_run(g: &Vec<u16>) -> (r: (usize, usize))
    ensures
        (r.0 as int, r.1 as int) == longest_zero_run(g@),
        r.0 + r.1 <= g@.len(),
{
    let mut best_start: usize = 0;
    let mut best_len: usize = 0;
    let mut start: usize = 0;
    let mut i: usize = 0;
    while i < g.len()
        invariant
            start <= i <= g@.len(),
            is_zero_run(g@, start as int, i - start),
            start == 0 || g@[start - 1] != 0,
            is_zero_run(g@, best_start as int, best_len as int),
            best_start + best_len <= i,
            forall|a: int, l: int| #[trigger]
                is_zero_run(g@, a, l) && a + l <= i ==> l < best_len || (l == best_len
                    && best_start <= a),
        decreases g@.len() - i,
    {
        let ghost (old_start, old_len) = (best_start, best_len);
        if g[i] == 0 {
            if i + 1 - start > best_len {
                best_start = start;
                best_len = i + 1 - start;
            }
            assert forall|a: int, l: int| #[trigger]
                is_zero_run(g@, a, l) && a + l <= i + 1 implies l < best_len || (l == best_len
                && best_start <= a) by {
                if a + l == i + 1 && l > 0 && a < start {
                    assert(g@[start - 1] == 0);
                }
            }
        } else {
            assert forall|a: int, l: int| #[trigger]
                is_zero_run(g@, a, l) && a + l <= i + 1 implies l < best_len || (l == best_len
                && best_start <= a) by {
                if a + l == i + 1 && l > 0 {
                    assert(g@[i as int] == 0);
                }
            }
            start = i + 1;
        }
        i = i + 1;
    }
    proof {
        assert(is_longest_zero_run(g@, best_start as int, best_len as int));
        lemma_longest_zero_run(g@, best_start as int, best_len as int);
    }
    (best_start, best_len)
}

fn v4_to_text(bits: u32) -> (r: String)
    ensures
        r@ == v4_text(bits),
{
    let mut parts: Vec<String> = Vec::new();
    parts.push(text::decimal_text((bits / 16777216) as u64));
    parts.push(text::decimal_text((bits / 65536 % 256) as u64));
    parts.push(text::decimal_text((bits / 256 % 256) as u64));
    parts.push(text::decimal_text((bits % 256) as u64));
    let r = text::join_strings(&parts, ".");
    proof {
        reveal_strlit(".");
        assert("."@ =~= seq!['.']);
        assert(text::views(parts@) =~= octet_texts(bits));
    }
    r
}

fn groups_to_text(g: &[u16]) -> (r: String)
    ensures
        r@ == groups_text(g@),
{
    let mut parts: Vec<String> = Vec::new();
    let ghost f = |x: u16| text::hexadecimal(x as nat);
    let mut i: usize = 0;
    while i < g.len()
        invariant
            i <= g@.len(),
            f == (|x: u16| text::hexadecimal(x as nat)),
            text::views(parts@) == g@.take(i as int).map_values(f),
        decreases g@.len() - i,
    {
        let ghost before = text::views(parts@);
        parts.push(text::hexadecimal_text(g[i]));
        assert(text::views(parts@) =~= before.push(text::hexadecimal(g@[i as int] as nat)));
        assert(g@.take(i + 1).map_values(f) =~= g@.take(i as int).map_values(f).push(
            f(g@[i as int]),
        ));
        i = i + 1;
    }
    let r = text::join_strings(&parts, ":");
    proof {
        reveal_strlit(":");
        assert(":"@ =~= seq![':']);
        assert(g@.take(i as int) =~= g@);
    }
    r
}

impl Ipv4Addr {
    pub fn new(a: u8, b: u8, c: u8, d: u8) -> (r: Ipv4Addr)
        ensures
            octets(r.bits) == seq![a as nat, b as nat, c as nat, d as nat],
    {
        let bits: u32 = a as u32 * 16777216 + b as u32 * 65536 + c as u32 * 256 + d as u32;
        proof {
            lemma_octets(a, b, c, d, bits);
        }
        Ipv4Addr { bits }
    }
}

impl Ipv6Addr {
    /// The eight groups of the address.
    pub fn segments(&self) -> (g: Vec<u16>)
        ensures
            g@ == self.spec_segments(),
            g@.len() == 8,
    {
        let mut g: Vec<u16> = Vec::new();
        let mut rest: u128 = self.bits;
        let mut k: usize = 8;
        proof {
            lemma_group_limit();
            lemma_groups_number(self.bits as nat, 8);
        }
        assert(groups(rest as nat, 8) + g@ =~= groups(self.bits as nat, 8));
        while k > 0
            invariant
                k <= 8,
                groups(rest as nat, k as nat) + g@ == groups(self.bits as nat, 8),
            decreases k,
        {
            let ghost before = g@;
            let x: u16 = (rest % 65536) as u16;
            g.insert(0, x);
            assert(g@ =~= seq![x] + before);
            assert(groups(rest as nat, k as nat) + before =~= groups(
                (rest / 65536) as nat,
                (k - 1) as nat,
            ) + g@);
            rest = rest / 65536;
            k = k - 1;
        }
        assert(groups(rest as nat, 0) + g@ =~= g@);
        g
    }
}

fn v6_to_text(a: Ipv6Addr) -> (r: String)
    ensures
        r@ == v6_text(a.bits),
{
    if a.bits / 0x1_0000_0000 == 0xffff {
        let mut r = "::ffff:".to_string();
        r.append(v4_to_text((a.bits % 0x1_0000_0000) as u32).as_str());
        proof {
            reveal_strlit("::ffff:");
            assert("::ffff:"@ =~= seq![':', ':', 'f', 'f', 'f', 'f', ':']);
        }
        r
    } else {
        let g = a.segments();
        let (start, len) = find_longest_zero_run(&g);
        if len > 1 {
            let mut r = groups_to_text(slice_subrange(&g, 0, start));
            r.append("::");
            r.append(groups_to_text(slice_subrange(&g, start + len, g.len())).as_str());
            proof {
                reveal_strlit("::");
                assert("::"@ =~= seq![':', ':']);
                assert(g@.subrange(0, start as int) =~= g@.take(start as int));
                assert(g@.subrange(start + len, g@.len() as int) =~= g@.skip(start + len));
            }
            r
        } else {
            groups_to_text(&g)
        }
    }
}

impl IpAddr {
    /// The text of the address.
    pub fn to_string(&self) -> (r: String)
        ensures
            r@ == self.text(),
    {
        match self {
            IpAddr::V4(a) => v4_to_text(a.bits),
            IpAddr::V6(a) => v6_to_text(*a),
        }
    }

    /// Whether this is `127.0.0.0/8` or `::1`.
    pub open spec fn loopback(self) -> bool {
        match self {
            IpAddr::V4(a) => octets(a.bits)[0] == 127,
            IpAddr::V6(a) => a.bits == 1,
        }
    }

    pub fn is_loopback(&self) -> (r: bool)
        ensures
            r == self.loopback(),
    {
        match self {
            IpAddr::V4(a) => a.bits / 16777216 == 127,
            IpAddr::V6(a) => a.bits == 1,
        }
    }

    pub fn is_ipv6(&self) -> (r: bool)
        ensures
            r == (*self is V6),
    {
        match self {
            IpAddr::V4(_) => false,
            IpAddr::V6(_) => true,
        }
    }

    /// Whether this address comes before `other`.
    pub fn before(&self, other: &IpAddr) -> (r: bool)
        ensures
            r == (self.rank() < other.rank()),
    {
        match (self, other) {
            (IpAddr::V4(a), IpAddr::V4(b)) => a.bits < b.bits,
            (IpAddr::V4(_), IpAddr::V6(_)) => true,
            (IpAddr::V6(_), IpAddr::V4(_)) => false,
            (IpAddr::V6(a), IpAddr::V6(b)) => a.bits < b.bits,
        }
    }
}

/// The order of addresses tells any two of them apart.
pub proof fn lemma_rank_injective(a: IpAddr, b: IpAddr)
    ensures
        a.rank() == b.rank() <==> a == b,
{
}

// ---------------------------------------------------------------------------
// What is written is read back

proof fn lemma_join_chars(parts: Seq<Seq<char>>, sep: char, c: char)
    requires
        c != sep,
        forall|i: int| 0 <= i < parts.len() ==> !(#[trigger] parts[i]).contains(c),
    ensures
        !text::join(parts, seq![sep]).contains(c),
    decreases parts.len(),
{
    if parts.len() > 1 {
        let rest = parts.drop_first();
        assert forall|i: int| 0 <= i < rest.len() implies !(#[trigger] rest[i]).contains(c) by {
            assert(rest[i] == parts[i + 1]);
        }
        lemma_join_chars(rest, sep, c);
        let t = text::join(parts, seq![sep]);
        if t.contains(c) {
            let k = choose|k: int| 0 <= k < t.len() && t[k] == c;
            if k < parts[0].len() {
                assert(parts[0].contains(parts[0][k]));
            } else if k > parts[0].len() {
                let u = text::join(rest, seq![sep]);
                assert(u[k - parts[0].len() - 1] == c);
            }
        }
    }
}

/// Text with a colon, and text without a dot, is no IPv4 address.
proof fn lemma_not_v4(s: Seq<char>)
    requires
        s.contains(':') || !s.contains('.'),
    ensures
        v4_of(s) is None,
{
    if exists|b: u32| s == #[trigger] v4_text(b) {
        let b = choose|b: u32| s == #[trigger] v4_text(b);
        let parts = octet_texts(b);
        lemma_v4_split(b);
        assert forall|i: int| 0 <= i < parts.len() implies !(#[trigger] parts[i]).contains(
            ':',
        ) by {
            lemma_decimal_without(octets(b)[i], ':');
        }
        lemma_join_chars(parts, '.', ':');
        text::lemma_find(s, '.');
    }
}

proof fn lemma_join_no_gap(parts: Seq<Seq<char>>)
    requires
        parts.len() > 0,
        forall|i: int|
            0 <= i < parts.len() ==> (#[trigger] parts[i]).len() > 0 && !parts[i].contains(':'),
    ensures
        ({
            let t = text::join(parts, seq![':']);
            &&& t.len() > 0
            &&& t[0] != ':'
            &&& t.last() != ':'
            &&& forall|i: int| 0 <= i < t.len() - 1 ==> !(#[trigger] t[i] == ':' && t[i + 1] == ':')
        }),
    decreases parts.len(),
{
    let t = text::join(parts, seq![':']);
    let p = parts[0];
    assert forall|i: int| 0 <= i < p.len() implies #[trigger] p[i] != ':' by {
        assert(p.contains(p[i]));
    }
    if parts.len() == 1 {
    } else {
        let rest = parts.drop_first();
        assert forall|i: int| 0 <= i < rest.len() implies (#[trigger] rest[i]).len() > 0
            && !rest[i].contains(':') by {
            assert(rest[i] == parts[i + 1]);
        }
        lemma_join_no_gap(rest);
        let u = text::join(rest, seq![':']);
        assert(t =~= p + seq![':'] + u);
        assert(t[0] == p[0]);
        assert(t.last() == u.last());
        assert forall|i: int| 0 <= i < t.len() - 1 implies !(#[trigger] t[i] == ':' && t[i + 1]
            == ':') by {
            if i < p.len() {
                assert(t[i] == p[i]);
            } else if i == p.len() {
                assert(t[i + 1] == u[0]);
            } else {
                let k = i - p.len() - 1;
                assert(t[i] == u[k] && t[i + 1] == u[k + 1]);
            }
        }
    }
}

pub open spec fn group_texts(g: Seq<u16>) -> Seq<Seq<char>> {
    g.map_values(|x: u16| text::hexadecimal(x as nat))
}

proof fn lemma_group_texts(g: Seq<u16>)
    ensures
        forall|i: int|
            0 <= i < g.len() ==> (#[trigger] group_texts(g)[i]).len() > 0 && !group_texts(
                g,
            )[i].contains(':'),
{
    assert forall|i: int| 0 <= i < g.len() implies (#[trigger] group_texts(g)[i]).len() > 0
        && !group_texts(g)[i].contains(':') by {
        text::lemma_hexadecimal(g[i] as nat);
        lemma_hexadecimal_without_colon(g[i] as nat);
    }
}

proof fn lemma_groups_of_texts(g: Seq<u16>, v4_tail: bool)
    ensures
        groups_of(group_texts(g), v4_tail) == Some(g),
    decreases g.len(),
{
    if g.len() > 0 {
        let parts = group_texts(g);
        let rest = g.drop_first();
        lemma_groups_of_texts(rest, v4_tail);
        assert(parts.drop_first() =~= group_texts(rest));
        text::lemma_hexadecimal(g[0] as nat);
        assert(!parts[0].contains('.'));
        lemma_not_v4(parts[0]);
        assert(seq![g[0]] + rest =~= g);
    } else {
        assert(g =~= Seq::empty());
    }
}

proof fn lemma_side_of_text(g: Seq<u16>, v4_tail: bool)
    ensures
        side_of(groups_text(g), v4_tail) == Some(g),
{
    lemma_groups_of_texts(g, v4_tail);
    if g.len() > 0 {
        lemma_group_texts(g);
        lemma_join_no_gap(group_texts(g));
        text::lemma_split_join(group_texts(g), ':');
    } else {
        assert(g =~= Seq::empty());
    }
}

proof fn lemma_longest_zero_run_exists(g: Seq<u16>, i: int) -> (r: (int, int, int))
    requires
        0 <= i <= g.len(),
    ensures
        ({
            let (best, len, start) = r;
            &&& 0 <= start <= i
            &&& is_zero_run(g, start, i - start)
            &&& start == 0 || g[start - 1] != 0
            &&& is_zero_run(g, best, len)
            &&& best + len <= i
            &&& forall|a: int, l: int| #[trigger]
                is_zero_run(g, a, l) && a + l <= i ==> l < len || (l == len && best <= a)
        }),
    decreases i,
{
    if i == 0 {
        (0, 0, 0)
    } else {
        let (best, len, start) = lemma_longest_zero_run_exists(g, i - 1);
        if g[i - 1] == 0 {
            let r = if i - start > len {
                (start, i - start, start)
            } else {
                (best, len, start)
            };
            assert forall|a: int, l: int| #[trigger] is_zero_run(g, a, l) && a + l <= i implies l
                < r.1 || (l == r.1 && r.0 <= a) by {
                if a + l == i && l > 0 && a < start {
                    assert(g[start - 1] == 0);
                }
            }
            r
        } else {
            assert forall|a: int, l: int| #[trigger] is_zero_run(g, a, l) && a + l <= i implies l
                < len || (l == len && best <= a) by {
                if a + l == i && l > 0 {
                    assert(g[i - 1] == 0);
                }
            }
            (best, len, i)
        }
    }
}

proof fn lemma_zeros_number(n: nat, g: Seq<u16>)
    ensures
        groups_number(zeros(n) + g) == groups_number(g),
    decreases n + g.len(),
{
    let all = zeros(n) + g;
    if g.len() > 0 {
        lemma_zeros_number(n, g.drop_last());
        assert(all.drop_last() =~= zeros(n) + g.drop_last());
    } else if n > 0 {
        lemma_zeros_number((n - 1) as nat, g);
        assert(all.drop_last() =~= zeros((n - 1) as nat) + g);
    } else {
        assert(all =~= g);
    }
}

proof fn lemma_mapped_number(bits: u128)
    requires
        bits / 0x1_0000_0000 == 0xffff,
    ensures
        groups_number(zeros(5) + (seq![0xffffu16] + v4_groups((bits % 0x1_0000_0000) as u32)))
            == bits,
{
    let low = (bits % 0x1_0000_0000) as u32;
    let g = seq![0xffffu16] + v4_groups(low);
    lemma_zeros_number(5, g);
    reveal_with_fuel(groups_number, 4);
    assert(g.drop_last().drop_last() =~= seq![0xffffu16]);
    assert(g.drop_last().drop_last().drop_last() =~= Seq::empty());
    assert(groups_number(g) == 65536 * (65536 * 0xffff + low / 65536) + low % 65536);
}

proof fn lemma_ffff()
    ensures
        group_of(seq!['f', 'f', 'f', 'f']) == Some(0xffffu16),
{
    let s = seq!['f', 'f', 'f', 'f'];
    reveal_with_fuel(text::hex_value, 5);
    assert(s.drop_last() =~= seq!['f', 'f', 'f']);
    assert(s.drop_last().drop_last() =~= seq!['f', 'f']);
    assert(s.drop_last().drop_last().drop_last() =~= seq!['f']);
    assert(s.drop_last().drop_last().drop_last().drop_last() =~= Seq::empty());
}

proof fn lemma_mapped_round_trip(bits: u128)
    requires
        bits / 0x1_0000_0000 == 0xffff,
    ensures
        v6_groups_of(v6_text(bits)) == Some(groups(bits as nat, 8)),
{
    let s = v6_text(bits);
    let low = (bits % 0x1_0000_0000) as u32;
    let four = v4_text(low);
    let tail = s.skip(2);
    let parts = seq![seq!['f', 'f', 'f', 'f'], four];
    let g = seq![0xffffu16] + v4_groups(low);
    lemma_find_gap_is(s, 0);
    assert(s.take(0) =~= Seq::empty());
    reveal_with_fuel(text::join, 3);
    assert(parts.drop_first() =~= seq![four]);
    assert(tail =~= text::join(parts, seq![':']));
    lemma_v4_split(low);
    assert forall|i: int| 0 <= i < octet_texts(low).len() implies !(#[trigger] octet_texts(
        low,
    )[i]).contains(':') by {
        lemma_decimal_without(octets(low)[i], ':');
    }
    lemma_join_chars(octet_texts(low), '.', ':');
    assert(!parts[0].contains(':'));
    text::lemma_split_join(parts, ':');
    lemma_v4_round_trip(low);
    lemma_ffff();
    assert(groups_of(parts.drop_first(), true) == Some(v4_groups(low)));
    assert(groups_of(parts, true) == Some(g));
    let all = Seq::<u16>::empty() + zeros(5) + g;
    assert(all =~= zeros(5) + g);
    lemma_mapped_number(bits);
    lemma_number_groups(all);
}

proof fn lemma_v6_round_trip(bits: u128)
    ensures
        v6_groups_of(v6_text(bits)) == Some(groups(bits as nat, 8)),
{
    let g = groups(bits as nat, 8);
    lemma_group_limit();
    lemma_groups_number(bits as nat, 8);
    let s = v6_text(bits);
    let (start, len) = longest_zero_run(g);
    if bits / 0x1_0000_0000 == 0xffff {
        lemma_mapped_round_trip(bits);
    } else if len > 1 {
        let (best, best_len, _cur) = lemma_longest_zero_run_exists(g, g.len() as int);
        assert(is_longest_zero_run(g, best, best_len));
        lemma_longest_zero_run(g, best, best_len);
        let h = g.take(start);
        let t = g.skip(start + len);
        let a = groups_text(h);
        let b = groups_text(t);
        assert(s =~= a + seq![':', ':'] + b);
        if h.len() > 0 {
            lemma_group_texts(h);
            lemma_join_no_gap(group_texts(h));
        }
        assert forall|i: int| 0 <= i < a.len() implies !(i + 1 < s.len() && #[trigger] s[i] == ':'
            && s[i + 1] == ':') by {
            assert(s[i] == a[i]);
            if i + 1 < a.len() {
                assert(s[i + 1] == a[i + 1]);
            }
        }
        lemma_find_gap_is(s, a.len() as int);
        assert(s.take(a.len() as int) =~= a);
        assert(s.skip(a.len() as int + 2) =~= b);
        lemma_side_of_text(h, false);
        lemma_side_of_text(t, true);
        assert(h + zeros((8 - h.len() - t.len()) as nat) + t =~= g);
    } else {
        lemma_group_texts(g);
        lemma_join_no_gap(group_texts(g));
        text::lemma_split_join(group_texts(g), ':');
        lemma_groups_of_texts(g, true);
        lemma_find_gap_is(s, s.len() as int);
    }
}

proof fn lemma_v6_text_has_colon(bits: u128)
    ensures
        v6_text(bits).contains(':'),
{
    let g = groups(bits as nat, 8);
    lemma_group_limit();
    lemma_groups_number(bits as nat, 8);
    let s = v6_text(bits);
    let (start, len) = longest_zero_run(g);
    if bits / 0x1_0000_0000 == 0xffff {
        assert(s[0] == ':');
    } else if len > 1 {
        let a = groups_text(g.take(start));
        assert(s[a.len() as int] == ':');
    } else {
        let p = group_texts(g)[0];
        assert(s[p.len() as int] == ':');
    }
}

/// The text of an address denotes that address.
pub proof fn law_address_round_trip(ip: IpAddr)
    ensures
        ip_of(ip.text()) == Some(ip),
{
    match ip {
        IpAddr::V4(a) => {
            lemma_v4_round_trip(a.bits);
        },
        IpAddr::V6(a) => {
            lemma_v6_text_has_colon(a.bits);
            lemma_not_v4(ip.text());
            lemma_v6_round_trip(a.bits);
            lemma_group_limit();
            lemma_groups_number(a.bits as nat, 8);
        },
    }
}

// ---------------------------------------------------------------------------
// Socket addresses

#[derive(Clone, Copy, Debug, PartialEq, Eq, Structural)]
pub struct SocketAddr {
    pub ip: IpAddr,
    pub port: u16,
}

/// Decimal digits that denote a number up to `max`.
pub open spec fn number_up_to(s: Seq<char>, max: int) -> bool {
    text::is_digits(s) && text::digits_value(s) <= max
}

/// The IPv6 address in `s`, which may carry a decimal scope after `%`.
pub open spec fn scoped_v6_of(s: Seq<char>) -> Option<IpAddr> {
    let p = text::find(s, '%') as int;
    if p < s.len() && !number_up_to(s.skip(p + 1), u32::MAX as int) {
        None
    } else {
        match v6_groups_of(s.take(p)) {
            Some(g) => Some(IpAddr::V6(Ipv6Addr { bits: groups_number(g) as u128 })),
            None => None,
        }
    }
}

/// The socket address that a text denotes: an IPv4 address, or an IPv6 address
/// in brackets, then a colon and a decimal port.
pub open spec fn socket_of(s: Seq<char>) -> Option<SocketAddr> {
    let bracketed = s.len() > 0 && s[0] == '[';
    let end = text::find(
        s,
        if bracketed {
            ']'
        } else {
            ':'
        },
    ) as int;
    let colon = if bracketed {
        end + 1
    } else {
        end
    };
    if colon >= s.len() || s[colon] != ':' || !number_up_to(s.skip(colon + 1), 65535) {
        None
    } else {
        let port = text::digits_value(s.skip(colon + 1)) as u16;
        let ip = if bracketed {
            scoped_v6_of(s.subrange(1, end))
        } else {
            match v4_of(s.take(end)) {
                Some(bits) => Some(IpAddr::V4(Ipv4Addr { bits })),
                None => None,
            }
        };
        match ip {
            Some(ip) => Some(SocketAddr { ip, port }),
            None => None,
        }
    }
}

fn parse_scoped_v6(v: &[char]) -> (r: Option<IpAddr>)
    ensures
        r == scoped_v6_of(v@),
{
    let p = text::find_char(v, '%');
    if p < v.len() {
        let scope = slice_subrange(v, p + 1, v.len());
        assert(scope@ =~= v@.skip(p + 1));
        if text::parse_digits(scope, u32::MAX as u64).is_none() {
            return None;
        }
    }
    let address = slice_subrange(v, 0, p);
    assert(address@ =~= v@.take(p as int));
    match parse_v6_groups(address) {
        Some(g) => Some(IpAddr::V6(Ipv6Addr { bits: number_of(&g) })),
        None => None,
    }
}

/// Reads a socket address from text.
pub fn parse_socket_addr(s: &str) -> (r: Option<SocketAddr>)
    ensures
        r == socket_of(s@),
{
    let v = text::to_chars(s);
    proof {
        text::lemma_find(s@, ']');
        text::lemma_find(s@, ':');
    }
    let bracketed = v.len() > 0 && v[0] == '[';
    let end = text::find_char(
        &v,
        if bracketed {
            ']'
        } else {
            ':'
        },
    );
    if end >= v.len() || (bracketed && end + 1 >= v.len()) {
        return None;
    }
    let colon = if bracketed {
        end + 1
    } else {
        end
    };
    if v[colon] != ':' {
        return None;
    }
    let digits = slice_subrange(&v, colon + 1, v.len());
    assert(digits@ =~= s@.skip(colon + 1));
    let port = match text::parse_digits(digits, 65535) {
        Some(port) => port as u16,
        None => {
            return None;
        },
    };
    if bracketed {
        match parse_scoped_v6(slice_subrange(&v, 1, end)) {
            Some(ip) => Some(SocketAddr { ip, port }),
            None => None,
        }
    } else {
        let address = slice_subrange(&v, 0, end);
        assert(address@ =~= s@.take(end as int));
        match parse_v4(address) {
            Some(bits) => Some(SocketAddr { ip: IpAddr::V4(Ipv4Addr { bits }), port }),
            None => None,
        }
    }
}

// ---------------------------------------------------------------------------
// The characters of addresses

proof fn lemma_groups_chars(parts: Seq<Seq<char>>, v4_tail: bool, c: char)
    requires
        groups_of(parts, v4_tail) is Some,
        !text::is_hex_digit(c),
        c != '.',
    ensures
        forall|i: int| 0 <= i < parts.len() ==> !(#[trigger] parts[i]).contains(c),
    decreases parts.len(),
{
    if parts.len() > 0 {
        if v4_tail && parts.len() == 1 && v4_of(parts[0]) is Some {
            lemma_v4_chars(parts[0], c);
        } else {
            let rest = parts.drop_first();
            lemma_groups_chars(rest, v4_tail, c);
            assert forall|i: int| 0 <= i < parts.len() implies !(#[trigger] parts[i]).contains(
                c,
            ) by {
                if i > 0 {
                    assert(parts[i] == rest[i - 1]);
                }
            }
        }
    }
}

proof fn lemma_v4_chars(s: Seq<char>, c: char)
    requires
        v4_of(s) is Some,
        !text::is_digit(c),
        c != '.',
    ensures
        !s.contains(c),
{
    let b = choose|b: u32| s == #[trigger] v4_text(b);
    let parts = octet_texts(b);
    assert forall|i: int| 0 <= i < parts.len() implies !(#[trigger] parts[i]).contains(c) by {
        lemma_decimal_without(octets(b)[i], c);
    }
    lemma_join_chars(parts, '.', c);
}

proof fn lemma_side_chars(s: Seq<char>, v4_tail: bool, c: char)
    requires
        side_of(s, v4_tail) is Some,
        !text::is_hex_digit(c),
        c != '.',
        c != ':',
    ensures
        !s.contains(c),
{
    if s.len() > 0 {
        lemma_groups_chars(text::split(s, ':'), v4_tail, c);
        lemma_join_chars(text::split(s, ':'), ':', c);
        text::lemma_join_split(s, ':');
    }
}

proof fn lemma_find_gap(s: Seq<char>)
    ensures
        find_gap(s) <= s.len(),
        find_gap(s) < s.len() ==> find_gap(s) + 1 < s.len() && s[find_gap(s) as int] == ':'
            && s[find_gap(s) as int + 1] == ':',
    decreases s.len(),
{
    if s.len() > 0 && !(s.len() > 1 && s[0] == ':' && s[1] == ':') {
        lemma_find_gap(s.drop_first());
    }
}

/// Text that denotes an address holds nothing but hexadecimal digits, dots and
/// colons.
pub proof fn lemma_address_chars(s: Seq<char>, c: char)
    requires
        ip_of(s) is Some,
        !text::is_hex_digit(c),
        c != '.',
        c != ':',
    ensures
        !s.contains(c),
{
    if v4_of(s) is Some {
        lemma_v4_chars(s, c);
    } else {
        lemma_find_gap(s);
        let i = find_gap(s) as int;
        if i < s.len() {
            lemma_side_chars(s.take(i), false, c);
            lemma_side_chars(s.skip(i + 2), true, c);
            if s.contains(c) {
                let k = choose|k: int| 0 <= k < s.len() && s[k] == c;
                if k < i {
                    assert(s.take(i)[k] == c);
                } else if k >= i + 2 {
                    assert(s.skip(i + 2)[k - i - 2] == c);
                }
            }
        } else {
            lemma_groups_chars(text::split(s, ':'), true, c);
            lemma_join_chars(text::split(s, ':'), ':', c);
            text::lemma_join_split(s, ':');
        }
    }
}

// ---------------------------------------------------------------------------
// Laws

/// An IPv4 address is written as its four bytes in decimal, the highest first,
/// with dots between them; it is read from that text and from no other.
pub proof fn law_ipv4_is_dotted_decimal(a: u8, b: u8, c: u8, d: u8, s: Seq<char>)
    ensures
        ({
            let ip = IpAddr::V4(
                Ipv4Addr { bits: (a * 0x100_0000 + b * 0x1_0000 + c * 0x100 + d) as u32 },
            );
            let dot = seq!['.'];
            let written = text::decimal(a as nat) + (dot + (text::decimal(b as nat) + (dot + (
            text::decimal(c as nat) + (dot + text::decimal(d as nat))))));
            &&& ip.text() == written
            &&& ip_of(written) == Some(ip)
            &&& ip_of(s) == Some(ip) ==> s == written
        }),
{
    let bits = (a * 0x100_0000 + b * 0x1_0000 + c * 0x100 + d) as u32;
    let ip = IpAddr::V4(Ipv4Addr { bits });
    lemma_octets(a, b, c, d, bits);
    let parts = octet_texts(bits);
    assert(parts =~= seq![
        text::decimal(a as nat),
        text::decimal(b as nat),
        text::decimal(c as nat),
        text::decimal(d as nat),
    ]);
    lemma_join_four(parts, seq!['.']);
    law_address_round_trip(ip);
    if ip_of(s) == Some(ip) {
        lemma_v4_written(s, bits);
    }
}

proof fn lemma_v4_written(s: Seq<char>, bits: u32)
    requires
        ip_of(s) == Some(IpAddr::V4(Ipv4Addr { bits })),
    ensures
        s == v4_text(bits),
{
    let other = choose|x: u32| s == #[trigger] v4_text(x);
    assert(v4_of(s) == Some(other));
}

proof fn lemma_join_four(parts: Seq<Seq<char>>, sep: Seq<char>)
    requires
        parts.len() == 4,
    ensures
        text::join(parts, sep) == parts[0] + (sep + (parts[1] + (sep + (parts[2] + (sep
            + parts[3]))))),
{
    let r1 = parts.drop_first();
    let r2 = r1.drop_first();
    let r3 = r2.drop_first();
    let j3 = text::join(r3, sep);
    assert(j3 == parts[3]);
    let j2 = text::join(r2, sep);
    assert(j2 == parts[2] + sep + j3);
    assert(j2 =~= parts[2] + (sep + j3));
    let j1 = text::join(r1, sep);
    assert(j1 == parts[1] + sep + j2);
    assert(j1 =~= parts[1] + (sep + j2));
    assert(text::join(parts, sep) =~= parts[0] + (sep + j1));
}

/// The numbers that pieces of up to four hexadecimal digits stand for.
pub open spec fn hex_groups(parts: Seq<Seq<char>>) -> Seq<u16> {
    parts.map_values(|p: Seq<char>| text::hex_value(p) as u16)
}

pub open spec fn hex_pieces(parts: Seq<Seq<char>>) -> bool {
    forall|i: int|
        0 <= i < parts.len() ==> text::is_hex(#[trigger] parts[i]) && parts[i].len() <= 4
}

proof fn lemma_groups_of_pieces(parts: Seq<Seq<char>>, v4_tail: bool)
    requires
        hex_pieces(parts),
    ensures
        groups_of(parts, v4_tail) == Some(hex_groups(parts)),
    decreases parts.len(),
{
    if parts.len() > 0 {
        let rest = parts.drop_first();
        assert forall|i: int| 0 <= i < rest.len() implies text::is_hex(#[trigger] rest[i])
            && rest[i].len() <= 4 by {
            assert(rest[i] == parts[i + 1]);
        }
        lemma_groups_of_pieces(rest, v4_tail);
        lemma_piece(parts[0]);
        lemma_not_v4(parts[0]);
        assert(seq![hex_groups(parts)[0]] + hex_groups(rest) =~= hex_groups(parts));
    } else {
        assert(hex_groups(parts) =~= Seq::empty());
    }
}

proof fn lemma_piece(p: Seq<char>)
    requires
        text::is_hex(p),
    ensures
        p.len() > 0,
        !p.contains('.'),
        !p.contains(':'),
        !p.contains('%'),
        !p.contains(']'),
{
    assert forall|i: int| 0 <= i < p.len() implies p[i] != '.' && p[i] != ':' && p[i] != '%'
        && p[i] != ']' by {
        assert(text::is_hex_digit(p[i]));
    }
}

proof fn lemma_pieces(parts: Seq<Seq<char>>)
    requires
        hex_pieces(parts),
    ensures
        forall|i: int|
            0 <= i < parts.len() ==> (#[trigger] parts[i]).len() > 0 && !parts[i].contains(':'),
        !text::join(parts, seq![':']).contains('.'),
{
    assert forall|i: int| 0 <= i < parts.len() implies (#[trigger] parts[i]).len() > 0
        && !parts[i].contains(':') by {
        lemma_piece(parts[i]);
    }
    assert forall|i: int| 0 <= i < parts.len() implies !(#[trigger] parts[i]).contains('.') by {
        lemma_piece(parts[i]);
    }
    lemma_join_chars(parts, ':', '.');
}

/// Eight pieces of up to four hexadecimal digits, in whatever case and with
/// colons between them, are an IPv6 address: sixteen bits each, the highest
/// first. Any other number of pieces is none.
pub proof fn law_ipv6_is_eight_groups(parts: Seq<Seq<char>>)
    requires
        hex_pieces(parts),
        parts.len() > 0,
    ensures
        ({
            let g = |i: int| text::hex_value(parts[i]) as u16;
            let k = 0x1_0000int;
            let number = ((((((g(0) * k + g(1)) * k + g(2)) * k + g(3)) * k + g(4)) * k + g(5)) * k
                + g(6)) * k + g(7);
            ip_of(text::join(parts, seq![':'])) == if parts.len() == 8 {
                Some(IpAddr::V6(Ipv6Addr { bits: number as u128 }))
            } else {
                None
            }
        }),
{
    let s = text::join(parts, seq![':']);
    lemma_pieces(parts);
    lemma_not_v4(s);
    lemma_join_no_gap(parts);
    text::lemma_split_join(parts, ':');
    assert forall|i: int| 0 <= i < s.len() implies !(i + 1 < s.len() && #[trigger] s[i] == ':'
        && s[i + 1] == ':') by {
    }
    lemma_find_gap_is(s, s.len() as int);
    lemma_groups_of_pieces(parts, true);
    let g = hex_groups(parts);
    if parts.len() == 8 {
        reveal_with_fuel(groups_number, 9);
        let g7 = g.drop_last();
        let g6 = g7.drop_last();
        let g5 = g6.drop_last();
        let g4 = g5.drop_last();
        let g3 = g4.drop_last();
        let g2 = g3.drop_last();
        let g1 = g2.drop_last();
        assert(g1.drop_last() =~= Seq::empty());
        assert(groups_number(g1) == g[0]);
        assert(groups_number(g2) == 65536 * g[0] + g[1]);
        assert(groups_number(g3) == 65536 * groups_number(g2) + g[2]);
        assert(groups_number(g4) == 65536 * groups_number(g3) + g[3]);
        assert(groups_number(g5) == 65536 * groups_number(g4) + g[4]);
        assert(groups_number(g6) == 65536 * groups_number(g5) + g[5]);
        assert(groups_number(g7) == 65536 * groups_number(g6) + g[6]);
        assert(groups_number(g) == 65536 * groups_number(g7) + g[7]);
    }
}

/// Two colons stand for as many groups of zero as are missing, at least one:
/// what comes before them are the highest groups, what comes behind them the
/// lowest.
pub proof fn law_two_colons_are_zeros(head: Seq<Seq<char>>, tail: Seq<Seq<char>>)
    requires
        hex_pieces(head),
        hex_pieces(tail),
    ensures
        ({
            let s = text::join(head, seq![':']) + seq![':', ':'] + text::join(tail, seq![':']);
            let zero = Seq::new((8 - head.len() - tail.len()) as nat, |i: int| 0u16);
            ip_of(s) == if head.len() + tail.len() <= 7 {
                Some(
                    IpAddr::V6(
                        Ipv6Addr {
                            bits: groups_number(hex_groups(head) + zero + hex_groups(tail)) as u128,
                        },
                    ),
                )
            } else {
                None
            }
        }),
{
    let h = text::join(head, seq![':']);
    let t = text::join(tail, seq![':']);
    let s = h + seq![':', ':'] + t;
    let n = h.len() as int;
    lemma_pieces(head);
    lemma_pieces(tail);
    assert(s[n] == ':');
    assert(s.contains(s[n]));
    lemma_not_v4(s);
    if head.len() > 0 {
        lemma_join_no_gap(head);
    }
    assert forall|i: int| 0 <= i < n implies !(i + 1 < s.len() && #[trigger] s[i] == ':' && s[i + 1]
        == ':') by {
        assert(s[i] == h[i]);
        if i + 1 < n {
            assert(s[i + 1] == h[i + 1]);
        }
    }
    lemma_find_gap_is(s, n);
    assert(s.take(n) =~= h);
    assert(s.skip(n + 2) =~= t);
    lemma_side_of_pieces(head, false);
    lemma_side_of_pieces(tail, true);
    if head.len() + tail.len() <= 7 {
        assert(zeros((8 - head.len() - tail.len()) as nat) =~= Seq::new(
            (8 - head.len() - tail.len()) as nat,
            |i: int| 0u16,
        ));
    }
}

proof fn lemma_side_of_pieces(parts: Seq<Seq<char>>, v4_tail: bool)
    requires
        hex_pieces(parts),
    ensures
        side_of(text::join(parts, seq![':']), v4_tail) == Some(hex_groups(parts)),
{
    lemma_pieces(parts);
    lemma_groups_of_pieces(parts, v4_tail);
    if parts.len() > 0 {
        lemma_join_no_gap(parts);
        text::lemma_split_join(parts, ':');
    } else {
        assert(hex_groups(parts) =~= Seq::empty());
    }
}

/// How an IPv6 address is written. One that maps an IPv4 address shows it. In
/// any other the first of the longest runs of two or more groups of zero is
/// written as two colons, and every other group in hexadecimal, in small
/// letters and without leading zeros.
pub proof fn law_ipv6_is_written_in_one_way(bits: u128, start: int, len: int)
    ensures
        ({
            let ip = IpAddr::V6(Ipv6Addr { bits });
            let g = groups(bits as nat, 8);
            let hex = |part: Seq<u16>|
                text::join(part.map_values(|x: u16| text::hexadecimal(x as nat)), seq![':']);
            let run = |a: int, l: int|
                0 <= a && 0 <= l && a + l <= 8 && forall|i: int| a <= i < a + l ==> g[i] == 0;
            let longest = run(start, len) && forall|a: int, l: int| #[trigger]
                is_zero_run(g, a, l) ==> l < len || l == len && start <= a;
            &&& bits / 0x1_0000_0000 == 0xffff ==> ip.text() == seq![
                ':',
                ':',
                'f',
                'f',
                'f',
                'f',
                ':',
            ] + IpAddr::V4(Ipv4Addr { bits: (bits % 0x1_0000_0000) as u32 }).text()
            &&& bits / 0x1_0000_0000 != 0xffff && longest && len >= 2 ==> ip.text() == hex(
                g.take(start),
            ) + seq![':', ':'] + hex(g.skip(start + len))
            &&& bits / 0x1_0000_0000 != 0xffff && longest && len < 2 ==> ip.text() == hex(g)
            &&& g.len() == 8
        }),
{
    let g = groups(bits as nat, 8);
    lemma_group_limit();
    lemma_groups_number(bits as nat, 8);
    if is_longest_zero_run(g, start, len) {
        lemma_longest_zero_run(g, start, len);
    }
    assert(groups_text(g.take(start)) == text::join(
        g.take(start).map_values(|x: u16| text::hexadecimal(x as nat)),
        seq![':'],
    ));
}

/// Addresses have an order: every IPv4 address before every IPv6 address, and
/// those of one family by their number.
pub proof fn law_addresses_have_an_order(a: IpAddr, b: IpAddr)
    ensures
        a.rank() < b.rank() <==> match (a, b) {
            (IpAddr::V4(x), IpAddr::V4(y)) => x.bits < y.bits,
            (IpAddr::V6(x), IpAddr::V6(y)) => x.bits < y.bits,
            (IpAddr::V4(_), IpAddr::V6(_)) => true,
            (IpAddr::V6(_), IpAddr::V4(_)) => false,
        },
{
}

/// The loopback addresses are those that begin with the byte 127, and `::1`.
pub proof fn law_loopback_addresses(a: u8, b: u8, c: u8, d: u8, bits: u128)
    ensures
        IpAddr::V4(
            Ipv4Addr { bits: (a * 0x100_0000 + b * 0x1_0000 + c * 0x100 + d) as u32 },
        ).loopback() <==> a == 127,
        IpAddr::V6(Ipv6Addr { bits }).loopback() <==> bits == 1,
{
    let n = (a * 0x100_0000 + b * 0x1_0000 + c * 0x100 + d) as u32;
    lemma_octets(a, b, c, d, n);
}

/// A socket address is an IPv4 address, a colon and a port, in decimal digits
/// of any number up to 65535.
pub proof fn law_ipv4_sockets(bits: u32, digits: Seq<char>)
    ensures
        ({
            let ip = IpAddr::V4(Ipv4Addr { bits });
            let s = ip.text() + seq![':'] + digits;
            let port = text::digits_value(digits);
            socket_of(s) == if text::is_digits(digits) && port <= 65535 {
                Some(SocketAddr { ip, port: port as u16 })
            } else {
                None
            }
        }),
{
    let ip = IpAddr::V4(Ipv4Addr { bits });
    let t = ip.text();
    let s = t + seq![':'] + digits;
    let n = t.len() as int;
    let parts = octet_texts(bits);
    assert forall|i: int| 0 <= i < parts.len() implies !(#[trigger] parts[i]).contains(':')
        && !parts[i].contains('[') by {
        lemma_decimal_without(octets(bits)[i], ':');
        lemma_decimal_without(octets(bits)[i], '[');
    }
    lemma_join_chars(parts, '.', ':');
    lemma_join_chars(parts, '.', '[');
    assert forall|i: int| 0 <= i < n implies s[i] != ':' by {
        assert(t.contains(t[i]));
    }
    assert(s[n] == ':');
    text::lemma_find_is(s, ':', n);
    assert(s[0] != '[') by {
        if n > 0 {
            assert(t.contains(t[0]));
        }
    }
    assert(s.take(n) =~= t);
    assert(s.skip(n + 1) =~= digits);
    lemma_v4_round_trip(bits);
}

/// Or it is an IPv6 address in brackets, a colon and a port.
pub proof fn law_ipv6_sockets(written: Seq<char>, bits: u128, digits: Seq<char>)
    requires
        ip_of(written) == Some(IpAddr::V6(Ipv6Addr { bits })),
        !written.contains(']'),
        !written.contains('%'),
    ensures
        ({
            let s = seq!['['] + written + seq![']', ':'] + digits;
            let port = text::digits_value(digits);
            socket_of(s) == if text::is_digits(digits) && port <= 65535 {
                Some(SocketAddr { ip: IpAddr::V6(Ipv6Addr { bits }), port: port as u16 })
            } else {
                None
            }
        }),
{
    law_scopes_are_dropped(written, bits, Seq::empty());
    lemma_bracketed(written, digits);
}

/// The parts of a socket address in brackets.
proof fn lemma_bracketed(written: Seq<char>, digits: Seq<char>)
    requires
        !written.contains(']'),
    ensures
        ({
            let s = seq!['['] + written + seq![']', ':'] + digits;
            let n = written.len() as int;
            &&& s.len() > 0 && s[0] == '['
            &&& text::find(s, ']') == n + 1
            &&& n + 2 < s.len() && s[n + 2] == ':'
            &&& s.skip(n + 3) == digits
            &&& s.subrange(1, n + 1) == written
        }),
{
    let s = seq!['['] + written + seq![']', ':'] + digits;
    let n = written.len() as int;
    assert forall|i: int| 0 <= i < n + 1 implies s[i] != ']' by {
        if i > 0 {
            assert(s[i] == written[i - 1]);
            assert(written.contains(written[i - 1]));
        }
    }
    assert(s[n + 1] == ']');
    text::lemma_find_is(s, ']', n + 1);
    assert(s.skip(n + 3) =~= digits);
    assert(s.subrange(1, n + 1) =~= written);
}

/// An IPv6 address in brackets may carry a scope: a percent sign and decimal
/// digits of a number that 32 bits can hold. The scope is not part of the
/// address; any other scope is refused.
pub proof fn law_scopes_are_dropped(written: Seq<char>, bits: u128, scope: Seq<char>)
    requires
        ip_of(written) == Some(IpAddr::V6(Ipv6Addr { bits })),
        !written.contains('%'),
    ensures
        scoped_v6_of(written + seq!['%'] + scope) == if text::is_digits(scope)
            && text::digits_value(scope) <= 0xffff_ffff {
            Some(IpAddr::V6(Ipv6Addr { bits }))
        } else {
            None
        },
        scoped_v6_of(written) == Some(IpAddr::V6(Ipv6Addr { bits })),
{
    let s = written + seq!['%'] + scope;
    let n = written.len() as int;
    assert forall|i: int| 0 <= i < n implies s[i] != '%' && written[i] != '%' by {
        assert(written.contains(written[i]));
    }
    assert(s[n] == '%');
    text::lemma_find_is(s, '%', n);
    text::lemma_find_is(written, '%', n);
    assert(s.skip(n + 1) =~= scope);
    assert(s.take(n) =~= written);
    assert(written.take(n) =~= written);
}

} // verus!
