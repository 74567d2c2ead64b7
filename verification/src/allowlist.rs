//! Sources that are never banned: single addresses and CIDR ranges.

use vstd::prelude::*;

use crate::addr;
use crate::addr::IpAddr;
use crate::text;

verus! {

/// A range of addresses that share their leading bits.
#[derive(Clone, Copy, Debug, PartialEq, Eq, Structural)]
pub struct IpCidr {
    network: IpAddr,
    prefix: u8,
}

#[derive(Clone, Copy, Debug, PartialEq, Eq, Structural)]
pub enum AllowlistEntry {
    Ip(IpAddr),
    Cidr(IpCidr),
}

#[derive(Debug)]
pub enum AllowlistParseError {
    InvalidEntry(String),
    InvalidNetwork(String),
    InvalidPrefix(String),
    PrefixOutOfRange { prefix: u8, max: u8 },
}

/// What an entry stands for.
pub enum AllowlistEntryView {
    Ip(IpAddr),
    Cidr { network: IpAddr, prefix: u8 },
}

/// What an error says.
pub enum AllowlistParseErrorView {
    InvalidEntry(Seq<char>),
    InvalidNetwork(Seq<char>),
    InvalidPrefix(Seq<char>),
    PrefixOutOfRange { prefix: u8, max: u8 },
}

impl View for AllowlistEntry {
    type V = AllowlistEntryView;

    open spec fn view(&self) -> AllowlistEntryView {
        match *self {
            AllowlistEntry::Ip(ip) => AllowlistEntryView::Ip(ip),
            AllowlistEntry::Cidr(cidr) => AllowlistEntryView::Cidr {
                network: cidr.spec_network(),
                prefix: cidr.spec_prefix(),
            },
        }
    }
}

impl View for AllowlistParseError {
    type V = AllowlistParseErrorView;

    open spec fn view(&self) -> AllowlistParseErrorView {
        match *self {
            AllowlistParseError::InvalidEntry(s) => AllowlistParseErrorView::InvalidEntry(s@),
            AllowlistParseError::InvalidNetwork(s) => AllowlistParseErrorView::InvalidNetwork(s@),
            AllowlistParseError::InvalidPrefix(s) => AllowlistParseErrorView::InvalidPrefix(s@),
            AllowlistParseError::PrefixOutOfRange {
                prefix,
                max,
            } => AllowlistParseErrorView::PrefixOutOfRange { prefix, max },
        }
    }
}

/// The number of bits of an address.
pub open spec fn width(ip: IpAddr) -> u8 {
    match ip {
        IpAddr::V4(_) => 32,
        IpAddr::V6(_) => 128,
    }
}

/// Whether the two numbers of `width` bits agree in their `prefix` leading bits.
pub open spec fn same_prefix(a: nat, b: nat, width: nat, prefix: nat) -> bool {
    a / vstd::arithmetic::power2::pow2((width - prefix) as nat) == b / vstd::arithmetic::power2::pow2((width - prefix) as nat)
}

/// Whether `ip` is of the family of `network` and shares its `prefix` leading bits.
pub open spec fn in_range(network: IpAddr, prefix: u8, ip: IpAddr) -> bool {
    match (network, ip) {
        (IpAddr::V4(n), IpAddr::V4(i)) => same_prefix(
            n.bits as nat,
            i.bits as nat,
            32,
            prefix as nat,
        ),
        (IpAddr::V6(n), IpAddr::V6(i)) => same_prefix(
            n.bits as nat,
            i.bits as nat,
            128,
            prefix as nat,
        ),
        _ => false,
    }
}

impl AllowlistEntryView {
    /// Whether the entry covers `ip`.
    pub open spec fn covers(self, ip: IpAddr) -> bool {
        match self {
            AllowlistEntryView::Ip(allowed) => allowed == ip,
            AllowlistEntryView::Cidr { network, prefix } => in_range(network, prefix, ip),
        }
    }

    /// The text of the entry.
    pub open spec fn text(self) -> Seq<char> {
        match self {
            AllowlistEntryView::Ip(ip) => ip.text(),
            AllowlistEntryView::Cidr { network, prefix } => network.text() + seq!['/']
                + text::decimal(prefix as nat),
        }
    }
}

/// The entry that a text denotes, or what is wrong with the text: an address,
/// or an address, a slash and the number of leading bits, with white space
/// around each.
pub open spec fn entry_of(s: Seq<char>) -> Result<AllowlistEntryView, AllowlistParseErrorView> {
    let v = text::trimmed(s);
    let slash = text::find(v, '/') as int;
    let net = text::trimmed(v.take(slash));
    let pre = text::trimmed(v.skip(slash + 1));
    if addr::ip_of(v) is Some {
        Ok(AllowlistEntryView::Ip(addr::ip_of(v)->0))
    } else if slash >= v.len() {
        Err(AllowlistParseErrorView::InvalidEntry(v))
    } else if addr::ip_of(net) is None {
        Err(AllowlistParseErrorView::InvalidNetwork(net))
    } else if text::unsigned_number(pre, 255) is None {
        Err(AllowlistParseErrorView::InvalidPrefix(pre))
    } else {
        let network = addr::ip_of(net)->0;
        let prefix = text::unsigned_number(pre, 255)->0 as u8;
        if prefix <= width(network) {
            Ok(AllowlistEntryView::Cidr { network, prefix })
        } else {
            Err(AllowlistParseErrorView::PrefixOutOfRange { prefix, max: width(network) })
        }
    }
}

impl AllowlistParseErrorView {
    /// The message of the error.
    pub open spec fn message(self) -> Seq<char> {
        match self {
            AllowlistParseErrorView::InvalidEntry(s) => "invalid allowlist entry `"@ + s
                + "`; expected an IP address or CIDR"@,
            AllowlistParseErrorView::InvalidNetwork(s) => "invalid CIDR network `"@ + s + "`"@,
            AllowlistParseErrorView::InvalidPrefix(s) => "invalid CIDR prefix `"@ + s + "`"@,
            AllowlistParseErrorView::PrefixOutOfRange { prefix, max } => "CIDR prefix "@
                + text::decimal(prefix as nat) + " is out of range; max is "@ + text::decimal(
                max as nat,
            ),
        }
    }
}

fn contains_v4(network: u32, ip: u32, prefix: u8) -> (r: bool)
    requires
        prefix <= 32,
    ensures
        r == same_prefix(network as nat, ip as nat, 32, prefix as nat),
{
    if prefix == 0 {
        proof {
            vstd::arithmetic::power2::lemma2_to64();
            vstd::arithmetic::power2::lemma2_to64_rest();
            assert(network as nat / vstd::arithmetic::power2::pow2(32) == 0);
            assert(ip as nat / vstd::arithmetic::power2::pow2(32) == 0);
        }
        true
    } else {
        let shift: u32 = 32 - prefix as u32;
        proof {
            vstd::bits::lemma_u32_shr_is_div(network, shift);
            vstd::bits::lemma_u32_shr_is_div(ip, shift);
        }
        (network >> shift) == (ip >> shift)
    }
}

proof fn lemma_pow2_128(x: u128)
    ensures
        x as nat / vstd::arithmetic::power2::pow2(128) == 0,
{
    vstd::arithmetic::power2::lemma2_to64();
    vstd::arithmetic::power2::lemma2_to64_rest();
    vstd::arithmetic::power2::lemma_pow2_adds(64, 64);
    assert(0x1_0000_0000_0000_0000 * 0x1_0000_0000_0000_0000
        == 0x1_0000_0000_0000_0000_0000_0000_0000_0000int);
}

fn contains_v6(network: u128, ip: u128, prefix: u8) -> (r: bool)
    requires
        prefix <= 128,
    ensures
        r == same_prefix(network as nat, ip as nat, 128, prefix as nat),
{
    if prefix == 0 {
        proof {
            lemma_pow2_128(network);
            lemma_pow2_128(ip);
        }
        true
    } else {
        let shift: u128 = 128 - prefix as u128;
        proof {
            vstd::bits::lemma_u128_shr_is_div(network, shift);
            vstd::bits::lemma_u128_shr_is_div(ip, shift);
        }
        (network >> shift) == (ip >> shift)
    }
}

impl IpCidr {
    #[verifier::type_invariant]
    spec fn well_formed(self) -> bool {
        self.prefix <= width(self.network)
    }

    pub closed spec fn spec_network(self) -> IpAddr {
        self.network
    }

    pub closed spec fn spec_prefix(self) -> u8 {
        self.prefix
    }

    /// The range of the addresses that share `prefix` leading bits with `network`.
    pub fn new(network: IpAddr, prefix: u8) -> (r: Result<IpCidr, AllowlistParseError>)
        ensures
            match r {
                Ok(cidr) => prefix <= width(network) && cidr.spec_network() == network
                    && cidr.spec_prefix() == prefix,
                Err(e) => prefix > width(network) && e@
                    == (AllowlistParseErrorView::PrefixOutOfRange { prefix, max: width(network) }),
            },
    {
        let max: u8 = if network.is_ipv6() {
            128
        } else {
            32
        };
        if prefix <= max {
            Ok(IpCidr { network, prefix })
        } else {
            Err(AllowlistParseError::PrefixOutOfRange { prefix, max })
        }
    }

    /// Whether `ip` lies in the range.
    pub fn contains(&self, ip: IpAddr) -> (r: bool)
        ensures
            r == in_range(self.spec_network(), self.spec_prefix(), ip),
    {
        proof {
            use_type_invariant(self);
        }
        match (self.network, ip) {
            (IpAddr::V4(n), IpAddr::V4(i)) => contains_v4(n.bits, i.bits, self.prefix),
            (IpAddr::V6(n), IpAddr::V6(i)) => contains_v6(n.bits, i.bits, self.prefix),
            _ => false,
        }
    }
}

impl AllowlistEntry {
    /// Whether the entry covers `ip`.
    pub fn contains(&self, ip: IpAddr) -> (r: bool)
        ensures
            r == self@.covers(ip),
    {
        match self {
            AllowlistEntry::Ip(allowed) => *allowed == ip,
            AllowlistEntry::Cidr(cidr) => cidr.contains(ip),
        }
    }

    /// The text of the entry.
    pub fn to_string(&self) -> (r: String)
        ensures
            r@ == self@.text(),
    {
        match self {
            AllowlistEntry::Ip(ip) => ip.to_string(),
            AllowlistEntry::Cidr(cidr) => {
                let mut r = cidr.network.to_string();
                r.push('/');
                r.append(text::decimal_text(cidr.prefix as u64).as_str());
                assert(r@ =~= self@.text());
                r
            },
        }
    }

    /// Reads an entry from text.
    pub fn from_text(value: &str) -> (r: Result<AllowlistEntry, AllowlistParseError>)
        ensures
            match r {
                Ok(e) => entry_of(value@) == Ok::<_, AllowlistParseErrorView>(e@),
                Err(e) => entry_of(value@) == Err::<AllowlistEntryView, _>(e@),
            },
    {
        let value = text::trim(value);
        if let Some(ip) = addr::parse_ip(value.as_str()) {
            return Ok(AllowlistEntry::Ip(ip));
        }
        proof {
            text::lemma_find(value@, '/');
        }
        let (network, prefix) = match text::split_once(value.as_str(), '/') {
            Some(parts) => parts,
            None => {
                return Err(AllowlistParseError::InvalidEntry(value));
            },
        };
        let network = text::trim(network.as_str());
        let prefix = text::trim(prefix.as_str());
        let network = match addr::parse_ip(network.as_str()) {
            Some(ip) => ip,
            None => {
                return Err(AllowlistParseError::InvalidNetwork(network));
            },
        };
        let prefix = match text::parse_unsigned(prefix.as_str(), 255) {
            Some(n) => n as u8,
            None => {
                return Err(AllowlistParseError::InvalidPrefix(prefix));
            },
        };
        match IpCidr::new(network, prefix) {
            Ok(cidr) => Ok(AllowlistEntry::Cidr(cidr)),
            Err(e) => Err(e),
        }
    }
}

impl std::str::FromStr for AllowlistEntry {
    type Err = AllowlistParseError;

    /// Reads an entry from text.
    fn from_str(value: &str) -> (r: Result<AllowlistEntry, AllowlistParseError>)
        ensures
            match r {
                Ok(e) => entry_of(value@) == Ok::<_, AllowlistParseErrorView>(e@),
                Err(e) => entry_of(value@) == Err::<AllowlistEntryView, _>(e@),
            },
    {
        AllowlistEntry::from_text(value)
    }
}

impl AllowlistParseError {
    /// The message of the error.
    pub fn to_string(&self) -> (r: String)
        ensures
            r@ == self@.message(),
    {
        match self {
            AllowlistParseError::InvalidEntry(s) => "invalid allowlist entry `".to_string().concat(
                s.as_str(),
            ).concat("`; expected an IP address or CIDR"),
            AllowlistParseError::InvalidNetwork(s) => "invalid CIDR network `".to_string().concat(
                s.as_str(),
            ).concat("`"),
            AllowlistParseError::InvalidPrefix(s) => "invalid CIDR prefix `".to_string().concat(
                s.as_str(),
            ).concat("`"),
            AllowlistParseError::PrefixOutOfRange { prefix, max } => "CIDR prefix ".to_string().concat(
                text::decimal_text(*prefix as u64).as_str(),
            ).concat(" is out of range; max is ").concat(
                text::decimal_text(*max as u64).as_str(),
            ),
        }
    }
}

/// Whether any entry of the list covers `ip`.
pub open spec fn covered(entries: Seq<AllowlistEntry>, ip: IpAddr) -> bool {
    exists|i: int| 0 <= i < entries.len() && (#[trigger] entries[i])@.covers(ip)
}

/// Whether any entry of the list covers `ip`.
pub fn allowlisted(entries: &Vec<AllowlistEntry>, ip: IpAddr) -> (r: bool)
    ensures
        r == covered(entries@, ip),
{
    let mut i: usize = 0;
    while i < entries.len()
        invariant
            i <= entries@.len(),
            forall|k: int| 0 <= k < i ==> !(#[trigger] entries@[k])@.covers(ip),
        decreases entries@.len() - i,
    {
        if entries[i].contains(ip) {
            return true;
        }
        i = i + 1;
    }
    false
}

proof fn lemma_no_white_space(s: Seq<char>)
    requires
        addr::ip_of(s) is Some,
    ensures
        text::trimmed(s) == s,
{
    assert forall|i: int| 0 <= i < s.len() implies !text::white_space(#[trigger] s[i]) by {
        if text::white_space(s[i]) {
            addr::lemma_address_chars(s, s[i]);
        }
    }
    text::lemma_trimmed(s);
}

/// The text of an entry denotes that entry.
pub proof fn law_entry_round_trip(entry: AllowlistEntryView)
    requires
        entry matches AllowlistEntryView::Cidr { network, prefix } ==> prefix <= width(network),
    ensures
        entry_of(entry.text()) == Ok::<_, AllowlistParseErrorView>(entry),
{
    let s = entry.text();
    match entry {
        AllowlistEntryView::Ip(ip) => {
            addr::law_address_round_trip(ip);
            lemma_no_white_space(s);
        },
        AllowlistEntryView::Cidr { network, prefix } => {
            let net = network.text();
            let pre = text::decimal(prefix as nat);
            addr::law_address_round_trip(network);
            lemma_no_white_space(net);
            text::lemma_decimal(prefix as nat);
            text::lemma_trimmed(pre);
            assert forall|i: int| 0 <= i < s.len() implies !text::white_space(#[trigger] s[i]) by {
                if i < net.len() && text::white_space(s[i]) {
                    addr::lemma_address_chars(net, s[i]);
                    assert(net.contains(net[i]));
                } else if i > net.len() {
                    assert(s[i] == pre[i - net.len() - 1]);
                }
            }
            text::lemma_trimmed(s);
            assert(s[net.len() as int] == '/');
            if addr::ip_of(s) is Some {
                addr::lemma_address_chars(s, '/');
            }
            addr::lemma_address_chars(net, '/');
            assert forall|i: int| 0 <= i < net.len() implies s[i] != '/' by {
                assert(net.contains(net[i]));
            }
            text::lemma_find_is(s, '/', net.len() as int);
            assert(s.take(net.len() as int) =~= net);
            assert(s.skip(net.len() as int + 1) =~= pre);
            assert(text::strip_plus(pre) == pre);
        },
    }
}

/// A range holds the address it was made from, and one bit less of prefix never
/// loses an address.
pub proof fn law_ranges_nest(network: IpAddr, prefix: u8, ip: IpAddr)
    requires
        0 < prefix <= width(network),
    ensures
        in_range(network, prefix, network),
        in_range(network, prefix, ip) ==> in_range(network, (prefix - 1) as u8, ip),
{
    match (network, ip) {
        (IpAddr::V4(n), IpAddr::V4(i)) => {
            lemma_prefix_nests(n.bits as nat, i.bits as nat, 32, prefix as nat);
        },
        (IpAddr::V6(n), IpAddr::V6(i)) => {
            lemma_prefix_nests(n.bits as nat, i.bits as nat, 128, prefix as nat);
        },
        _ => {},
    }
}

proof fn lemma_prefix_nests(a: nat, b: nat, width: nat, prefix: nat)
    requires
        0 < prefix <= width,
    ensures
        same_prefix(a, b, width, prefix) ==> same_prefix(a, b, width, (prefix - 1) as nat),
{
    let e = (width - prefix) as nat;
    vstd::arithmetic::power2::lemma_pow2_unfold(e + 1);
    vstd::arithmetic::power2::lemma_pow2_pos(e);
    let p = vstd::arithmetic::power2::pow2(e) as int;
    vstd::arithmetic::div_mod::lemma_div_denominator(a as int, p, 2);
    vstd::arithmetic::div_mod::lemma_div_denominator(b as int, p, 2);
    assert(p * 2 == vstd::arithmetic::power2::pow2(e + 1));
}

/// A range as long as the address holds that address alone.
pub proof fn law_full_range_is_one_address(network: IpAddr, ip: IpAddr)
    ensures
        in_range(network, width(network), ip) <==> ip == network,
{
    vstd::arithmetic::power2::lemma2_to64();
    assert(vstd::arithmetic::power2::pow2(0) == 1);
    match (network, ip) {
        (IpAddr::V4(n), IpAddr::V4(i)) => {
            assert(n.bits as nat / 1 == n.bits && i.bits as nat / 1 == i.bits);
        },
        (IpAddr::V6(n), IpAddr::V6(i)) => {
            assert(n.bits as nat / 1 == n.bits && i.bits as nat / 1 == i.bits);
        },
        _ => {},
    }
}

/// The bit of a number with the value two to the power `k`.
pub open spec fn bit(n: nat, k: nat) -> nat {
    n / vstd::arithmetic::power2::pow2(k) % 2
}

/// One more leading bit is shared exactly when the bits before it are and that
/// bit is the same.
proof fn lemma_one_more_bit(a: nat, b: nat, width: nat, prefix: nat)
    requires
        prefix < width,
    ensures
        same_prefix(a, b, width, prefix + 1) <==> same_prefix(a, b, width, prefix) && bit(
            a,
            (width - prefix - 1) as nat,
        ) == bit(b, (width - prefix - 1) as nat),
{
    let e = (width - prefix - 1) as nat;
    vstd::arithmetic::power2::lemma_pow2_unfold(e + 1);
    vstd::arithmetic::power2::lemma_pow2_pos(e);
    let p = vstd::arithmetic::power2::pow2(e) as int;
    vstd::arithmetic::div_mod::lemma_div_denominator(a as int, p, 2);
    vstd::arithmetic::div_mod::lemma_div_denominator(b as int, p, 2);
    assert(p * 2 == vstd::arithmetic::power2::pow2(e + 1));
    let x = a / vstd::arithmetic::power2::pow2(e);
    let y = b / vstd::arithmetic::power2::pow2(e);
    assert(x == 2 * (x / 2) + x % 2);
    assert(y == 2 * (y / 2) + y % 2);
}

proof fn lemma_shared_bits(a: nat, b: nat, width: nat, prefix: nat)
    requires
        prefix <= width,
        same_prefix(a, b, width, 0),
    ensures
        same_prefix(a, b, width, prefix) <==> forall|k: nat|
            width - prefix <= k < width ==> #[trigger] bit(a, k) == bit(b, k),
    decreases prefix,
{
    if prefix > 0 {
        let less = (prefix - 1) as nat;
        lemma_shared_bits(a, b, width, less);
        lemma_one_more_bit(a, b, width, less);
    }
}

/// A range holds exactly the addresses of the family of its network that have
/// the same leading bits: as many of the 32 bits of an IPv4 address, or of the
/// 128 bits of an IPv6 address, as the prefix says.
pub proof fn law_range_is_the_shared_leading_bits(network: IpAddr, prefix: u8, ip: IpAddr)
    requires
        prefix <= match network {
            IpAddr::V4(_) => 32u8,
            IpAddr::V6(_) => 128u8,
        },
    ensures
        in_range(network, prefix, ip) <==> match (network, ip) {
            (IpAddr::V4(n), IpAddr::V4(i)) => forall|k: nat|
                32 - prefix <= k < 32 ==> #[trigger] bit(n.bits as nat, k) == bit(
                    i.bits as nat,
                    k,
                ),
            (IpAddr::V6(n), IpAddr::V6(i)) => forall|k: nat|
                128 - prefix <= k < 128 ==> #[trigger] bit(n.bits as nat, k) == bit(
                    i.bits as nat,
                    k,
                ),
            _ => false,
        },
{
    match (network, ip) {
        (IpAddr::V4(n), IpAddr::V4(i)) => {
            vstd::arithmetic::power2::lemma2_to64();
            assert(n.bits as nat / vstd::arithmetic::power2::pow2(32) == 0);
            assert(i.bits as nat / vstd::arithmetic::power2::pow2(32) == 0);
            lemma_shared_bits(n.bits as nat, i.bits as nat, 32, prefix as nat);
        },
        (IpAddr::V6(n), IpAddr::V6(i)) => {
            lemma_pow2_128(n.bits);
            lemma_pow2_128(i.bits);
            lemma_shared_bits(n.bits as nat, i.bits as nat, 128, prefix as nat);
        },
        _ => {},
    }
}

/// An entry for one address covers that address alone; an entry for a range
/// covers what shares its leading bits. A list covers what one of its entries
/// covers, wherever in the list it stands.
pub proof fn law_list_covers_by_any_entry(
    before: Seq<AllowlistEntry>,
    entry: AllowlistEntry,
    after: Seq<AllowlistEntry>,
    ip: IpAddr,
)
    ensures
        covered(before + seq![entry] + after, ip) <==> covered(before, ip) || covered(after, ip)
            || match entry@ {
            AllowlistEntryView::Ip(allowed) => allowed == ip,
            AllowlistEntryView::Cidr { network, prefix } => in_range(network, prefix, ip),
        },
        !covered(Seq::empty(), ip),
{
    let all = before + seq![entry] + after;
    let n = before.len() as int;
    if covered(all, ip) {
        let i = choose|i: int| 0 <= i < all.len() && (#[trigger] all[i])@.covers(ip);
        if i < n {
            assert(before[i]@.covers(ip));
        } else if i > n {
            assert(after[i - n - 1]@.covers(ip));
        } else {
            assert(all[i] == entry);
        }
    }
    if covered(before, ip) {
        let i = choose|i: int| 0 <= i < before.len() && (#[trigger] before[i])@.covers(ip);
        assert(all[i]@.covers(ip));
    }
    if covered(after, ip) {
        let i = choose|i: int| 0 <= i < after.len() && (#[trigger] after[i])@.covers(ip);
        assert(all[i + n + 1]@.covers(ip));
    }
    if entry@.covers(ip) {
        assert(all[n]@.covers(ip));
    }
}

/// A text of an address, a slash and a number of leading bits, with white space
/// around the whole and around the slash, denotes the range of that address
/// with that many leading bits; more than the address has are refused.
pub proof fn law_range_text_is_read(
    outer: Seq<char>,
    net: Seq<char>,
    pre: Seq<char>,
    network: IpAddr,
)
    requires
        text::trimmed(outer) == net + seq!['/'] + pre,
        !net.contains('/'),
        addr::ip_of(text::trimmed(net)) == Some(network),
        addr::ip_of(text::trimmed(outer)) is None,
        text::unsigned_number(text::trimmed(pre), 255) is Some,
    ensures
        ({
            let bits = text::unsigned_number(text::trimmed(pre), 255)->0;
            let most = match network {
                IpAddr::V4(_) => 32u8,
                IpAddr::V6(_) => 128u8,
            };
            entry_of(outer) == if bits <= most {
                Ok(AllowlistEntryView::Cidr { network, prefix: bits as u8 })
            } else {
                Err(AllowlistParseErrorView::PrefixOutOfRange { prefix: bits as u8, max: most })
            }
        }),
{
    let v = text::trimmed(outer);
    let n = net.len() as int;
    assert(v[n] == '/');
    assert forall|i: int| 0 <= i < n implies v[i] != '/' by {
        assert(net.contains(net[i]));
    }
    text::lemma_find_is(v, '/', n);
    assert(v.take(n) =~= net);
    assert(v.skip(n + 1) =~= pre);
    text::lemma_digits_value_bounds(text::strip_plus(text::trimmed(pre)));
}

/// A text that is an address but for white space around it denotes that
/// address.
pub proof fn law_address_text_is_read(s: Seq<char>, ip: IpAddr)
    requires
        addr::ip_of(text::trimmed(s)) == Some(ip),
    ensures
        entry_of(s) == Ok::<_, AllowlistParseErrorView>(AllowlistEntryView::Ip(ip)),
{
}

/// What is told of a text that is no entry: the part that is wrong, or the
/// number of bits and how many there may be.
pub proof fn law_refused_entries_are_told(s: Seq<char>, prefix: u8, max: u8)
    ensures
        AllowlistParseErrorView::InvalidEntry(s).message() == "invalid allowlist entry `"@ + s
            + "`; expected an IP address or CIDR"@,
        AllowlistParseErrorView::InvalidNetwork(s).message() == "invalid CIDR network `"@ + s
            + "`"@,
        AllowlistParseErrorView::InvalidPrefix(s).message() == "invalid CIDR prefix `"@ + s + "`"@,
        (AllowlistParseErrorView::PrefixOutOfRange { prefix, max }).message() == "CIDR prefix "@
            + text::decimal(prefix as nat) + " is out of range; max is "@ + text::decimal(
            max as nat,
        ),
{
}

/// A text that is neither an address nor has a slash is no entry; one with a
/// slash needs an address before it and a number up to 255 behind it.
pub proof fn law_other_texts_are_refused(s: Seq<char>, net: Seq<char>, pre: Seq<char>)
    requires
        addr::ip_of(text::trimmed(s)) is None,
    ensures
        !text::trimmed(s).contains('/') ==> entry_of(s) == Err::<AllowlistEntryView, _>(
            AllowlistParseErrorView::InvalidEntry(text::trimmed(s)),
        ),
        text::trimmed(s) == net + seq!['/'] + pre && !net.contains('/') && addr::ip_of(
            text::trimmed(net),
        ) is None ==> entry_of(s) == Err::<AllowlistEntryView, _>(
            AllowlistParseErrorView::InvalidNetwork(text::trimmed(net)),
        ),
        text::trimmed(s) == net + seq!['/'] + pre && !net.contains('/') && addr::ip_of(
            text::trimmed(net),
        ) is Some && text::unsigned_number(text::trimmed(pre), 255) is None ==> entry_of(s)
            == Err::<AllowlistEntryView, _>(
            AllowlistParseErrorView::InvalidPrefix(text::trimmed(pre)),
        ),
{
    let v = text::trimmed(s);
    text::lemma_find(v, '/');
    if v == net + seq!['/'] + pre && !net.contains('/') {
        let n = net.len() as int;
        assert(v[n] == '/');
        assert forall|i: int| 0 <= i < n implies v[i] != '/' by {
            assert(net.contains(net[i]));
        }
        text::lemma_find_is(v, '/', n);
        assert(v.take(n) =~= net);
        assert(v.skip(n + 1) =~= pre);
    }
}

} // verus!
