//! Access control by client address: allow rules and deny rules, each an
//! address, a network in CIDR form, or `all`. A deny rule that matches wins;
//! else an allow rule must match.

use crate::addr::{
    dotted, ip_of, is_digit, lemma_decimal_push, lemma_ipv4_of_octets, octet_of, parse_ip,
    parse_unsigned, unsigned_of, IpAddress,
};
use crate::config::{texts, Config};
use crate::error::joined;
use crate::text::{
    chars_of, digits_of, find_char, is_whitespace, is_word, lemma_position_is, lemma_trim_keeps,
    number_text, position, text_of, trim, trimmed,
};
use vstd::prelude::*;
use vstd::slice::slice_subrange;
use vstd::string::StringExecFns;

verus! {

/// A rule on client addresses.
#[derive(Debug, Clone, Copy, PartialEq, Eq, Structural)]
pub enum IpRule {
    /// One address.
    Single(IpAddress),
    /// The addresses that agree with `network` in their first `prefix` bits.
    Network { network: IpAddress, prefix: u8 },
    /// Every address.
    All,
}

/// The most bits that a prefix may have for a network of this kind.
pub open spec fn max_prefix(network: IpAddress) -> u8 {
    match network {
        IpAddress::V4(_) => 32,
        IpAddress::V6(_) => 128,
    }
}

/// Whether two addresses are of one kind, both IPv4 or both IPv6.
pub open spec fn same_kind(a: IpAddress, b: IpAddress) -> bool {
    (a is V4) == (b is V4)
}

impl IpRule {
    /// The prefix of a network is no longer than its addresses.
    pub open spec fn wf(self) -> bool {
        match self {
            IpRule::Network { network, prefix } => prefix <= max_prefix(network),
            _ => true,
        }
    }
}

/// The mask that keeps the first `prefix` of 32 bits.
pub open spec fn v4_mask(prefix: u8) -> u32 {
    if prefix == 0 {
        0u32
    } else {
        !(((1u32 << ((32 - prefix) as u32)) - 1) as u32)
    }
}

/// The mask that keeps the first `prefix` of 128 bits.
pub open spec fn v6_mask(prefix: u8) -> u128 {
    if prefix == 0 {
        0u128
    } else {
        !(((1u128 << ((128 - prefix) as u128)) - 1) as u128)
    }
}

/// Whether `ip` lies in the network: both of one kind, and equal under the
/// mask of the prefix.
pub open spec fn in_network(ip: IpAddress, network: IpAddress, prefix: u8) -> bool {
    match (ip, network) {
        (IpAddress::V4(a), IpAddress::V4(n)) => (a & v4_mask(prefix)) == (n & v4_mask(prefix)),
        (IpAddress::V6(a), IpAddress::V6(n)) => (a & v6_mask(prefix)) == (n & v6_mask(prefix)),
        _ => false,
    }
}

/// Whether a rule matches an address.
pub open spec fn rule_matches(rule: IpRule, ip: IpAddress) -> bool {
    match rule {
        IpRule::All => true,
        IpRule::Single(r) => ip == r,
        IpRule::Network { network, prefix } => in_network(ip, network, prefix),
    }
}

/// Whether one of the rules matches an address.
pub open spec fn any_matches(rules: Seq<IpRule>, ip: IpAddress) -> bool {
    exists|i: int| 0 <= i < rules.len() && rule_matches(#[trigger] rules[i], ip)
}

/// Whether the rules admit an address: no deny rule matches and an allow rule does.
pub open spec fn permitted(allow: Seq<IpRule>, deny: Seq<IpRule>, ip: IpAddress) -> bool {
    !any_matches(deny, ip) && any_matches(allow, ip)
}

/// Whether an address is admitted depends on the rules and the address alone:
/// two answers to the same question are the same answer.
pub proof fn lemma_same_answer(
    allow: Seq<IpRule>,
    deny: Seq<IpRule>,
    ip: IpAddress,
    first: bool,
    second: bool,
)
    requires
        first == permitted(allow, deny, ip),
        second == permitted(allow, deny, ip),
    ensures
        first == second,
{
}

/// An address that no allow rule matches is not admitted, whatever the deny rules.
pub proof fn lemma_default_deny(allow: Seq<IpRule>, deny: Seq<IpRule>, ip: IpAddress)
    requires
        !any_matches(allow, ip),
    ensures
        !permitted(allow, deny, ip),
{
}

/// An address that a deny rule matches is not admitted, whatever the allow rules.
pub proof fn lemma_deny_wins(allow: Seq<IpRule>, deny: Seq<IpRule>, ip: IpAddress)
    requires
        any_matches(deny, ip),
    ensures
        !permitted(allow, deny, ip),
{
}

/// An address in a network is in every network of the same base with a
/// shorter prefix: a `/n` rule matches all of each `/m` subrange, `m >= n`.
pub proof fn lemma_cidr_monotone(ip: IpAddress, network: IpAddress, n: u8, m: u8)
    requires
        n <= m <= max_prefix(network),
        in_network(ip, network, m),
    ensures
        in_network(ip, network, n),
{
    match (ip, network) {
        (IpAddress::V4(a), IpAddress::V4(b)) => {
            let high = v4_mask(m);
            let low = v4_mask(n);
            assert(low & high == low) by (bit_vector)
                requires
                    n <= m <= 32,
                    high == (if m == 0 {
                        0u32
                    } else {
                        !(((1u32 << ((32 - m) as u32)) - 1) as u32)
                    }),
                    low == (if n == 0 {
                        0u32
                    } else {
                        !(((1u32 << ((32 - n) as u32)) - 1) as u32)
                    }),
            ;
            assert((a & low) == (b & low)) by (bit_vector)
                requires
                    (a & high) == (b & high),
                    low & high == low,
            ;
        },
        (IpAddress::V6(a), IpAddress::V6(b)) => {
            let high = v6_mask(m);
            let low = v6_mask(n);
            assert(low & high == low) by (bit_vector)
                requires
                    n <= m <= 128,
                    high == (if m == 0 {
                        0u128
                    } else {
                        !(((1u128 << ((128 - m) as u128)) - 1) as u128)
                    }),
                    low == (if n == 0 {
                        0u128
                    } else {
                        !(((1u128 << ((128 - n) as u128)) - 1) as u128)
                    }),
            ;
            assert((a & low) == (b & low)) by (bit_vector)
                requires
                    (a & high) == (b & high),
                    low & high == low,
            ;
        },
        _ => {},
    }
}

/// The kind of address that a rule is about; `All` is about neither.
pub open spec fn rule_is_v4(rule: IpRule) -> bool {
    match rule {
        IpRule::Single(r) => r is V4,
        IpRule::Network { network, prefix } => network is V4,
        IpRule::All => false,
    }
}

/// Whether a rule is about IPv6 addresses; `All` is about neither kind.
pub open spec fn rule_is_v6(rule: IpRule) -> bool {
    match rule {
        IpRule::Single(r) => r is V6,
        IpRule::Network { network, prefix } => network is V6,
        IpRule::All => false,
    }
}

/// A rule about IPv4 addresses matches no IPv6 address, and a rule about
/// IPv6 addresses no IPv4 address.
pub proof fn lemma_family_isolation(rule: IpRule, ip: IpAddress)
    requires
        (rule_is_v4(rule) && ip is V6) || (rule_is_v6(rule) && ip is V4),
    ensures
        !rule_matches(rule, ip),
{
}

/// The rule that a text denotes, or the reason why it denotes none. The text
/// is trimmed first. `all` and `*` are every address; `address/prefix` is a
/// network; anything else must be an address.
pub open spec fn rule_of(text: Seq<char>) -> Result<IpRule, Seq<char>> {
    let t = trim(text);
    if t == "all"@ || t == "*"@ {
        Ok(IpRule::All)
    } else {
        let slash = position(t, '/');
        if 0 <= slash < t.len() {
            match ip_of(t.take(slash)) {
                None => Err("Invalid network address: "@ + t.take(slash)),
                Some(network) => match unsigned_of(t.skip(slash + 1), 255) {
                    None => Err("Invalid prefix length: "@ + t.skip(slash + 1)),
                    Some(prefix) => if prefix > max_prefix(network) {
                        Err("Prefix length "@ + digits_of(prefix) + " too large for IP version"@)
                    } else {
                        Ok(IpRule::Network { network, prefix: prefix as u8 })
                    },
                },
            }
        } else {
            match ip_of(t) {
                Some(ip) => Ok(IpRule::Single(ip)),
                None => Err("Invalid IP address: "@ + t),
            }
        }
    }
}

/// An address, a slash and a prefix that fits denote the network.
pub proof fn lemma_rule_of_network(
    address: Seq<char>,
    prefix: Seq<char>,
    network: IpAddress,
    bits: nat,
)
    requires
        address.len() > 0,
        prefix.len() > 0,
        !is_whitespace(address[0]),
        !is_whitespace(prefix.last()),
        forall|j: int| 0 <= j < address.len() ==> address[j] != '/',
        ip_of(address) == Some(network),
        unsigned_of(prefix, 255) == Some(bits),
        bits <= max_prefix(network),
    ensures
        rule_of(address + seq!['/'] + prefix) == Ok::<IpRule, Seq<char>>(
            IpRule::Network { network, prefix: bits as u8 },
        ),
{
    let t = address + seq!['/'] + prefix;
    assert(t[0] == address[0]);
    assert(t.last() == prefix.last());
    lemma_trim_keeps(t);
    assert(t[address.len() as int] == '/');
    assert(t != "all"@ && t != "*"@) by {
        reveal_strlit("all");
        reveal_strlit("*");
        if t == "all"@ || t == "*"@ {
            assert(address.len() < 3);
        }
    }
    assert forall|j: int| 0 <= j < address.len() implies t[j] != '/' by {
        assert(t[j] == address[j]);
    }
    lemma_position_is(t, '/', address.len() as int);
    assert(t.take(address.len() as int) =~= address);
    assert(t.skip(address.len() as int + 1) =~= prefix);
}

/// An address by itself denotes that one address.
pub proof fn lemma_rule_of_address(address: Seq<char>, ip: IpAddress)
    requires
        address.len() > 0,
        is_digit(address[0]) || address[0] == ':',
        !is_whitespace(address.last()),
        forall|j: int| 0 <= j < address.len() ==> address[j] != '/',
        ip_of(address) == Some(ip),
    ensures
        rule_of(address) == Ok::<IpRule, Seq<char>>(IpRule::Single(ip)),
{
    lemma_trim_keeps(address);
    assert(address != "all"@ && address != "*"@) by {
        reveal_strlit("all");
        reveal_strlit("*");
    }
    lemma_position_is(address, '/', address.len() as int);
}

/// With the network `192.168.1.0/24` allowed and its host `192.168.1.100`
/// denied, that host is refused and another host of the network is admitted.
pub proof fn lemma_denied_host_of_allowed_network()
    ensures
        !permitted(
            allow_rules_of(seq!["192.168.1.0/24"@], seq!["192.168.1.100"@]),
            rules_of(seq!["192.168.1.100"@]),
            IpAddress::V4(0xc0a8_0164),
        ),
        permitted(
            allow_rules_of(seq!["192.168.1.0/24"@], seq!["192.168.1.100"@]),
            rules_of(seq!["192.168.1.100"@]),
            IpAddress::V4(0xc0a8_0132),
        ),
{
    let o192 = seq!['1', '9', '2'];
    let o168 = seq!['1', '6', '8'];
    let o1 = seq!['1'];
    let o0 = seq!['0'];
    let o100 = seq!['1', '0', '0'];
    let p24 = seq!['2', '4'];
    let none = Seq::<char>::empty();
    lemma_decimal_push(none, '1');
    lemma_decimal_push(none, '0');
    lemma_decimal_push(none, '2');
    lemma_decimal_push(none.push('1'), '9');
    lemma_decimal_push(none.push('1').push('9'), '2');
    lemma_decimal_push(none.push('1'), '6');
    lemma_decimal_push(none.push('1').push('6'), '8');
    lemma_decimal_push(none.push('1'), '0');
    lemma_decimal_push(none.push('1').push('0'), '0');
    lemma_decimal_push(none.push('2'), '4');
    assert(o192 =~= none.push('1').push('9').push('2'));
    assert(o168 =~= none.push('1').push('6').push('8'));
    assert(o100 =~= none.push('1').push('0').push('0'));
    assert(o1 =~= none.push('1'));
    assert(o0 =~= none.push('0'));
    assert(p24 =~= none.push('2').push('4'));
    assert(octet_of(o192) == Some(192u8));
    assert(octet_of(o168) == Some(168u8));
    assert(octet_of(o1) == Some(1u8));
    assert(octet_of(o0) == Some(0u8));
    assert(octet_of(o100) == Some(100u8));
    assert(p24.skip(0) =~= p24);
    assert(unsigned_of(p24, 255) == Some(24nat));
    let net_text = dotted(o192, o168, o1, o0);
    let host_text = dotted(o192, o168, o1, o100);
    lemma_ipv4_of_octets(o192, o168, o1, o0);
    lemma_ipv4_of_octets(o192, o168, o1, o100);
    let network = IpAddress::V4(0xc0a8_0100);
    let host = IpAddress::V4(0xc0a8_0164);
    let other = IpAddress::V4(0xc0a8_0132);
    assert(ip_of(net_text) == Some(network));
    assert(ip_of(host_text) == Some(host));
    assert(net_text.len() == 11 && host_text.len() == 13);
    assert forall|j: int| 0 <= j < net_text.len() implies net_text[j] != '/' by {}
    assert forall|j: int| 0 <= j < host_text.len() implies host_text[j] != '/' by {}
    lemma_rule_of_network(net_text, p24, network, 24);
    lemma_rule_of_address(host_text, host);
    let allow_text = "192.168.1.0/24"@;
    let deny_text = "192.168.1.100"@;
    assert(allow_text =~= net_text + seq!['/'] + p24) by {
        reveal_strlit("192.168.1.0/24");
    }
    assert(deny_text =~= host_text) by {
        reveal_strlit("192.168.1.100");
    }
    let allow = seq![allow_text];
    let deny = seq![deny_text];
    assert(allow.drop_last() =~= Seq::<Seq<char>>::empty());
    assert(deny.drop_last() =~= Seq::<Seq<char>>::empty());
    assert(rules_of(Seq::<Seq<char>>::empty()) =~= Seq::<IpRule>::empty());
    assert(rule_of(allow.last()) == Ok::<IpRule, Seq<char>>(
        IpRule::Network { network, prefix: 24 },
    ));
    assert(rule_of(deny.last()) == Ok::<IpRule, Seq<char>>(IpRule::Single(host)));
    let allow_rules = rules_of(allow);
    let deny_rules = rules_of(deny);
    assert(allow_rules =~= seq![IpRule::Network { network, prefix: 24 }]);
    assert(deny_rules =~= seq![IpRule::Single(host)]);
    assert(allow_rules_of(allow, deny) == allow_rules);
    assert(rule_matches(deny_rules[0], host));
    let mask = v4_mask(24);
    assert((0xc0a8_0132u32 & mask) == (0xc0a8_0100u32 & mask)) by (bit_vector)
        requires
            mask == !(((1u32 << 8u32) - 1) as u32),
    ;
    assert(rule_matches(allow_rules[0], other));
}

/// Reads a rule.
pub fn parse_ip_rule(rule: &str) -> (r: Result<IpRule, String>)
    ensures
        match r {
            Ok(parsed) => rule_of(rule@) == Ok::<IpRule, Seq<char>>(parsed) && parsed.wf(),
            Err(reason) => rule_of(rule@) == Err::<IpRule, Seq<char>>(reason@),
        },
{
    let chars = chars_of(rule);
    let t = trimmed(chars.as_slice());
    let t = t.as_slice();
    if is_word(t, "all") || is_word(t, "*") {
        return Ok(IpRule::All);
    }
    let slash = find_char(t, '/');
    if slash < t.len() {
        let network_text = slice_subrange(t, 0, slash);
        let prefix_text = slice_subrange(t, slash + 1, t.len());
        proof {
            assert(t@.subrange(0, slash as int) =~= t@.take(slash as int));
            assert(t@.subrange(slash + 1, t.len() as int) =~= t@.skip(slash + 1));
        }
        let network = match parse_ip(network_text) {
            Some(a) => a,
            None => {
                return Err(joined("Invalid network address: ", text_of(network_text).as_str()));
            },
        };
        let prefix = match parse_unsigned(prefix_text, 255) {
            Some(p) => p as u8,
            None => {
                return Err(joined("Invalid prefix length: ", text_of(prefix_text).as_str()));
            },
        };
        let most: u8 = match network {
            IpAddress::V4(_) => 32,
            IpAddress::V6(_) => 128,
        };
        if prefix > most {
            let mut reason = String::from_str("Prefix length ");
            reason.append(number_text(prefix as u64).as_str());
            reason.append(" too large for IP version");
            return Err(reason);
        }
        return Ok(IpRule::Network { network, prefix });
    }
    match parse_ip(t) {
        Some(ip) => Ok(IpRule::Single(ip)),
        None => Err(joined("Invalid IP address: ", text_of(t).as_str())),
    }
}

/// The rules that a list of texts denotes: those of the texts that denote one, in order.
pub open spec fn rules_of(list: Seq<Seq<char>>) -> Seq<IpRule>
    decreases list.len(),
{
    if list.len() == 0 {
        Seq::empty()
    } else {
        match rule_of(list.last()) {
            Ok(rule) => rules_of(list.drop_last()).push(rule),
            Err(_) => rules_of(list.drop_last()),
        }
    }
}

/// The allow rules of a configuration: those that its allow list denotes, or
/// the one rule `all` where neither list denotes any rule.
pub open spec fn allow_rules_of(allow: Seq<Seq<char>>, deny: Seq<Seq<char>>) -> Seq<IpRule> {
    if rules_of(allow).len() == 0 && rules_of(deny).len() == 0 {
        seq![IpRule::All]
    } else {
        rules_of(allow)
    }
}

/// Whether every rule of a list is well formed.
pub open spec fn all_wf(rules: Seq<IpRule>) -> bool {
    forall|i: int| 0 <= i < rules.len() ==> (#[trigger] rules[i]).wf()
}

/// Under a configuration whose allow list denotes a rule at least, an
/// address that none of its allow rules matches is not admitted.
pub proof fn lemma_default_deny_configured(
    allow: Seq<Seq<char>>,
    deny: Seq<Seq<char>>,
    ip: IpAddress,
)
    requires
        rules_of(allow).len() > 0,
        !any_matches(rules_of(allow), ip),
    ensures
        !permitted(allow_rules_of(allow, deny), rules_of(deny), ip),
{
}

/// Without any rule that the lists of a configuration denote, every address
/// is admitted.
pub proof fn lemma_permit_all_by_default(allow: Seq<Seq<char>>, deny: Seq<Seq<char>>, ip: IpAddress)
    requires
        rules_of(allow).len() == 0,
        rules_of(deny).len() == 0,
    ensures
        permitted(allow_rules_of(allow, deny), rules_of(deny), ip),
{
    let rules = allow_rules_of(allow, deny);
    assert(rule_matches(rules[0], ip));
}

fn parse_rules(list: &Vec<String>) -> (rules: Vec<IpRule>)
    ensures
        rules@ == rules_of(texts(list@)),
        all_wf(rules@),
{
    let mut rules: Vec<IpRule> = Vec::new();
    let ghost lv = texts(list@);
    let mut i: usize = 0;
    proof {
        assert(lv.take(0) =~= Seq::<Seq<char>>::empty());
    }
    while i < list.len()
        invariant
            i <= list.len(),
            lv == texts(list@),
            rules@ == rules_of(lv.take(i as int)),
            all_wf(rules@),
        decreases list.len() - i,
    {
        proof {
            assert(lv.take(i + 1).drop_last() =~= lv.take(i as int));
            assert(lv.take(i + 1).last() == list@[i as int]@);
        }
        match parse_ip_rule(list[i].as_str()) {
            Ok(rule) => {
                rules.push(rule);
            },
            Err(_) => {},
        }
        i += 1;
    }
    proof {
        assert(lv.take(list.len() as int) =~= lv);
    }
    rules
}

/// The allow rules and the deny rules of a proxy.
#[derive(Debug)]
pub struct AccessControl {
    allow_rules: Vec<IpRule>,
    deny_rules: Vec<IpRule>,
}

impl AccessControl {
    #[verifier::type_invariant]
    spec fn rules_wf(self) -> bool {
        all_wf(self.allow_rules@) && all_wf(self.deny_rules@)
    }

    /// The allow rules.
    pub closed spec fn allow(self) -> Seq<IpRule> {
        self.allow_rules@
    }

    /// The deny rules.
    pub closed spec fn deny(self) -> Seq<IpRule> {
        self.deny_rules@
    }

    /// The rules of a configuration. A text that denotes no rule is passed over.
    pub fn new(config: &Config) -> (acl: AccessControl)
        ensures
            acl.allow() == allow_rules_of(config@.allow, config@.deny),
            acl.deny() == rules_of(config@.deny),
    {
        let mut allow_rules = parse_rules(&config.allow);
        let deny_rules = parse_rules(&config.deny);
        if allow_rules.len() == 0 && deny_rules.len() == 0 {
            allow_rules.push(IpRule::All);
            assert(allow_rules@ =~= seq![IpRule::All]);
        }
        AccessControl { allow_rules, deny_rules }
    }

    /// Whether a client at this address is admitted.
    pub fn is_allowed(&self, ip: &IpAddress) -> (r: bool)
        ensures
            r == permitted(self.allow(), self.deny(), *ip),
    {
        proof {
            use_type_invariant(self);
        }
        if matches_any(&self.deny_rules, ip) {
            return false;
        }
        matches_any(&self.allow_rules, ip)
    }

    /// Whether a rule matches an address.
    pub fn matches_rule(&self, rule: &IpRule, ip: &IpAddress) -> (r: bool)
        requires
            rule.wf(),
        ensures
            r == rule_matches(*rule, *ip),
    {
        rule_applies(rule, ip)
    }

    /// Whether an address lies in a network. For an address and a network
    /// of one kind, the prefix must be no longer than their addresses.
    pub fn ip_in_network(&self, ip: &IpAddress, network: &IpAddress, prefix: u8) -> (r: bool)
        requires
            same_kind(*ip, *network) ==> prefix <= max_prefix(*network),
        ensures
            r == in_network(*ip, *network, prefix),
    {
        address_in_network(ip, network, prefix)
    }
}

fn matches_any(rules: &Vec<IpRule>, ip: &IpAddress) -> (r: bool)
    requires
        all_wf(rules@),
    ensures
        r == any_matches(rules@, *ip),
{
    let mut i: usize = 0;
    while i < rules.len()
        invariant
            i <= rules.len(),
            all_wf(rules@),
            forall|j: int| 0 <= j < i ==> !rule_matches(#[trigger] rules@[j], *ip),
        decreases rules.len() - i,
    {
        if rule_applies(&rules[i], ip) {
            return true;
        }
        i += 1;
    }
    false
}

fn rule_applies(rule: &IpRule, ip: &IpAddress) -> (r: bool)
    requires
        rule.wf(),
    ensures
        r == rule_matches(*rule, *ip),
{
    match rule {
        IpRule::All => true,
        IpRule::Single(r) => *ip == *r,
        IpRule::Network { network, prefix } => address_in_network(ip, network, *prefix),
    }
}

fn address_in_network(ip: &IpAddress, network: &IpAddress, prefix: u8) -> (r: bool)
    requires
        same_kind(*ip, *network) ==> prefix <= max_prefix(*network),
    ensures
        r == in_network(*ip, *network, prefix),
{
    match (ip, network) {
        (IpAddress::V4(a), IpAddress::V4(n)) => {
            let mask: u32 = if prefix == 0 {
                0
            } else {
                let shift: u32 = (32 - prefix) as u32;
                assert((1u32 << shift) >= 1) by (bit_vector)
                    requires
                        shift < 32,
                ;
                !((1u32 << shift) - 1)
            };
            (*a & mask) == (*n & mask)
        },
        (IpAddress::V6(a), IpAddress::V6(n)) => {
            let mask: u128 = if prefix == 0 {
                0
            } else {
                let shift: u128 = (128 - prefix) as u128;
                assert((1u128 << shift) >= 1) by (bit_vector)
                    requires
                        shift < 128,
                ;
                !((1u128 << shift) - 1)
            };
            (*a & mask) == (*n & mask)
        },
        _ => false,
    }
}

} // verus!
