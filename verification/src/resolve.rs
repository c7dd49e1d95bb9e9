use vstd::prelude::*;

use crate::addr::IpAddress;
use crate::parse::{
    contains_byte, find_byte, parse_cidr_v4, parse_ipv4, spec_parse_cidr_v4, spec_parse_ipv4,
    SLASH,
};

verus! {

/// Why a target string could not be resolved.
#[derive(Clone, Copy, Debug, PartialEq, Eq, Structural)]
pub enum ResolveError {
    /// The input contains a slash but is not a well-formed CIDR block.
    InvalidInput,
    /// The hostname lookup itself failed.
    LookupFailed,
    /// A lookup succeeded but no usable address was left after filtering.
    NoAddressesFound,
}

/// What a target string denotes: a concrete address list, or a hostname
/// that still needs a lookup (which only the caller can perform).
pub enum Resolution {
    Addresses(Vec<IpAddress>),
    Hostname,
}

pub open spec fn pow2(e: nat) -> int
    decreases e,
{
    if e == 0 {
        1
    } else {
        2 * pow2((e - 1) as nat)
    }
}

pub proof fn lemma_pow2_pos(e: nat)
    ensures
        pow2(e) >= 1,
    decreases e,
{
    if e > 0 {
        lemma_pow2_pos((e - 1) as nat);
    }
}

pub proof fn lemma_pow2_adds(a: nat, b: nat)
    ensures
        pow2(a + b) == pow2(a) * pow2(b),
    decreases a,
{
    if a == 0 {
    } else {
        lemma_pow2_adds((a - 1) as nat, b);
        assert(pow2((a - 1) as nat + b) == pow2((a - 1) as nat) * pow2(b));
        assert(pow2(a + b) == 2 * pow2((a + b - 1) as nat));
        assert(2 * (pow2((a - 1) as nat) * pow2(b)) == (2 * pow2((a - 1) as nat)) * pow2(b))
            by (nonlinear_arith);
    }
}

pub proof fn lemma_pow2_le(a: nat, b: nat)
    requires
        a <= b,
    ensures
        pow2(a) <= pow2(b),
{
    lemma_pow2_adds(a, (b - a) as nat);
    lemma_pow2_pos(a);
    lemma_pow2_pos((b - a) as nat);
    assert(pow2(a) * pow2((b - a) as nat) >= pow2(a) * 1) by (nonlinear_arith)
        requires
            pow2(a) >= 1,
            pow2((b - a) as nat) >= 1,
    ;
}

pub proof fn lemma_pow2_32()
    ensures
        pow2(32) == 0x1_0000_0000,
{
    assert(pow2(32) == 0x1_0000_0000) by {
        reveal_with_fuel(pow2, 33);
    }
}

pub proof fn lemma_pow2_64()
    ensures
        pow2(64) == 0x1_0000_0000_0000_0000,
{
    lemma_pow2_32();
    lemma_pow2_adds(32, 32);
    assert(pow2(32) * pow2(32) == 0x1_0000_0000_0000_0000) by (nonlinear_arith)
        requires
            pow2(32) == 0x1_0000_0000,
    ;
}

pub proof fn lemma_pow2_128()
    ensures
        pow2(128) == 0x1_0000_0000_0000_0000_0000_0000_0000_0000,
{
    lemma_pow2_64();
    lemma_pow2_adds(64, 64);
    assert(pow2(64) * pow2(64) == 0x1_0000_0000_0000_0000_0000_0000_0000_0000)
        by (nonlinear_arith)
        requires
            pow2(64) == 0x1_0000_0000_0000_0000,
    ;
}

pub proof fn lemma_pow2_127()
    ensures
        pow2(127) == 0x8000_0000_0000_0000_0000_0000_0000_0000,
{
    lemma_pow2_128();
    lemma_pow2_adds(127, 1);
    assert(pow2(1) == 2) by {
        reveal_with_fuel(pow2, 2);
    }
    assert(pow2(127) == 0x8000_0000_0000_0000_0000_0000_0000_0000) by (nonlinear_arith)
        requires
            pow2(128) == pow2(127) * pow2(1),
            pow2(1) == 2,
            pow2(128) == 0x1_0000_0000_0000_0000_0000_0000_0000_0000,
    ;
}

/// How many addresses an IPv4 block with this prefix length holds.
pub open spec fn block_size_v4(prefix: int) -> int {
    pow2((32 - prefix) as nat)
}

/// The first address of the IPv4 block that `addr` falls in.
pub open spec fn block_base_v4(addr: int, prefix: int) -> int {
    addr - addr % block_size_v4(prefix)
}

/// How many addresses an IPv6 block with this prefix length holds.
pub open spec fn block_size_v6(prefix: int) -> int {
    pow2((128 - prefix) as nat)
}

/// The first address of the IPv6 block that `addr` falls in.
pub open spec fn block_base_v6(addr: int, prefix: int) -> int {
    addr - addr % block_size_v6(prefix)
}

/// Every address of the IPv4 block around `addr`, in ascending order.
/// The policy is "all addresses in the block": the network and broadcast
/// addresses are included, so a /30 yields 4 targets.
pub fn expand_v4(addr: u32, prefix: u8) -> (r: Vec<IpAddress>)
    requires
        prefix <= 32,
    ensures
        r@.len() == block_size_v4(prefix as int),
        forall|k: int|
            0 <= k < r@.len() ==> r@[k] == IpAddress::V4(
                (block_base_v4(addr as int, prefix as int) + k) as u32,
            ),
{
    let width: u8 = 32 - prefix;
    let mut block: u64 = 1;
    let mut j: u8 = 0;
    while j < width
        invariant
            j <= width <= 32,
            block == pow2(j as nat),
        decreases width - j,
    {
        proof {
            assert(pow2((j + 1) as nat) == 2 * pow2(j as nat));
            lemma_pow2_le((j + 1) as nat, 32);
            lemma_pow2_32();
        }
        block = block * 2;
        j = j + 1;
    }
    proof {
        lemma_pow2_pos(width as nat);
        lemma_pow2_32();
    }
    let a64 = addr as u64;
    let rem = a64 % block;
    proof {
        vstd::arithmetic::div_mod::lemma_mod_decreases(a64 as nat, block as nat);
    }
    let base = a64 - rem;
    proof {
        let p2w = pow2((32 - prefix) as nat);
        let p2p = pow2(prefix as nat);
        lemma_pow2_adds((32 - prefix) as nat, prefix as nat);
        lemma_pow2_pos(prefix as nat);
        assert(p2w * p2p == 0x1_0000_0000);
        vstd::arithmetic::div_mod::lemma_fundamental_div_mod(a64 as int, block as int);
        let q = a64 as int / block as int;
        assert(base + block <= 0x1_0000_0000) by (nonlinear_arith)
            requires
                block == p2w,
                p2w * p2p == 0x1_0000_0000,
                a64 == block as int * q + rem,
                base == a64 - rem,
                0 <= rem,
                block >= 1,
                p2p >= 1,
                a64 < 0x1_0000_0000,
        ;
    }
    let last = base + (block - 1);
    let mut out: Vec<IpAddress> = Vec::new();
    let mut cur = base;
    while cur < last
        invariant
            base <= cur <= last,
            last < 0x1_0000_0000,
            last == base + pow2((32 - prefix) as nat) - 1,
            base == block_base_v4(addr as int, prefix as int),
            prefix <= 32,
            out@.len() == cur - base,
            forall|k: int| 0 <= k < out@.len() ==> out@[k] == IpAddress::V4((base + k) as u32),
        decreases last - cur,
    {
        out.push(IpAddress::V4(cur as u32));
        cur = cur + 1;
    }
    out.push(IpAddress::V4(cur as u32));
    out
}

/// Every address of the IPv6 block around `addr`, in ascending order,
/// with the same all-addresses policy as `expand_v4`.
pub fn expand_v6(addr: u128, prefix: u8) -> (r: Vec<IpAddress>)
    requires
        prefix <= 128,
    ensures
        r@.len() == block_size_v6(prefix as int),
        forall|k: int|
            0 <= k < r@.len() ==> r@[k] == IpAddress::V6(
                (block_base_v6(addr as int, prefix as int) + k) as u128,
            ),
{
    let (base, last): (u128, u128) = if prefix == 0 {
        proof {
            lemma_pow2_128();
            vstd::arithmetic::div_mod::lemma_small_mod(addr as nat, pow2(128) as nat);
        }
        (0, u128::MAX)
    } else {
        let width: u8 = 128 - prefix;
        let mut block: u128 = 1;
        let mut j: u8 = 0;
        while j < width
            invariant
                j <= width <= 127,
                block == pow2(j as nat),
            decreases width - j,
        {
            proof {
                assert(pow2((j + 1) as nat) == 2 * pow2(j as nat));
                lemma_pow2_le((j + 1) as nat, 127);
                lemma_pow2_127();
            }
            block = block * 2;
            j = j + 1;
        }
        proof {
            lemma_pow2_pos(width as nat);
            lemma_pow2_128();
        }
        let a = addr;
        let rem = a % block;
        proof {
            vstd::arithmetic::div_mod::lemma_mod_decreases(a as nat, block as nat);
        }
        let base = a - rem;
        proof {
            let p2w = pow2((128 - prefix) as nat);
            let p2p = pow2(prefix as nat);
            lemma_pow2_adds((128 - prefix) as nat, prefix as nat);
            lemma_pow2_pos(prefix as nat);
            assert(p2w * p2p == 0x1_0000_0000_0000_0000_0000_0000_0000_0000);
            vstd::arithmetic::div_mod::lemma_fundamental_div_mod(a as int, block as int);
            let q = a as int / block as int;
            assert(base + block <= 0x1_0000_0000_0000_0000_0000_0000_0000_0000)
                by (nonlinear_arith)
                requires
                    block == p2w,
                    p2w * p2p == 0x1_0000_0000_0000_0000_0000_0000_0000_0000,
                    a == block as int * q + rem,
                    base == a - rem,
                    0 <= rem,
                    block >= 1,
                    p2p >= 1,
                    a < 0x1_0000_0000_0000_0000_0000_0000_0000_0000,
            ;
        }
        (base, base + (block - 1))
    };
    let ghost gbase = block_base_v6(addr as int, prefix as int);
    let mut out: Vec<IpAddress> = Vec::new();
    let mut cur = base;
    while cur < last
        invariant
            base <= cur <= last,
            base == gbase,
            last == base + block_size_v6(prefix as int) - 1,
            last <= u128::MAX,
            out@.len() == cur - base,
            forall|k: int| 0 <= k < out@.len() ==> out@[k] == IpAddress::V6((base + k) as u128),
        decreases last - cur,
    {
        out.push(IpAddress::V6(cur));
        cur = cur + 1;
    }
    out.push(IpAddress::V6(cur));
    out
}

/// What the outside IPv6 parser reads out of a network string: the
/// address as written and the prefix length, or nothing when the text is
/// not an IPv6 address with an optional "/prefix" part.
pub uninterp spec fn v6_network_of(s: Seq<u8>) -> Option<(u128, u8)>;

/// Relies on ipnetwork's `Ipv6Network::from_str` (with the standard
/// library's `Ipv6Addr` parsing underneath): it reads an IPv6 address
/// with an optional "/prefix" part, the prefix defaulting to 128 and
/// never exceeding it. The result depends on the text alone.
#[verifier::external_body]
fn parse_v6_network(s: &[u8]) -> (r: Option<(u128, u8)>)
    ensures
        r == v6_network_of(s@),
        r matches Some(vp) ==> vp.1 <= 128,
{
    let text = match core::str::from_utf8(s) {
        Ok(t) => t,
        Err(_) => return None,
    };
    match text.parse::<ipnetwork::Ipv6Network>() {
        Ok(n) => Some((u128::from(n.ip()), n.prefix())),
        Err(_) => None,
    }
}

/// Classify and resolve a target string, as far as that is possible
/// without any network activity.
///
/// A string with a slash must be a CIDR block, which is expanded to every
/// address it contains; a well-formed IP literal becomes a single target
/// (an IPv6 literal is a /128 block); anything else is left to the caller
/// as a hostname to look up.
pub fn resolve_input(input: &[u8]) -> (r: Result<Resolution, ResolveError>)
    ensures
        contains_byte(input@, SLASH) ==> (match spec_parse_cidr_v4(input@) {
            Some(vp) => {
                &&& r matches Ok(Resolution::Addresses(av))
                &&& av@.len() == block_size_v4(vp.1)
                &&& forall|k: int|
                    0 <= k < av@.len() ==> av@[k] == IpAddress::V4(
                        (block_base_v4(vp.0, vp.1) + k) as u32,
                    )
            },
            None => (match v6_network_of(input@) {
                Some(wp) => {
                    &&& r matches Ok(Resolution::Addresses(av))
                    &&& av@.len() == block_size_v6(wp.1 as int)
                    &&& forall|k: int|
                        0 <= k < av@.len() ==> av@[k] == IpAddress::V6(
                            (block_base_v6(wp.0 as int, wp.1 as int) + k) as u128,
                        )
                },
                None => r matches Err(e) && e == ResolveError::InvalidInput,
            }),
        }),
        !contains_byte(input@, SLASH) ==> (match spec_parse_ipv4(input@) {
            Some(v) => {
                &&& r matches Ok(Resolution::Addresses(av))
                &&& av@.len() == 1
                &&& av@[0] == IpAddress::V4(v as u32)
            },
            None => (match v6_network_of(input@) {
                Some(wp) => {
                    &&& r matches Ok(Resolution::Addresses(av))
                    &&& av@.len() == block_size_v6(wp.1 as int)
                    &&& forall|k: int|
                        0 <= k < av@.len() ==> av@[k] == IpAddress::V6(
                            (block_base_v6(wp.0 as int, wp.1 as int) + k) as u128,
                        )
                },
                None => r matches Ok(res) && res is Hostname,
            }),
        }),
{
    if find_byte(input, SLASH) {
        match parse_cidr_v4(input) {
            Some((v, p)) => Ok(Resolution::Addresses(expand_v4(v, p))),
            None => match parse_v6_network(input) {
                Some((v, p)) => Ok(Resolution::Addresses(expand_v6(v, p))),
                None => Err(ResolveError::InvalidInput),
            },
        }
    } else {
        match parse_ipv4(input) {
            Some(v) => {
                let mut one: Vec<IpAddress> = Vec::new();
                one.push(IpAddress::V4(v));
                Ok(Resolution::Addresses(one))
            },
            None => match parse_v6_network(input) {
                Some((v, p)) => Ok(Resolution::Addresses(expand_v6(v, p))),
                None => Ok(Resolution::Hostname),
            },
        }
    }
}

/// Whether a looked-up address may be kept: IPv6 results are dropped
/// unless they were asked for.
pub open spec fn keeps_address(a: IpAddress, allow_ipv6: bool) -> bool {
    allow_ipv6 || a is V4
}

/// Filter the outcome of a hostname lookup, as the resolver's last step:
/// without the IPv6 flag only IPv4 addresses survive, and an empty
/// remainder is the `NoAddressesFound` failure.
pub fn filter_lookup_results(addrs: &Vec<IpAddress>, allow_ipv6: bool) -> (r: Result<
    Vec<IpAddress>,
    ResolveError,
>)
    ensures
        match r {
            Ok(kept) => kept@ == addrs@.filter(|a: IpAddress| keeps_address(a, allow_ipv6))
                && kept@.len() > 0,
            Err(e) => e == ResolveError::NoAddressesFound && addrs@.filter(
                |a: IpAddress| keeps_address(a, allow_ipv6),
            ).len() == 0,
        },
{
    let ghost pred = |a: IpAddress| keeps_address(a, allow_ipv6);
    let mut kept: Vec<IpAddress> = Vec::new();
    let n = addrs.len();
    let mut i: usize = 0;
    proof {
        reveal(Seq::filter);
        assert(addrs@.take(0).filter(pred) =~= Seq::<IpAddress>::empty());
    }
    while i < n
        invariant
            i <= n,
            n == addrs@.len(),
            pred == (|a: IpAddress| keeps_address(a, allow_ipv6)),
            kept@ == addrs@.take(i as int).filter(pred),
        decreases n - i,
    {
        let a = addrs[i];
        proof {
            assert(addrs@.take((i + 1) as int) =~= addrs@.take(i as int).push(a));
            addrs@.take(i as int).lemma_filter_push(a, pred);
        }
        if allow_ipv6 || a.is_v4() {
            kept.push(a);
        }
        i = i + 1;
    }
    proof {
        assert(addrs@.take(n as int) =~= addrs@);
    }
    if kept.len() == 0 {
        Err(ResolveError::NoAddressesFound)
    } else {
        Ok(kept)
    }
}

} // verus!
