//! CIDR blocks as plain values. The arithmetic of a block (where it starts and
//! where it ends) is the `cidr_utils` crate's.
use vstd::prelude::*;
use vstd::arithmetic::power2::{pow2, lemma_pow2_pos, lemma_pow2_adds, lemma2_to64};
use vstd::arithmetic::div_mod::{
    lemma_div_multiples_vanish, lemma_div_pos_is_pos, lemma_fundamental_div_mod, lemma_mod_bound,
    lemma_multiply_divide_lt,
};
use cidr_utils::cidr::{Ipv4Cidr, Ipv6Cidr};
use crate::net::IpAddress;

verus! {

/// `addr` with its low `host_bits` bits cleared: the first address of the
/// block of `2^host_bits` addresses that holds `addr`.
pub open spec fn network_of(addr: nat, host_bits: nat) -> nat {
    (addr / pow2(host_bits)) * pow2(host_bits)
}

/// The last address of the block of `2^host_bits` addresses that holds `addr`.
pub open spec fn broadcast_of(addr: nat, host_bits: nat) -> nat {
    (network_of(addr, host_bits) + pow2(host_bits) - 1) as nat
}

/// `2^128`.
pub proof fn lemma_pow2_128()
    ensures
        pow2(128) == 0x1_0000_0000_0000_0000_0000_0000_0000_0000,
{
    lemma2_to64();
    lemma_pow2_adds(64, 64);
    assert(0x10000000000000000int * 0x10000000000000000int
        == 0x1_0000_0000_0000_0000_0000_0000_0000_0000int) by (nonlinear_arith);
}

/// A block lies inside the address space and starts at or below each of its
/// addresses.
pub proof fn lemma_block_fits(addr: nat, host_bits: nat, width: nat)
    requires
        host_bits <= width,
        addr < pow2(width),
    ensures
        network_of(addr, host_bits) <= addr,
        network_of(addr, host_bits) + pow2(host_bits) <= pow2(width),
        pow2(host_bits) > 0,
{
    let c = pow2(host_bits) as int;
    let m = pow2((width - host_bits) as nat) as int;
    let q = (addr as int) / c;
    lemma_pow2_pos(host_bits);
    lemma_pow2_adds(host_bits, (width - host_bits) as nat);
    lemma_multiply_divide_lt(addr as int, c, m);
    lemma_fundamental_div_mod(addr as int, c);
    lemma_mod_bound(addr as int, c);
    lemma_div_pos_is_pos(addr as int, c);
    assert(q * c == c * q) by (nonlinear_arith);
    assert((q + 1) * c <= m * c) by (nonlinear_arith)
        requires
            q + 1 <= m,
            c > 0,
    ;
    assert((q + 1) * c == q * c + c) by (nonlinear_arith);
    assert(m * c == c * m) by (nonlinear_arith);
}

/// A block that is already aligned starts at its own address.
pub proof fn lemma_network_idempotent(addr: nat, host_bits: nat)
    ensures
        network_of(network_of(addr, host_bits), host_bits) == network_of(addr, host_bits),
{
    let c = pow2(host_bits) as int;
    let q = (addr as int) / c;
    lemma_pow2_pos(host_bits);
    lemma_div_multiples_vanish(q, c);
    lemma_div_pos_is_pos(addr as int, c);
    assert(q * c == c * q) by (nonlinear_arith);
    assert(q * c >= 0) by (nonlinear_arith)
        requires
            q >= 0,
            c > 0,
    ;
    assert(network_of(addr, host_bits) == q * c);
    assert((q * c) / c == q);
}

/// `Ipv4Cidr::from_prefix_and_bits(addr, bits)`, and then `first()` and
/// `last()`: the first and the last address of the block. The crate refuses
/// more than 32 bits; otherwise the first address keeps the top `bits` bits
/// of `addr` with the rest cleared, and the last has the rest set.
#[verifier::external_body]
fn ipv4_bounds(addr: u32, bits: u8) -> (bounds: Option<(u32, u32)>)
    ensures
        bits > 32 <==> bounds is None,
        bounds matches Some((first, last)) ==> first == network_of(
            addr as nat,
            (32 - bits) as nat,
        ) && last == broadcast_of(addr as nat, (32 - bits) as nat),
{
    match Ipv4Cidr::from_prefix_and_bits(addr, bits) {
        Ok(cidr) => Some((cidr.first(), cidr.last())),
        Err(_) => None,
    }
}

/// `Ipv6Cidr::from_prefix_and_bits(addr, bits)`, and then `first()` and
/// `last()`: as for IPv4, with 128 bits.
#[verifier::external_body]
fn ipv6_bounds(addr: u128, bits: u8) -> (bounds: Option<(u128, u128)>)
    ensures
        bits > 128 <==> bounds is None,
        bounds matches Some((first, last)) ==> first == network_of(
            addr as nat,
            (128 - bits) as nat,
        ) && last == broadcast_of(addr as nat, (128 - bits) as nat),
{
    match Ipv6Cidr::from_prefix_and_bits(addr, bits) {
        Ok(cidr) => Some((cidr.first(), cidr.last())),
        Err(_) => None,
    }
}

/// A CIDR block: the addresses that share the top `bits` bits of `prefix`.
#[derive(Clone, Copy, Debug, PartialEq, Eq, Structural)]
#[allow(inconsistent_fields)]
pub enum CidrBlock {
    V4 { prefix: u32, bits: u8 },
    V6 { prefix: u128, bits: u8 },
}

impl CidrBlock {
    /// How many of an address's bits vary inside the block.
    pub open spec fn host_bits(self) -> nat {
        match self {
            CidrBlock::V4 { bits, .. } => (32 - bits) as nat,
            CidrBlock::V6 { bits, .. } => (128 - bits) as nat,
        }
    }

    /// The first address of the block, as a number.
    pub open spec fn spec_first(self) -> nat {
        match self {
            CidrBlock::V4 { prefix, .. } => prefix as nat,
            CidrBlock::V6 { prefix, .. } => prefix as nat,
        }
    }

    /// The number of addresses in the block, `2^host_bits`.
    pub open spec fn spec_count(self) -> nat {
        pow2(self.host_bits())
    }

    /// The prefix length is within the family's width and the prefix has no
    /// bit set below it.
    pub open spec fn wf(self) -> bool {
        match self {
            CidrBlock::V4 { prefix, bits } => bits <= 32 && prefix == network_of(
                prefix as nat,
                (32 - bits) as nat,
            ),
            CidrBlock::V6 { prefix, bits } => bits <= 128 && prefix == network_of(
                prefix as nat,
                (128 - bits) as nat,
            ),
        }
    }

    /// The `i`-th address of the block.
    pub open spec fn host(self, i: int) -> IpAddress {
        match self {
            CidrBlock::V4 { prefix, .. } => IpAddress::V4((prefix + i) as u32),
            CidrBlock::V6 { prefix, .. } => IpAddress::V6((prefix + i) as u128),
        }
    }

    /// The addresses of the block, from the first to the last.
    pub open spec fn hosts(self) -> Seq<IpAddress> {
        Seq::new(self.spec_count(), |i: int| self.host(i))
    }

    /// A well-formed block does not run past the end of its address space.
    pub proof fn lemma_bounds(self)
        requires
            self.wf(),
        ensures
            self.spec_count() > 0,
            self is V4 ==> self.spec_first() + self.spec_count() <= 0x1_0000_0000,
            self is V6 ==> self.spec_first() + self.spec_count()
                <= 0x1_0000_0000_0000_0000_0000_0000_0000_0000,
    {
        lemma2_to64();
        lemma_pow2_128();
        match self {
            CidrBlock::V4 { prefix, bits } => {
                lemma_block_fits(prefix as nat, (32 - bits) as nat, 32);
            },
            CidrBlock::V6 { prefix, bits } => {
                lemma_block_fits(prefix as nat, (128 - bits) as nat, 128);
            },
        }
    }

    /// The IPv4 block of prefix length `bits` that holds `addr`. There is none
    /// when `bits` is over 32.
    pub fn v4(addr: u32, bits: u8) -> (block: Option<CidrBlock>)
        ensures
            bits > 32 <==> block is None,
            block matches Some(b) ==> b.wf() && b == (CidrBlock::V4 {
                prefix: network_of(addr as nat, (32 - bits) as nat) as u32,
                bits,
            }),
    {
        match ipv4_bounds(addr, bits) {
            Some((prefix, _)) => {
                proof {
                    lemma_network_idempotent(addr as nat, (32 - bits) as nat);
                }
                Some(CidrBlock::V4 { prefix, bits })
            },
            None => None,
        }
    }

    /// The IPv6 block of prefix length `bits` that holds `addr`. There is none
    /// when `bits` is over 128.
    pub fn v6(addr: u128, bits: u8) -> (block: Option<CidrBlock>)
        ensures
            bits > 128 <==> block is None,
            block matches Some(b) ==> b.wf() && b == (CidrBlock::V6 {
                prefix: network_of(addr as nat, (128 - bits) as nat) as u128,
                bits,
            }),
    {
        match ipv6_bounds(addr, bits) {
            Some((prefix, _)) => {
                proof {
                    lemma_network_idempotent(addr as nat, (128 - bits) as nat);
                }
                Some(CidrBlock::V6 { prefix, bits })
            },
            None => None,
        }
    }

    /// The block that holds `addr` and nothing else: a /32 or a /128.
    pub open spec fn spec_single(addr: IpAddress) -> CidrBlock {
        match addr {
            IpAddress::V4(a) => CidrBlock::V4 { prefix: a, bits: 32 },
            IpAddress::V6(a) => CidrBlock::V6 { prefix: a, bits: 128 },
        }
    }

    /// The block that holds `addr` and nothing else: a /32 or a /128.
    #[verifier::when_used_as_spec(spec_single)]
    pub fn single(addr: IpAddress) -> (block: CidrBlock)
        ensures
            block == CidrBlock::spec_single(addr),
            block.wf(),
            block.spec_count() == 1,
            block.hosts() == seq![addr],
    {
        proof {
            lemma2_to64();
        }
        let block = match addr {
            IpAddress::V4(a) => CidrBlock::V4 { prefix: a, bits: 32 },
            IpAddress::V6(a) => CidrBlock::V6 { prefix: a, bits: 128 },
        };
        assert(block.hosts() =~= seq![addr]);
        block
    }

    /// Whether the block is well formed: its prefix length is within the
    /// family's width and its prefix has no bit set below it.
    pub fn is_well_formed(&self) -> (ok: bool)
        ensures
            ok == self.wf(),
    {
        match *self {
            CidrBlock::V4 { prefix, bits } => match ipv4_bounds(prefix, bits) {
                Some((first, _)) => first == prefix,
                None => false,
            },
            CidrBlock::V6 { prefix, bits } => match ipv6_bounds(prefix, bits) {
                Some((first, _)) => first == prefix,
                None => false,
            },
        }
    }

    /// The offset of the block's last address from its first: the number of
    /// addresses in the block, less one.
    pub fn last_offset(&self) -> (span: u128)
        requires
            self.wf(),
        ensures
            span == self.spec_count() - 1,
    {
        proof {
            self.lemma_bounds();
        }
        match *self {
            CidrBlock::V4 { prefix, bits } => {
                match ipv4_bounds(prefix, bits) {
                    Some((_, last)) => (last - prefix) as u128,
                    None => 0,
                }
            },
            CidrBlock::V6 { prefix, bits } => {
                match ipv6_bounds(prefix, bits) {
                    Some((_, last)) => last - prefix,
                    None => 0,
                }
            },
        }
    }

    /// The address at `offset` from the block's first.
    pub fn host_at(&self, offset: u128) -> (addr: IpAddress)
        requires
            self.wf(),
            offset < self.spec_count(),
        ensures
            addr == self.host(offset as int),
            addr == self.hosts()[offset as int],
    {
        proof {
            self.lemma_bounds();
        }
        match *self {
            CidrBlock::V4 { prefix, .. } => IpAddress::V4(prefix + offset as u32),
            CidrBlock::V6 { prefix, .. } => IpAddress::V6(prefix + offset),
        }
    }
}

} // verus!
