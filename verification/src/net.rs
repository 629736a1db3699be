//! Addresses as plain values: an IP address is the integer its bytes spell in
//! network order, and a probe is an address with a port.
use vstd::prelude::*;

verus! {

/// An address family, and the raw socket that serves it.
#[derive(Clone, Copy, Debug, PartialEq, Eq, Structural, Hash)]
pub enum IpFamily {
    V4,
    V6,
}

/// An IPv4 or IPv6 address, held as the big-endian integer of its bytes.
#[derive(Clone, Copy, Debug, PartialEq, Eq, Structural, Hash)]
pub enum IpAddress {
    V4(u32),
    V6(u128),
}

impl IpAddress {
    /// The address is an IPv4 address.
    pub open spec fn spec_is_ipv4(self) -> bool {
        self is V4
    }

    /// The family of the address.
    pub open spec fn spec_family(self) -> IpFamily {
        match self {
            IpAddress::V4(_) => IpFamily::V4,
            IpAddress::V6(_) => IpFamily::V6,
        }
    }

    /// The family of the address.
    #[verifier::when_used_as_spec(spec_family)]
    pub fn family(self) -> (family: IpFamily)
        ensures
            family == self.spec_family(),
    {
        match self {
            IpAddress::V4(_) => IpFamily::V4,
            IpAddress::V6(_) => IpFamily::V6,
        }
    }

    /// Whether the address is an IPv4 address.
    #[verifier::when_used_as_spec(spec_is_ipv4)]
    pub fn is_ipv4(self) -> (v4: bool)
        ensures
            v4 == self.spec_is_ipv4(),
    {
        match self {
            IpAddress::V4(_) => true,
            IpAddress::V6(_) => false,
        }
    }
}

/// A remote endpoint to probe: an address and a TCP port.
#[derive(Clone, Copy, Debug, PartialEq, Eq, Structural, Hash)]
pub struct Probe {
    pub ip: IpAddress,
    pub port: u16,
}

impl Probe {
    /// The probe of `port` at `ip`.
    pub fn new(ip: IpAddress, port: u16) -> (probe: Self)
        ensures
            probe == (Probe { ip, port }),
    {
        Probe { ip, port }
    }

    /// The probe as a tuple of integers: the family (4 or 6), the address and
    /// the port. Different probes have different keys.
    pub open spec fn spec_key(self) -> (u8, u128, u16) {
        match self.ip {
            IpAddress::V4(a) => (4u8, a as u128, self.port),
            IpAddress::V6(a) => (6u8, a, self.port),
        }
    }

    /// The probe that a key stands for. A key that no probe has stands for
    /// an IPv6 probe.
    pub open spec fn of_key(key: (u8, u128, u16)) -> Probe {
        if key.0 == 4 && key.1 <= u32::MAX {
            Probe { ip: IpAddress::V4(key.1 as u32), port: key.2 }
        } else {
            Probe { ip: IpAddress::V6(key.1), port: key.2 }
        }
    }

    /// The key is that of some probe.
    pub open spec fn valid_key(key: (u8, u128, u16)) -> bool {
        Probe::of_key(key).spec_key() == key
    }

    /// `of_key` undoes `spec_key`.
    pub proof fn lemma_key_round_trip(self)
        ensures
            Probe::of_key(self.spec_key()) == self,
            Probe::valid_key(self.spec_key()),
    {
    }

    /// The probe as a tuple of integers.
    #[verifier::when_used_as_spec(spec_key)]
    pub fn key(self) -> (key: (u8, u128, u16))
        ensures
            key == self.spec_key(),
    {
        match self.ip {
            IpAddress::V4(a) => (4u8, a as u128, self.port),
            IpAddress::V6(a) => (6u8, a, self.port),
        }
    }
}

} // verus!
