use vstd::prelude::*;

pub mod hop;
pub mod ping;
pub mod route;
pub mod vscan;

verus! {

/// An IPv4 address, held as its 32-bit big-endian value.
#[derive(Debug, Clone, Copy, PartialEq, Eq, PartialOrd, Ord, Hash, Structural)]
pub struct Ipv4Addr {
    pub bits: u32,
}

impl Ipv4Addr {
    /// Builds the address `a.b.c.d`.
    pub fn new(a: u8, b: u8, c: u8, d: u8) -> (r: Ipv4Addr)
        ensures
            r.bits == a as u32 * 0x1000000 + b as u32 * 0x10000 + c as u32 * 0x100 + d as u32,
    {
        Ipv4Addr { bits: a as u32 * 0x1000000 + b as u32 * 0x10000 + c as u32 * 0x100 + d as u32 }
    }
}

/// An IPv6 address, held as its 128-bit big-endian value.
#[derive(Debug, Clone, Copy, PartialEq, Eq, PartialOrd, Ord, Hash, Structural)]
pub struct Ipv6Addr {
    pub bits: u128,
}

impl Ipv6Addr {
    pub fn new(bits: u128) -> (r: Ipv6Addr)
        ensures
            r.bits == bits,
    {
        Ipv6Addr { bits }
    }
}

/// An address of either family.
#[derive(Debug, Clone, Copy, PartialEq, Eq, PartialOrd, Ord, Hash, Structural)]
pub enum IpAddr {
    V4(Ipv4Addr),
    V6(Ipv6Addr),
}

/// Errors that are fatal to a whole call, as opposed to single-trial
/// failures, which are degraded to an `Error` classification instead.
#[derive(Debug, Clone, Copy, PartialEq, Eq, Structural)]
pub enum PistolErrors {
    /// No source address could be resolved for a destination.
    CanNotFoundSourceAddress,
    /// The probing method does not fit the target's address family.
    UnsupportedPingMethod,
}

/// An IPv4 target: an address and its candidate ports. The ports list may be
/// empty for methods that need none; the first entry is the probe port for
/// the others.
#[derive(Debug, Clone)]
pub struct Host {
    pub addr: Ipv4Addr,
    pub ports: Vec<u16>,
}

impl Host {
    pub fn new(addr: Ipv4Addr, ports: Option<Vec<u16>>) -> (r: Host)
        ensures
            r.addr == addr,
            r.ports@ == (match ports {
                Some(p) => p@,
                None => Seq::<u16>::empty(),
            }),
    {
        let ports = match ports {
            Some(p) => p,
            None => Vec::new(),
        };
        Host { addr, ports }
    }
}

/// An IPv6 target: an address and its candidate ports.
#[derive(Debug, Clone)]
pub struct Host6 {
    pub addr: Ipv6Addr,
    pub ports: Vec<u16>,
}

impl Host6 {
    pub fn new(addr: Ipv6Addr, ports: Option<Vec<u16>>) -> (r: Host6)
        ensures
            r.addr == addr,
            r.ports@ == (match ports {
                Some(p) => p@,
                None => Seq::<u16>::empty(),
            }),
    {
        let ports = match ports {
            Some(p) => p,
            None => Vec::new(),
        };
        Host6 { addr, ports }
    }
}

/// What one probing run is aimed at: an ordered collection of IPv4 and IPv6
/// hosts, immutable once constructed.
#[derive(Debug, Clone)]
pub struct Target {
    pub hosts: Vec<Host>,
    pub hosts6: Vec<Host6>,
}

impl Target {
    pub fn new(hosts: Vec<Host>) -> (r: Target)
        ensures
            r.hosts == hosts,
            r.hosts6@.len() == 0,
    {
        Target { hosts, hosts6: Vec::new() }
    }

    pub fn new6(hosts6: Vec<Host6>) -> (r: Target)
        ensures
            r.hosts6 == hosts6,
            r.hosts@.len() == 0,
    {
        Target { hosts: Vec::new(), hosts6 }
    }
}

} // verus!
