use vstd::prelude::*;

use crate::IpAddr;
use crate::ping::distinct_keys;
use crate::ping::lemma_lookup_absent;
use crate::ping::lemma_lookup_at;
use crate::ping::lemma_lookup_push;
use crate::ping::lemma_lookup_update;
use crate::ping::spec_lookup;

verus! {

/// A link-layer (MAC) address, six octets.
#[derive(Debug, Clone, Copy, PartialEq, Eq, Hash, Structural)]
pub struct MacAddr(pub u8, pub u8, pub u8, pub u8, pub u8, pub u8);

/// A network interface as the routing logic reads it: the system name and
/// interface index that discovery resolved. Everything else the operating
/// system knows about the interface stays with the discovery layer.
#[derive(Debug, Clone)]
pub struct Interface {
    pub name: String,
    pub index: u32,
}

/// An address block: a base address and a prefix length (`a.b.c.d/n`).
#[derive(Debug, Clone, Copy, PartialEq, Eq, Hash, Structural)]
pub enum IpNetwork {
    V4 { network: u32, prefix: u8 },
    V6 { network: u128, prefix: u8 },
}

/// Whether `addr` lies in the block `net`: same address family and agreement
/// on the leading `prefix` bits. A zero prefix holds every address of its
/// family; a prefix longer than the address width holds none.
pub open spec fn spec_network_contains(net: IpNetwork, addr: IpAddr) -> bool {
    match (net, addr) {
        (IpNetwork::V4 { network, prefix }, IpAddr::V4(a)) => prefix == 0 || (prefix <= 32 && (
        a.bits ^ network) >> ((32 - prefix) as u32) == 0),
        (IpNetwork::V6 { network, prefix }, IpAddr::V6(a)) => prefix == 0 || (prefix <= 128 && (
        a.bits ^ network) >> ((128 - prefix) as u32) == 0),
        _ => false,
    }
}

impl IpNetwork {
    pub fn contains(&self, addr: &IpAddr) -> (b: bool)
        ensures
            b == spec_network_contains(*self, *addr),
    {
        match (self, addr) {
            (IpNetwork::V4 { network, prefix }, IpAddr::V4(a)) => {
                if *prefix == 0 {
                    true
                } else if *prefix > 32 {
                    false
                } else {
                    (a.bits ^ *network) >> ((32 - *prefix) as u32) == 0
                }
            },
            (IpNetwork::V6 { network, prefix }, IpAddr::V6(a)) => {
                if *prefix == 0 {
                    true
                } else if *prefix > 128 {
                    false
                } else {
                    (a.bits ^ *network) >> ((128 - *prefix) as u32) == 0
                }
            },
            _ => false,
        }
    }
}

/// A route-table destination: a whole block or a single address.
#[derive(Debug, Clone, Copy, PartialEq, Eq, Hash, Structural)]
pub enum RouteAddr {
    IpNetwork(IpNetwork),
    IpAddr(IpAddr),
}

/// A default route: the next-hop gateway and the interface that reaches it.
#[derive(Debug, Clone)]
pub struct DefaultRoute {
    pub via: IpAddr,
    pub dev: Interface,
}

/// The discovered route table: one optional default route per family, plus
/// the non-default routes in discovery order, destinations unique.
#[derive(Debug, Clone)]
pub struct RouteTable {
    pub default_route: Option<DefaultRoute>,
    pub default_route6: Option<DefaultRoute>,
    pub routes: Vec<(RouteAddr, Interface)>,
}

/// Whether a route-table entry covers `a`: a single-address destination by
/// equality, a block destination by containment.
pub open spec fn spec_route_matches(dst: RouteAddr, a: IpAddr) -> bool {
    match dst {
        RouteAddr::IpAddr(d) => d == a,
        RouteAddr::IpNetwork(n) => spec_network_contains(n, a),
    }
}

/// The interface of the first route whose destination covers `a`.
pub open spec fn spec_search_route(routes: Seq<(RouteAddr, Interface)>, a: IpAddr) -> Option<
    Interface,
>
    decreases routes.len(),
{
    if routes.len() == 0 {
        None
    } else if spec_route_matches(routes[0].0, a) {
        Some(routes[0].1)
    } else {
        spec_search_route(routes.drop_first(), a)
    }
}

proof fn lemma_search_route_at(routes: Seq<(RouteAddr, Interface)>, a: IpAddr, i: int)
    requires
        0 <= i < routes.len(),
        spec_route_matches(routes[i].0, a),
        forall|k: int| 0 <= k < i ==> !spec_route_matches(routes[k].0, a),
    ensures
        spec_search_route(routes, a) == Some(routes[i].1),
    decreases i,
{
    if i > 0 {
        lemma_search_route_at(routes.drop_first(), a, i - 1);
    }
}

proof fn lemma_search_route_absent(routes: Seq<(RouteAddr, Interface)>, a: IpAddr)
    requires
        forall|k: int| 0 <= k < routes.len() ==> !spec_route_matches(routes[k].0, a),
    ensures
        spec_search_route(routes, a) is None,
    decreases routes.len(),
{
    if routes.len() > 0 {
        lemma_search_route_absent(routes.drop_first(), a);
    }
}

/// What the library keeps of the system's network state: the route table
/// and the neighbor (address to MAC) cache, both as plain values handed in
/// by the discovery layer.
#[derive(Debug, Clone)]
pub struct SystemNetCache {
    pub default_route: Option<DefaultRoute>,
    pub default_route6: Option<DefaultRoute>,
    pub routes: Vec<(RouteAddr, Interface)>,
    pub neighbor: Vec<(IpAddr, MacAddr)>,
}

impl SystemNetCache {
    pub open spec fn wf(self) -> bool {
        distinct_keys(self.neighbor@)
    }

    /// Builds the cache from a discovered route table and neighbor list.
    pub fn init(route_table: RouteTable, neighbor: Vec<(IpAddr, MacAddr)>) -> (r: SystemNetCache)
        requires
            distinct_keys(neighbor@),
        ensures
            r.wf(),
            r.default_route == route_table.default_route,
            r.default_route6 == route_table.default_route6,
            r.routes == route_table.routes,
            r.neighbor == neighbor,
    {
        SystemNetCache {
            default_route: route_table.default_route,
            default_route6: route_table.default_route6,
            routes: route_table.routes,
            neighbor,
        }
    }

    /// The MAC the neighbor cache holds for `ipaddr`, if any.
    pub fn search_mac(&self, ipaddr: IpAddr) -> (r: Option<MacAddr>)
        ensures
            r == spec_lookup(self.neighbor@, ipaddr),
    {
        let n = self.neighbor.len();
        let mut i: usize = 0;
        while i < n
            invariant
                n == self.neighbor@.len(),
                i <= n,
                forall|k: int| 0 <= k < i ==> self.neighbor@[k].0 != ipaddr,
            decreases n - i,
        {
            if self.neighbor[i].0 == ipaddr {
                proof {
                    lemma_lookup_at(self.neighbor@, ipaddr, i as int);
                }
                return Some(self.neighbor[i].1);
            }
            i = i + 1;
        }
        proof {
            lemma_lookup_absent(self.neighbor@, ipaddr);
        }
        None
    }

    /// Records that `ipaddr` resolves to `mac`: replaces the held MAC or
    /// appends a new entry.
    pub fn update_neighbor_cache(&mut self, ipaddr: IpAddr, mac: MacAddr)
        requires
            old(self).wf(),
        ensures
            final(self).wf(),
            final(self).default_route == old(self).default_route,
            final(self).default_route6 == old(self).default_route6,
            final(self).routes == old(self).routes,
            spec_lookup(final(self).neighbor@, ipaddr) == Some(mac),
            forall|b: IpAddr|
                b != ipaddr ==> spec_lookup(final(self).neighbor@, b) == spec_lookup(
                    old(self).neighbor@,
                    b,
                ),
    {
        let ghost pre = self.neighbor@;
        let n = self.neighbor.len();
        let mut i: usize = 0;
        while i < n
            invariant
                *self == *old(self),
                pre == self.neighbor@,
                distinct_keys(pre),
                n == self.neighbor@.len(),
                i <= n,
                forall|k: int| 0 <= k < i ==> self.neighbor@[k].0 != ipaddr,
            decreases n - i,
        {
            if self.neighbor[i].0 == ipaddr {
                proof {
                    assert(pre[i as int].0 == ipaddr);
                }
                self.neighbor.set(i, (ipaddr, mac));
                proof {
                    assert(self.neighbor@ =~= pre.update(i as int, (ipaddr, mac)));
                    lemma_lookup_update(pre, ipaddr, i as int, mac);
                    assert(distinct_keys(pre));
                    assert forall|k: int, j: int|
                        0 <= k < j < self.neighbor@.len() implies self.neighbor@[k].0
                        != self.neighbor@[j].0 by {
                        assert(pre[k].0 != pre[j].0);
                        assert(self.neighbor@[k].0 == if k == i as int {
                            ipaddr
                        } else {
                            pre[k].0
                        });
                        assert(self.neighbor@[j].0 == if j == i as int {
                            ipaddr
                        } else {
                            pre[j].0
                        });
                    }
                }
                return ;
            }
            i = i + 1;
        }
        proof {
            lemma_lookup_absent(pre, ipaddr);
            lemma_lookup_push(pre, ipaddr, mac);
        }
        self.neighbor.push((ipaddr, mac));
    }

    /// The interface of the first route whose destination covers `ipaddr`:
    /// a single-address destination by equality, a block by containment.
    pub fn search_route(&self, ipaddr: IpAddr) -> (r: Option<&Interface>)
        ensures
            match r {
                Some(v) => spec_search_route(self.routes@, ipaddr) == Some(*v),
                None => spec_search_route(self.routes@, ipaddr) is None,
            },
    {
        let n = self.routes.len();
        let mut i: usize = 0;
        while i < n
            invariant
                n == self.routes@.len(),
                i <= n,
                forall|k: int| 0 <= k < i ==> !spec_route_matches(self.routes@[k].0, ipaddr),
            decreases n - i,
        {
            let hit = match &self.routes[i].0 {
                RouteAddr::IpAddr(d) => *d == ipaddr,
                RouteAddr::IpNetwork(net) => net.contains(&ipaddr),
            };
            if hit {
                proof {
                    lemma_search_route_at(self.routes@, ipaddr, i as int);
                }
                return Some(&self.routes[i].1);
            }
            i = i + 1;
        }
        proof {
            lemma_search_route_absent(self.routes@, ipaddr);
        }
        None
    }
}

} // verus!
