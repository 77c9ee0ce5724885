use pistol::route::Interface;
use pistol::route::IpNetwork;
use pistol::route::MacAddr;
use pistol::route::RouteAddr;
use pistol::route::RouteTable;
use pistol::route::SystemNetCache;
use pistol::IpAddr;
use pistol::Ipv4Addr;
use pistol::Ipv6Addr;

fn v4(a: u8, b: u8, c: u8, d: u8) -> IpAddr {
    IpAddr::V4(Ipv4Addr::new(a, b, c, d))
}

fn v6(bits: u128) -> IpAddr {
    IpAddr::V6(Ipv6Addr::new(bits))
}

fn iface(name: &str, index: u32) -> Interface {
    Interface { name: name.to_string(), index }
}

const FE80: u128 = 0xfe80_0000_0000_0000_0000_0000_0000_0000;
const FE80_HOST: u128 = 0xfe80_0000_0000_0000_020c_29ff_feb6_8d99;

#[test]
fn network_containment_follows_the_prefix() {
    let lan = IpNetwork::V4 { network: 0xc0a8_0100, prefix: 24 }; // 192.168.1.0/24
    assert!(lan.contains(&v4(192, 168, 1, 3)));
    assert!(lan.contains(&v4(192, 168, 1, 255)));
    assert!(!lan.contains(&v4(192, 168, 2, 3)));
    let all = IpNetwork::V4 { network: 0, prefix: 0 };
    assert!(all.contains(&v4(8, 8, 8, 8)));
    // families never mix
    assert!(!lan.contains(&v6(FE80_HOST)));
}

#[test]
fn v6_network_containment() {
    // fe80::/64 holds the link-local host, ::/96 does not
    let link_local = IpNetwork::V6 { network: FE80, prefix: 64 };
    assert!(link_local.contains(&v6(FE80_HOST)));
    let mapped = IpNetwork::V6 { network: 0, prefix: 96 };
    assert!(!mapped.contains(&v6(FE80_HOST)));
    // a /128 route is a single address
    let host_route = IpNetwork::V6 { network: FE80, prefix: 128 };
    assert!(!host_route.contains(&v6(FE80_HOST)));
    assert!(host_route.contains(&v6(FE80)));
}

fn sample_cache() -> SystemNetCache {
    let table = RouteTable {
        default_route: None,
        default_route6: None,
        routes: vec![
            (RouteAddr::IpAddr(v4(10, 0, 0, 5)), iface("ens36", 3)),
            (RouteAddr::IpNetwork(IpNetwork::V4 { network: 0x0a00_0000, prefix: 8 }), iface("ens33", 2)),
            (RouteAddr::IpNetwork(IpNetwork::V6 { network: FE80, prefix: 64 }), iface("ens33", 2)),
        ],
    };
    let neighbor = vec![(v4(10, 0, 0, 1), MacAddr(0x48, 0x5f, 0x08, 0xe0, 0x13, 0x94))];
    SystemNetCache::init(table, neighbor)
}

#[test]
fn route_search_prefers_the_first_matching_entry() {
    let cache = sample_cache();
    // the host route stands before the covering network route
    assert_eq!(cache.search_route(v4(10, 0, 0, 5)).unwrap().name, "ens36");
    assert_eq!(cache.search_route(v4(10, 1, 2, 3)).unwrap().name, "ens33");
    assert_eq!(cache.search_route(v6(FE80_HOST)).unwrap().name, "ens33");
    assert!(cache.search_route(v4(192, 168, 1, 1)).is_none());
}

#[test]
fn neighbor_cache_lookup_and_update() {
    let mut cache = sample_cache();
    let known = v4(10, 0, 0, 1);
    let newcomer = v4(10, 0, 0, 7);
    assert_eq!(cache.search_mac(known), Some(MacAddr(0x48, 0x5f, 0x08, 0xe0, 0x13, 0x94)));
    assert_eq!(cache.search_mac(newcomer), None);
    cache.update_neighbor_cache(newcomer, MacAddr(0xa8, 0x9c, 0xed, 0xd5, 0x00, 0x4c));
    assert_eq!(cache.search_mac(newcomer), Some(MacAddr(0xa8, 0x9c, 0xed, 0xd5, 0x00, 0x4c)));
    // updating a known neighbor replaces its entry rather than adding one
    cache.update_neighbor_cache(known, MacAddr(1, 2, 3, 4, 5, 6));
    assert_eq!(cache.search_mac(known), Some(MacAddr(1, 2, 3, 4, 5, 6)));
    assert_eq!(cache.neighbor.len(), 2);
}
