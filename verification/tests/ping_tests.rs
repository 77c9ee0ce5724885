use pistol::ping::aggregate_reports;
use pistol::ping::check_method;
use pistol::ping::classify;
use pistol::ping::classify_reply;
use pistol::ping::plan_ping;
use pistol::ping::plan_ping6;
use pistol::ping::probe_port;
use pistol::ping::PingMethods;
use pistol::ping::PingResults;
use pistol::ping::PingStatus;
use pistol::ping::PortStatus;
use pistol::ping::ProbeReply;
use pistol::ping::TrialReport;
use pistol::Host;
use pistol::Host6;
use pistol::IpAddr;
use pistol::Ipv4Addr;
use pistol::Ipv6Addr;
use pistol::PistolErrors;
use pistol::Target;

fn v4(a: u8, b: u8, c: u8, d: u8) -> IpAddr {
    IpAddr::V4(Ipv4Addr::new(a, b, c, d))
}

#[test]
fn classify_follows_the_table() {
    assert_eq!(classify(PingMethods::Syn, false, PortStatus::Open), PingStatus::Up);
    assert_eq!(classify(PingMethods::Syn, false, PortStatus::Closed), PingStatus::Down);
    assert_eq!(classify(PingMethods::Syn, false, PortStatus::Filtered), PingStatus::Down);
    assert_eq!(classify(PingMethods::Ack, false, PortStatus::Unfiltered), PingStatus::Up);
    assert_eq!(classify(PingMethods::Ack, false, PortStatus::Filtered), PingStatus::Down);
    assert_eq!(classify(PingMethods::Udp, false, PortStatus::Open), PingStatus::Up);
    assert_eq!(classify(PingMethods::Udp, false, PortStatus::Closed), PingStatus::Down);
    assert_eq!(classify(PingMethods::Icmp, false, PortStatus::Open), PingStatus::Down);
    assert_eq!(classify(PingMethods::Icmpv6, true, PortStatus::Open), PingStatus::Down);
}

#[test]
fn classify_is_pure() {
    // same (method, family, verdict) input, same status, on repeated calls
    for _ in 0..3 {
        assert_eq!(classify(PingMethods::Ack, true, PortStatus::Unfiltered), PingStatus::Up);
        assert_eq!(classify(PingMethods::Syn, true, PortStatus::OpenOrFiltered), PingStatus::Down);
    }
}

#[test]
fn syn_and_ack_disagree_on_open_and_unfiltered() {
    // Open is not Unfiltered: the stealth-discovery distinction
    assert_eq!(classify(PingMethods::Syn, false, PortStatus::Open), PingStatus::Up);
    assert_eq!(classify(PingMethods::Ack, false, PortStatus::Open), PingStatus::Down);
    assert_eq!(classify(PingMethods::Ack, false, PortStatus::Unfiltered), PingStatus::Up);
    assert_eq!(classify(PingMethods::Syn, false, PortStatus::Unfiltered), PingStatus::Down);
}

#[test]
fn udp_open_or_filtered_counts_only_on_ipv6() {
    // the documented asymmetry: kept for the IPv6 path, not unified into IPv4
    assert_eq!(classify(PingMethods::Udp, false, PortStatus::OpenOrFiltered), PingStatus::Down);
    assert_eq!(classify(PingMethods::Udp, true, PortStatus::OpenOrFiltered), PingStatus::Up);
}

#[test]
fn reply_classification_degrades_failures() {
    let (s, r) = classify_reply(PingMethods::Syn, false, &ProbeReply::Fail);
    assert_eq!(s, PingStatus::Error);
    assert_eq!(r, None);
    // wrong family: reported error, not a panic, surfaced as Error
    let (s, r) = classify_reply(PingMethods::Icmpv6, false, &ProbeReply::Echo(PingStatus::Up, Some(7)));
    assert_eq!(s, PingStatus::Error);
    assert_eq!(r, None);
    // icmp passthrough keeps the transport's status and sample
    let (s, r) = classify_reply(PingMethods::Icmp, false, &ProbeReply::Echo(PingStatus::Up, Some(5)));
    assert_eq!(s, PingStatus::Up);
    assert_eq!(r, Some(5));
    let (s, r) = classify_reply(PingMethods::Ack, false, &ProbeReply::Port(PortStatus::Unfiltered, Some(9)));
    assert_eq!(s, PingStatus::Up);
    assert_eq!(r, Some(9));
}

#[test]
fn unsupported_method_is_a_reported_error() {
    assert_eq!(check_method(PingMethods::Icmp, true), Err(PistolErrors::UnsupportedPingMethod));
    assert_eq!(check_method(PingMethods::Icmpv6, false), Err(PistolErrors::UnsupportedPingMethod));
    assert_eq!(check_method(PingMethods::Icmp, false), Ok(()));
    assert_eq!(check_method(PingMethods::Syn, true), Ok(()));
}

#[test]
fn probe_port_defaults() {
    assert_eq!(probe_port(PingMethods::Syn, None), Some(80));
    assert_eq!(probe_port(PingMethods::Ack, None), Some(80));
    assert_eq!(probe_port(PingMethods::Udp, None), Some(125));
    assert_eq!(probe_port(PingMethods::Syn, Some(22)), Some(22));
    assert_eq!(probe_port(PingMethods::Icmp, Some(22)), None);
    assert_eq!(probe_port(PingMethods::Icmpv6, None), None);
}

#[test]
fn plan_lays_out_one_unit_per_host_and_trial() {
    let h1 = Host::new(Ipv4Addr::new(192, 168, 1, 3), Some(vec![22]));
    let h2 = Host::new(Ipv4Addr::new(192, 168, 1, 4), None);
    let src = Ipv4Addr::new(192, 168, 1, 100);
    let hosts = vec![h1, h2];
    let srcs = vec![Some(src), Some(src)];
    let units = plan_ping(&hosts, PingMethods::Syn, &srcs, 5555, 3).unwrap();
    assert_eq!(units.len(), 6);
    for k in 0..6 {
        assert_eq!(units[k].src, IpAddr::V4(src));
        assert_eq!(units[k].src_port, 5555);
    }
    for k in 0..3 {
        assert_eq!(units[k].dst, v4(192, 168, 1, 3));
        assert_eq!(units[k].dst_port, Some(22));
    }
    for k in 3..6 {
        assert_eq!(units[k].dst, v4(192, 168, 1, 4));
        assert_eq!(units[k].dst_port, None);
    }
}

#[test]
fn plan_ignores_ports_for_icmp() {
    let h = Host::new(Ipv4Addr::new(10, 0, 0, 1), Some(vec![22]));
    let srcs = vec![Some(Ipv4Addr::new(10, 0, 0, 2))];
    let units = plan_ping(&vec![h], PingMethods::Icmp, &srcs, 4444, 2).unwrap();
    assert_eq!(units.len(), 2);
    assert_eq!(units[0].dst_port, None);
}

#[test]
fn plan_fails_without_a_source_address() {
    let h1 = Host::new(Ipv4Addr::new(10, 0, 0, 1), None);
    let h2 = Host::new(Ipv4Addr::new(10, 0, 0, 2), None);
    let srcs = vec![Some(Ipv4Addr::new(10, 0, 0, 9)), None];
    let r = plan_ping(&vec![h1, h2], PingMethods::Icmp, &srcs, 1000, 1);
    assert_eq!(r, Err(PistolErrors::CanNotFoundSourceAddress));
}

#[test]
fn plan6_mirrors_plan() {
    let h = Host6::new(Ipv6Addr::new(0xfe80_0000_0000_0000_0000_0000_0000_0001), Some(vec![22]));
    let srcs = vec![Some(Ipv6Addr::new(0xfe80_0000_0000_0000_0000_0000_0000_0002))];
    let units = plan_ping6(&vec![h], PingMethods::Syn, &srcs, 7777, 2).unwrap();
    assert_eq!(units.len(), 2);
    assert_eq!(units[0].dst_port, Some(22));
    let bad: Vec<Option<Ipv6Addr>> = vec![None];
    let h2 = Host6::new(Ipv6Addr::new(1), None);
    assert_eq!(
        plan_ping6(&vec![h2], PingMethods::Icmpv6, &bad, 7777, 1),
        Err(PistolErrors::CanNotFoundSourceAddress)
    );
}

#[test]
fn status_sequences_keep_one_entry_per_trial() {
    // two targets, three trials each, errors included: lengths still match
    let a = v4(10, 0, 0, 1);
    let b = v4(10, 0, 0, 2);
    let reports = vec![
        TrialReport { addr: b, status: PingStatus::Down, rtt: None },
        TrialReport { addr: a, status: PingStatus::Up, rtt: Some(100) },
        TrialReport { addr: a, status: PingStatus::Error, rtt: None },
        TrialReport { addr: b, status: PingStatus::Up, rtt: Some(200) },
        TrialReport { addr: b, status: PingStatus::Error, rtt: None },
        TrialReport { addr: a, status: PingStatus::Up, rtt: Some(401) },
    ];
    let results = aggregate_reports(&reports);
    assert_eq!(results.get_ping_status(&a).unwrap().len(), 3);
    assert_eq!(results.get_ping_status(&b).unwrap().len(), 3);
    assert_eq!(
        results.get_ping_status(&a).unwrap().as_slice(),
        &[PingStatus::Up, PingStatus::Error, PingStatus::Up]
    );
    assert_eq!(results.get_rtts(&a).unwrap().as_slice(), &[100, 401]);
    assert_eq!(results.get_rtts(&b).unwrap().as_slice(), &[200]);
    assert_eq!(results.get_ping_status(&v4(10, 0, 0, 3)), None);
}

#[test]
fn average_latency_is_the_mean_of_present_samples() {
    let a = v4(10, 0, 0, 1);
    let b = v4(10, 0, 0, 2);
    let reports = vec![
        TrialReport { addr: a, status: PingStatus::Up, rtt: Some(100) },
        TrialReport { addr: b, status: PingStatus::Up, rtt: Some(200) },
        TrialReport { addr: a, status: PingStatus::Down, rtt: None },
        TrialReport { addr: b, status: PingStatus::Up, rtt: Some(401) },
    ];
    let results = aggregate_reports(&reports);
    // (100 + 200 + 401) / 3, in nanoseconds, rounded down
    assert_eq!(results.avg_rtt, Some(233));
}

#[test]
fn average_latency_is_absent_without_samples() {
    let a = v4(10, 0, 0, 1);
    let reports = vec![
        TrialReport { addr: a, status: PingStatus::Down, rtt: None },
        TrialReport { addr: a, status: PingStatus::Error, rtt: None },
    ];
    let results = aggregate_reports(&reports);
    assert_eq!(results.avg_rtt, None);
    assert_eq!(results.alive_hosts, 0);
}

#[test]
fn alive_hosts_counts_distinct_targets_with_an_up() {
    let a = v4(10, 0, 0, 1);
    let b = v4(10, 0, 0, 2);
    let c = v4(10, 0, 0, 3);
    let reports = vec![
        // a: up twice over three trials — counted once
        TrialReport { addr: a, status: PingStatus::Up, rtt: Some(10) },
        TrialReport { addr: a, status: PingStatus::Up, rtt: Some(20) },
        TrialReport { addr: a, status: PingStatus::Down, rtt: None },
        // b: never up
        TrialReport { addr: b, status: PingStatus::Down, rtt: None },
        TrialReport { addr: b, status: PingStatus::Error, rtt: None },
        // c: one up among errors
        TrialReport { addr: c, status: PingStatus::Error, rtt: None },
        TrialReport { addr: c, status: PingStatus::Up, rtt: None },
    ];
    let results = aggregate_reports(&reports);
    assert_eq!(results.alive_hosts, 2);
}

#[test]
fn empty_run_finalizes_empty() {
    let results = aggregate_reports(&Vec::new());
    assert_eq!(results.avg_rtt, None);
    assert_eq!(results.alive_hosts, 0);
    assert_eq!(results.pings.len(), 0);
    assert_eq!(results.rtts.len(), 0);
}

#[test]
fn insert_and_enrichment_work_incrementally() {
    let a = v4(172, 16, 0, 1);
    let mut results = PingResults::new();
    results.insert(a, PingStatus::Up, Some(1_000_000));
    results.insert(a, PingStatus::Down, None);
    results.insert(a, PingStatus::Up, Some(3_000_000));
    results.enrichment();
    assert_eq!(results.get_ping_status(&a).unwrap().len(), 3);
    assert_eq!(results.get_rtts(&a).unwrap().len(), 2);
    assert_eq!(results.avg_rtt, Some(2_000_000));
    assert_eq!(results.alive_hosts, 1);
}

#[test]
fn duplicate_target_addresses_share_one_sequence() {
    // two hosts with the same address: the plan probes it twice per trial
    // count, and the aggregate keeps a single combined sequence for it
    let addr = Ipv4Addr::new(10, 0, 0, 1);
    let hosts = vec![Host::new(addr, Some(vec![22])), Host::new(addr, None)];
    let srcs = vec![Some(Ipv4Addr::new(10, 0, 0, 9)); 2];
    let units = plan_ping(&hosts, PingMethods::Syn, &srcs, 1000, 2).unwrap();
    assert_eq!(units.len(), 4);
    assert!(units.iter().all(|u| u.dst == IpAddr::V4(addr)));
    let reports: Vec<TrialReport> = units
        .iter()
        .map(|u| TrialReport { addr: u.dst, status: PingStatus::Down, rtt: None })
        .collect();
    let results = aggregate_reports(&reports);
    assert_eq!(results.pings.len(), 1);
    assert_eq!(results.get_ping_status(&IpAddr::V4(addr)).unwrap().len(), 4);
}

#[test]
fn targets_carry_their_hosts() {
    let h = Host::new(Ipv4Addr::new(192, 168, 1, 3), Some(vec![22, 80]));
    let t = Target::new(vec![h]);
    assert_eq!(t.hosts.len(), 1);
    assert_eq!(t.hosts6.len(), 0);
    assert_eq!(t.hosts[0].ports, vec![22, 80]);
    let h6 = Host6::new(Ipv6Addr::new(7), None);
    let t6 = Target::new6(vec![h6]);
    assert_eq!(t6.hosts6.len(), 1);
    assert_eq!(t6.hosts6[0].ports.len(), 0);
}
