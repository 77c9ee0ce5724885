use pistol::vscan::format_send;
use pistol::vscan::tcp_probe_admissible;
use pistol::vscan::udp_probe_admissible;
use pistol::vscan::Match;
use pistol::vscan::ProbesProtocol;
use pistol::vscan::ServiceProbe;
use pistol::vscan::VsAction;
use pistol::vscan::VsCascade;

fn probe(
    name: &str,
    protocol: ProbesProtocol,
    probestring: &str,
    rarity: Option<u8>,
    ports: Option<Vec<u16>>,
    sslports: Option<Vec<u16>>,
) -> ServiceProbe {
    ServiceProbe {
        name: name.to_string(),
        protocol,
        probestring: probestring.to_string(),
        rarity,
        ports,
        sslports,
    }
}

fn one_match() -> Match {
    Match { service: "http".to_string(), versioninfo: "Test/1.0".to_string() }
}

/// Drives a cascade to completion with a fake driver that counts what it was
/// asked to do; `match_on` decides which requests "find" a match.
fn drive(
    cascade: &mut VsCascade,
    probes: &Vec<ServiceProbe>,
    match_on: impl Fn(&VsAction) -> bool,
) -> (usize, usize, usize) {
    let mut banner_reads = 0;
    let mut tcp_sends = 0;
    let mut udp_sends = 0;
    loop {
        let action = cascade.next_action(probes);
        match action {
            VsAction::ReadBanner => banner_reads += 1,
            VsAction::SendTcp(_) => tcp_sends += 1,
            VsAction::SendUdp(_) => udp_sends += 1,
            VsAction::Finish => break,
        }
        if match_on(&action) {
            cascade.report(vec![one_match()]);
        } else {
            cascade.report(Vec::new());
        }
    }
    (banner_reads, tcp_sends, udp_sends)
}

fn database() -> Vec<ServiceProbe> {
    vec![
        probe("NULL", ProbesProtocol::Tcp, "", None, None, None),
        probe("GetRequest", ProbesProtocol::Tcp, "GET / HTTP/1.0\\r\\n\\r\\n", None, Some(vec![80]), Some(vec![443])),
        probe("GenericLines", ProbesProtocol::Tcp, "\\r\\n\\r\\n", Some(3), None, None),
        probe("DNSStatusRequest", ProbesProtocol::Udp, "probe", None, Some(vec![53]), None),
        probe("SNMPv1public", ProbesProtocol::Udp, "probe", Some(4), Some(vec![161]), None),
    ]
}

#[test]
fn null_stage_match_stops_the_cascade() {
    let probes = database();
    let mut cascade = VsCascade::start(80, false, false, false, 7, true);
    let (banner_reads, tcp_sends, udp_sends) =
        drive(&mut cascade, &probes, |a| matches!(a, VsAction::ReadBanner));
    assert_eq!(banner_reads, 1);
    assert_eq!(tcp_sends, 0);
    assert_eq!(udp_sends, 0);
    assert_eq!(cascade.matches.len(), 1);
}

#[test]
fn failed_connect_attempts_udp_and_never_tcp() {
    let probes = database();
    let mut cascade = VsCascade::start(80, false, false, false, 7, false);
    let (banner_reads, tcp_sends, udp_sends) = drive(&mut cascade, &probes, |_| false);
    assert_eq!(banner_reads, 0);
    assert_eq!(tcp_sends, 0);
    assert_eq!(udp_sends, 2);
    assert_eq!(cascade.matches.len(), 0);
}

#[test]
fn a_silent_peer_walks_all_three_stages() {
    let probes = database();
    let mut cascade = VsCascade::start(80, false, false, false, 7, true);
    let (banner_reads, tcp_sends, udp_sends) = drive(&mut cascade, &probes, |_| false);
    assert_eq!(banner_reads, 1);
    assert_eq!(tcp_sends, 2);
    assert_eq!(udp_sends, 2);
    assert_eq!(cascade.matches.len(), 0);
}

#[test]
fn first_tcp_match_stops_the_stage_and_cascade() {
    let probes = database();
    let mut cascade = VsCascade::start(80, false, false, false, 7, true);
    let (_, tcp_sends, udp_sends) =
        drive(&mut cascade, &probes, |a| matches!(a, VsAction::SendTcp(1)));
    assert_eq!(tcp_sends, 1);
    assert_eq!(udp_sends, 0);
    assert_eq!(cascade.matches.len(), 1);
}

#[test]
fn suppressed_continuation_ends_after_a_silent_banner() {
    let probes = database();
    let mut cascade = VsCascade::start(80, true, false, false, 7, true);
    let (banner_reads, tcp_sends, udp_sends) = drive(&mut cascade, &probes, |_| false);
    assert_eq!(banner_reads, 1);
    assert_eq!(tcp_sends, 0);
    assert_eq!(udp_sends, 0);
}

#[test]
fn restricted_tcp_ports_gate_which_probes_are_sent() {
    let probes = database();
    // port 8080 is on nobody's recommended list: restricted mode sends no TCP probe
    let mut cascade = VsCascade::start(8080, false, true, false, 7, true);
    let (_, tcp_sends, _) = drive(&mut cascade, &probes, |_| false);
    assert_eq!(tcp_sends, 0);
    // port 443 is recommended (via the SSL list) for exactly one probe
    let mut cascade = VsCascade::start(443, false, true, false, 7, true);
    let (_, tcp_sends, _) = drive(&mut cascade, &probes, |_| false);
    assert_eq!(tcp_sends, 1);
}

#[test]
fn intensity_gates_rare_probes() {
    let probes = database();
    // intensity 2 is below GenericLines' rarity 3 and SNMP's rarity 4
    let mut cascade = VsCascade::start(80, false, false, false, 2, true);
    let (_, tcp_sends, udp_sends) = drive(&mut cascade, &probes, |_| false);
    assert_eq!(tcp_sends, 1);
    assert_eq!(udp_sends, 1);
}

#[test]
fn admissibility_gates_match_their_definition() {
    let tcp = probe("GetRequest", ProbesProtocol::Tcp, "x", Some(5), Some(vec![80]), Some(vec![443]));
    let null = probe("NULL", ProbesProtocol::Tcp, "", None, None, None);
    let udp = probe("DNS", ProbesProtocol::Udp, "x", None, Some(vec![53]), None);
    // the NULL entry is never an admissible continuation probe
    assert!(!tcp_probe_admissible(&null, 80, false, 9));
    // protocol must match the stage
    assert!(!tcp_probe_admissible(&udp, 53, false, 9));
    assert!(!udp_probe_admissible(&tcp, 80, false, 9));
    // intensity must reach rarity
    assert!(!tcp_probe_admissible(&tcp, 80, false, 4));
    assert!(tcp_probe_admissible(&tcp, 80, false, 5));
    // restriction consults the port lists; SSL ports count for TCP only
    assert!(tcp_probe_admissible(&tcp, 443, true, 9));
    assert!(!tcp_probe_admissible(&tcp, 8080, true, 9));
    assert!(udp_probe_admissible(&udp, 53, true, 9));
    assert!(!udp_probe_admissible(&udp, 161, true, 9));
}

#[test]
fn escape_sequences_expand_to_control_characters() {
    assert_eq!(format_send("a\\nb"), "a\nb");
    assert_eq!(format_send("\\r\\n"), "\r\n");
    assert_eq!(format_send("col\\tumn"), "col\tumn");
    assert_eq!(format_send("GET / HTTP/1.0\\r\\n\\r\\n"), "GET / HTTP/1.0\r\n\r\n");
}

#[test]
fn unknown_escapes_pass_through_unchanged() {
    assert_eq!(format_send("plain"), "plain");
    assert_eq!(format_send("a\\xb"), "a\\xb");
    assert_eq!(format_send("\\"), "\\");
    assert_eq!(format_send("\\\\n"), "\\\n");
}
