use vstd::prelude::*;

use crate::Host;
use crate::Host6;
use crate::IpAddr;
use crate::Ipv4Addr;
use crate::Ipv6Addr;
use crate::PistolErrors;

verus! {

/// Host liveness decided for one probe trial.
#[derive(Debug, Clone, Copy, PartialEq, Eq, Structural)]
pub enum PingStatus {
    Up,
    Down,
    Error,
}

/// How a host is probed.
#[derive(Debug, Clone, Copy, PartialEq, Eq, Structural)]
pub enum PingMethods {
    Syn,
    Ack,
    Udp,
    Icmp,
    Icmpv6,
}

/// The transport layer's verdict on a probed port.
#[derive(Debug, Clone, Copy, PartialEq, Eq, Structural)]
pub enum PortStatus {
    Open,
    Closed,
    Filtered,
    Unfiltered,
    OpenOrFiltered,
}

pub open spec fn spec_classify(method: PingMethods, is_ipv6: bool, verdict: PortStatus) -> PingStatus {
    match method {
        PingMethods::Syn => if verdict is Open {
            PingStatus::Up
        } else {
            PingStatus::Down
        },
        PingMethods::Ack => if verdict is Unfiltered {
            PingStatus::Up
        } else {
            PingStatus::Down
        },
        PingMethods::Udp => if verdict is Open || (is_ipv6 && verdict is OpenOrFiltered) {
            PingStatus::Up
        } else {
            PingStatus::Down
        },
        PingMethods::Icmp => PingStatus::Down,
        PingMethods::Icmpv6 => PingStatus::Down,
    }
}

/// Maps a transport verdict to a host status. Pure and total: unrecognized
/// combinations classify `Down`, never panic. A SYN probe counts a host as up
/// only on `Open` (a completed handshake), an ACK probe only on `Unfiltered`
/// (a reset from any reachable port); a UDP `OpenOrFiltered` verdict counts as
/// up only on the IPv6 path.
pub fn classify(method: PingMethods, is_ipv6: bool, verdict: PortStatus) -> (r: PingStatus)
    ensures
        r == spec_classify(method, is_ipv6, verdict),
{
    match method {
        PingMethods::Syn => match verdict {
            PortStatus::Open => PingStatus::Up,
            _ => PingStatus::Down,
        },
        PingMethods::Ack => match verdict {
            PortStatus::Unfiltered => PingStatus::Up,
            _ => PingStatus::Down,
        },
        PingMethods::Udp => match verdict {
            PortStatus::Open => PingStatus::Up,
            PortStatus::OpenOrFiltered => if is_ipv6 {
                PingStatus::Up
            } else {
                PingStatus::Down
            },
            _ => PingStatus::Down,
        },
        PingMethods::Icmp => PingStatus::Down,
        PingMethods::Icmpv6 => PingStatus::Down,
    }
}

/// What the packet transport handed back for one probe, as plain values.
/// A round-trip time is in nanoseconds and present only when the transport
/// measured one.
#[derive(Debug, Clone, Copy, PartialEq, Eq, Structural)]
pub enum ProbeReply {
    /// Port-state verdict of a SYN, ACK or UDP probe.
    Port(PortStatus, Option<u64>),
    /// Host status of an ICMP or ICMPv6 echo, passed through unchanged.
    Echo(PingStatus, Option<u64>),
    /// The transport itself failed for this probe.
    Fail,
}

pub open spec fn spec_method_mismatch(method: PingMethods, is_ipv6: bool) -> bool {
    (method is Icmp && is_ipv6) || (method is Icmpv6 && !is_ipv6)
}

pub open spec fn spec_classify_reply(method: PingMethods, is_ipv6: bool, reply: ProbeReply) -> (
    PingStatus,
    Option<u64>,
) {
    if spec_method_mismatch(method, is_ipv6) {
        (PingStatus::Error, None)
    } else {
        match reply {
            ProbeReply::Port(verdict, rtt) => (spec_classify(method, is_ipv6, verdict), rtt),
            ProbeReply::Echo(status, rtt) => (status, rtt),
            ProbeReply::Fail => (PingStatus::Error, None),
        }
    }
}

/// Rejects a method/family pairing the transport cannot serve: an ICMP echo
/// against an IPv6 target or an ICMPv6 echo against an IPv4 one. The error
/// is raised per trial and surfaces as an `Error` classification, never as
/// an abort of the whole run.
pub fn check_method(method: PingMethods, is_ipv6: bool) -> (r: Result<(), PistolErrors>)
    ensures
        r is Err <==> spec_method_mismatch(method, is_ipv6),
        r matches Err(e) ==> e is UnsupportedPingMethod,
{
    match method {
        PingMethods::Icmp => if is_ipv6 {
            Err(PistolErrors::UnsupportedPingMethod)
        } else {
            Ok(())
        },
        PingMethods::Icmpv6 => if !is_ipv6 {
            Err(PistolErrors::UnsupportedPingMethod)
        } else {
            Ok(())
        },
        _ => Ok(()),
    }
}

/// Turns one probe's transport reply into the trial's recorded status and
/// latency sample. An unsupported method/family pairing and a transport
/// failure both degrade to `Error` with no sample; they never abort a run.
pub fn classify_reply(method: PingMethods, is_ipv6: bool, reply: &ProbeReply) -> (r: (
    PingStatus,
    Option<u64>,
))
    ensures
        r == spec_classify_reply(method, is_ipv6, *reply),
{
    let mismatch = match method {
        PingMethods::Icmp => is_ipv6,
        PingMethods::Icmpv6 => !is_ipv6,
        _ => false,
    };
    if mismatch {
        (PingStatus::Error, None)
    } else {
        match reply {
            ProbeReply::Port(verdict, rtt) => (classify(method, is_ipv6, *verdict), *rtt),
            ProbeReply::Echo(status, rtt) => (*status, *rtt),
            ProbeReply::Fail => (PingStatus::Error, None),
        }
    }
}

pub const SYN_PING_DEFAULT_PORT: u16 = 80;

pub const ACK_PING_DEFAULT_PORT: u16 = 80;

pub const UDP_PING_DEFAULT_PORT: u16 = 125;

pub open spec fn spec_probe_port(method: PingMethods, dst_port: Option<u16>) -> Option<u16> {
    match method {
        PingMethods::Syn => match dst_port {
            Some(p) => Some(p),
            None => Some(SYN_PING_DEFAULT_PORT),
        },
        PingMethods::Ack => match dst_port {
            Some(p) => Some(p),
            None => Some(ACK_PING_DEFAULT_PORT),
        },
        PingMethods::Udp => match dst_port {
            Some(p) => Some(p),
            None => Some(UDP_PING_DEFAULT_PORT),
        },
        PingMethods::Icmp => None,
        PingMethods::Icmpv6 => None,
    }
}

/// The destination port a probe actually carries: the configured one where
/// there is one, else the method's default (SYN 80, ACK 80, UDP 125); an ICMP
/// echo carries none.
pub fn probe_port(method: PingMethods, dst_port: Option<u16>) -> (r: Option<u16>)
    ensures
        r == spec_probe_port(method, dst_port),
{
    match method {
        PingMethods::Syn => match dst_port {
            Some(p) => Some(p),
            None => Some(SYN_PING_DEFAULT_PORT),
        },
        PingMethods::Ack => match dst_port {
            Some(p) => Some(p),
            None => Some(ACK_PING_DEFAULT_PORT),
        },
        PingMethods::Udp => match dst_port {
            Some(p) => Some(p),
            None => Some(UDP_PING_DEFAULT_PORT),
        },
        PingMethods::Icmp => None,
        PingMethods::Icmpv6 => None,
    }
}

// ---------------------------------------------------------------------------
// Planning a run: one independent unit of work per (host, trial) pair.
// ---------------------------------------------------------------------------

/// One unit of work for the pool: send one probe from `src`/`src_port` to
/// `dst`, classify the reply, and report the outcome on the completion
/// channel. `dst_port` is the host's first configured port, if any; the
/// method's default is applied only when the probe is sent.
#[derive(Debug, Clone, Copy, PartialEq, Eq, Structural)]
pub struct ProbeUnit {
    pub src: IpAddr,
    pub src_port: u16,
    pub dst: IpAddr,
    pub dst_port: Option<u16>,
}

/// The configured probe port of a host: its first port, except that an ICMP
/// echo never carries one.
pub open spec fn spec_host_port(method: PingMethods, ports: Seq<u16>) -> Option<u16> {
    if ports.len() > 0 && !(method is Icmp) && !(method is Icmpv6) {
        Some(ports[0])
    } else {
        None
    }
}

/// The unit a plan holds at position `k`: trial `k % tests` of host
/// `k / tests`.
pub open spec fn spec_unit(
    hosts: Seq<Host>,
    src_addrs: Seq<Option<Ipv4Addr>>,
    method: PingMethods,
    src_port: u16,
    tests: int,
    k: int,
) -> ProbeUnit {
    let i = k / tests;
    ProbeUnit {
        src: IpAddr::V4(src_addrs[i].unwrap()),
        src_port,
        dst: IpAddr::V4(hosts[i].addr),
        dst_port: spec_host_port(method, hosts[i].ports@),
    }
}

/// Lays out a whole IPv4 run up front: one unit per (host, trial) pair, host
/// by host in target order, `tests` consecutive trials each. `src_addrs[i]`
/// is the source address resolved for host `i`; a host with none makes the
/// whole run fail with `CanNotFoundSourceAddress`, and no unit is produced.
pub fn plan_ping(
    hosts: &Vec<Host>,
    method: PingMethods,
    src_addrs: &Vec<Option<Ipv4Addr>>,
    src_port: u16,
    tests: usize,
) -> (r: Result<Vec<ProbeUnit>, PistolErrors>)
    requires
        src_addrs@.len() == hosts@.len(),
    ensures
        match r {
            Ok(units) => {
                &&& (forall|i: int| 0 <= i < hosts@.len() ==> src_addrs@[i] is Some)
                &&& units@.len() == hosts@.len() * tests
                &&& (forall|k: int|
                    0 <= k < units@.len() ==> #[trigger] units@[k] == spec_unit(
                        hosts@,
                        src_addrs@,
                        method,
                        src_port,
                        tests as int,
                        k,
                    ))
            },
            Err(e) => {
                &&& e is CanNotFoundSourceAddress
                &&& exists|i: int| 0 <= i < hosts@.len() && src_addrs@[i] is None
            },
        },
{
    let mut units: Vec<ProbeUnit> = Vec::new();
    let n = hosts.len();
    let mut i: usize = 0;
    while i < n
        invariant
            n == hosts@.len(),
            src_addrs@.len() == hosts@.len(),
            i <= n,
            forall|i2: int| 0 <= i2 < i ==> src_addrs@[i2] is Some,
            units@.len() == i as int * tests as int,
            forall|k: int|
                0 <= k < units@.len() ==> #[trigger] units@[k] == spec_unit(
                    hosts@,
                    src_addrs@,
                    method,
                    src_port,
                    tests as int,
                    k,
                ),
        decreases n - i,
    {
        let src = match src_addrs[i] {
            Some(s) => s,
            None => {
                return Err(PistolErrors::CanNotFoundSourceAddress);
            },
        };
        let dst_port = if hosts[i].ports.len() > 0 && !matches!(method, PingMethods::Icmp)
            && !matches!(method, PingMethods::Icmpv6) {
            Some(hosts[i].ports[0])
        } else {
            None
        };
        let mut j: usize = 0;
        while j < tests
            invariant
                n == hosts@.len(),
                src_addrs@.len() == hosts@.len(),
                i < n,
                j <= tests,
                src_addrs@[i as int] == Some(src),
                dst_port == spec_host_port(method, hosts@[i as int].ports@),
                units@.len() == i as int * tests as int + j as int,
                forall|k: int|
                    0 <= k < units@.len() ==> #[trigger] units@[k] == spec_unit(
                        hosts@,
                        src_addrs@,
                        method,
                        src_port,
                        tests as int,
                        k,
                    ),
            decreases tests - j,
        {
            units.push(
                ProbeUnit { src: IpAddr::V4(src), src_port, dst: IpAddr::V4(hosts[i].addr), dst_port },
            );
            proof {
                let k0 = i as int * tests as int + j as int;
                assert(i as int * tests as int == tests as int * i as int) by (nonlinear_arith);
                vstd::arithmetic::div_mod::lemma_div_multiples_vanish_fancy(
                    i as int,
                    j as int,
                    tests as int,
                );
                assert(k0 / (tests as int) == i as int);
                assert(units@[k0] == spec_unit(
                    hosts@,
                    src_addrs@,
                    method,
                    src_port,
                    tests as int,
                    k0,
                ));
            }
            j = j + 1;
        }
        proof {
            assert((i as int + 1) * tests as int == i as int * tests as int + tests as int)
                by (nonlinear_arith);
        }
        i = i + 1;
    }
    Ok(units)
}

/// The unit an IPv6 plan holds at position `k`.
pub open spec fn spec_unit6(
    hosts6: Seq<Host6>,
    src_addrs: Seq<Option<Ipv6Addr>>,
    method: PingMethods,
    src_port: u16,
    tests: int,
    k: int,
) -> ProbeUnit {
    let i = k / tests;
    ProbeUnit {
        src: IpAddr::V6(src_addrs[i].unwrap()),
        src_port,
        dst: IpAddr::V6(hosts6[i].addr),
        dst_port: spec_host_port(method, hosts6[i].ports@),
    }
}

/// `plan_ping` for an IPv6 host list.
pub fn plan_ping6(
    hosts6: &Vec<Host6>,
    method: PingMethods,
    src_addrs: &Vec<Option<Ipv6Addr>>,
    src_port: u16,
    tests: usize,
) -> (r: Result<Vec<ProbeUnit>, PistolErrors>)
    requires
        src_addrs@.len() == hosts6@.len(),
    ensures
        match r {
            Ok(units) => {
                &&& (forall|i: int| 0 <= i < hosts6@.len() ==> src_addrs@[i] is Some)
                &&& units@.len() == hosts6@.len() * tests
                &&& (forall|k: int|
                    0 <= k < units@.len() ==> #[trigger] units@[k] == spec_unit6(
                        hosts6@,
                        src_addrs@,
                        method,
                        src_port,
                        tests as int,
                        k,
                    ))
            },
            Err(e) => {
                &&& e is CanNotFoundSourceAddress
                &&& exists|i: int| 0 <= i < hosts6@.len() && src_addrs@[i] is None
            },
        },
{
    let mut units: Vec<ProbeUnit> = Vec::new();
    let n = hosts6.len();
    let mut i: usize = 0;
    while i < n
        invariant
            n == hosts6@.len(),
            src_addrs@.len() == hosts6@.len(),
            i <= n,
            forall|i2: int| 0 <= i2 < i ==> src_addrs@[i2] is Some,
            units@.len() == i as int * tests as int,
            forall|k: int|
                0 <= k < units@.len() ==> #[trigger] units@[k] == spec_unit6(
                    hosts6@,
                    src_addrs@,
                    method,
                    src_port,
                    tests as int,
                    k,
                ),
        decreases n - i,
    {
        let src = match src_addrs[i] {
            Some(s) => s,
            None => {
                return Err(PistolErrors::CanNotFoundSourceAddress);
            },
        };
        let dst_port = if hosts6[i].ports.len() > 0 && !matches!(method, PingMethods::Icmp)
            && !matches!(method, PingMethods::Icmpv6) {
            Some(hosts6[i].ports[0])
        } else {
            None
        };
        let mut j: usize = 0;
        while j < tests
            invariant
                n == hosts6@.len(),
                src_addrs@.len() == hosts6@.len(),
                i < n,
                j <= tests,
                src_addrs@[i as int] == Some(src),
                dst_port == spec_host_port(method, hosts6@[i as int].ports@),
                units@.len() == i as int * tests as int + j as int,
                forall|k: int|
                    0 <= k < units@.len() ==> #[trigger] units@[k] == spec_unit6(
                        hosts6@,
                        src_addrs@,
                        method,
                        src_port,
                        tests as int,
                        k,
                    ),
            decreases tests - j,
        {
            units.push(
                ProbeUnit {
                    src: IpAddr::V6(src),
                    src_port,
                    dst: IpAddr::V6(hosts6[i].addr),
                    dst_port,
                },
            );
            proof {
                let k0 = i as int * tests as int + j as int;
                assert(i as int * tests as int == tests as int * i as int) by (nonlinear_arith);
                vstd::arithmetic::div_mod::lemma_div_multiples_vanish_fancy(
                    i as int,
                    j as int,
                    tests as int,
                );
                assert(k0 / (tests as int) == i as int);
                assert(units@[k0] == spec_unit6(
                    hosts6@,
                    src_addrs@,
                    method,
                    src_port,
                    tests as int,
                    k0,
                ));
            }
            j = j + 1;
        }
        proof {
            assert((i as int + 1) * tests as int == i as int * tests as int + tests as int)
                by (nonlinear_arith);
        }
        i = i + 1;
    }
    Ok(units)
}

// ---------------------------------------------------------------------------
// Per-target result tables, kept as association lists in insertion order.
// ---------------------------------------------------------------------------

/// First entry whose key equals `a`, scanning from the front.
pub open spec fn spec_lookup<K, T>(s: Seq<(K, T)>, a: K) -> Option<T>
    decreases s.len(),
{
    if s.len() == 0 {
        None
    } else if s[0].0 == a {
        Some(s[0].1)
    } else {
        spec_lookup(s.drop_first(), a)
    }
}

pub open spec fn distinct_keys<K, T>(s: Seq<(K, T)>) -> bool {
    forall|i: int, j: int| 0 <= i < j < s.len() ==> s[i].0 != s[j].0
}

pub(crate) proof fn lemma_lookup_at<K, T>(s: Seq<(K, T)>, a: K, i: int)
    requires
        0 <= i < s.len(),
        s[i].0 == a,
        forall|k: int| 0 <= k < i ==> s[k].0 != a,
    ensures
        spec_lookup(s, a) == Some(s[i].1),
    decreases i,
{
    if i > 0 {
        lemma_lookup_at(s.drop_first(), a, i - 1);
    }
}

pub(crate) proof fn lemma_lookup_absent<K, T>(s: Seq<(K, T)>, a: K)
    requires
        forall|k: int| 0 <= k < s.len() ==> s[k].0 != a,
    ensures
        spec_lookup(s, a) is None,
    decreases s.len(),
{
    if s.len() > 0 {
        lemma_lookup_absent(s.drop_first(), a);
    }
}

pub(crate) proof fn lemma_lookup_update<K, T>(s: Seq<(K, T)>, a: K, i: int, w: T)
    requires
        0 <= i < s.len(),
        s[i].0 == a,
        forall|k: int| 0 <= k < i ==> s[k].0 != a,
    ensures
        spec_lookup(s.update(i, (a, w)), a) == Some(w),
        forall|b: K| b != a ==> spec_lookup(s.update(i, (a, w)), b) == spec_lookup(s, b),
    decreases i,
{
    let t = s.update(i, (a, w));
    if i == 0 {
        assert(t.len() > 0 && t[0].0 == a && t[0].1 == w);
        assert forall|b: K| b != a implies spec_lookup(t, b) == spec_lookup(s, b) by {
            assert(t.drop_first() =~= s.drop_first());
            assert(spec_lookup(t, b) == spec_lookup(t.drop_first(), b));
            assert(spec_lookup(s, b) == spec_lookup(s.drop_first(), b));
        }
    } else {
        lemma_lookup_update(s.drop_first(), a, i - 1, w);
        assert(t.drop_first() =~= s.drop_first().update(i - 1, (a, w)));
        assert(t[0] == s[0]);
        assert(spec_lookup(t, a) == Some(w));
        assert forall|b: K| b != a implies spec_lookup(t, b) == spec_lookup(s, b) by {
            if s[0].0 != b {
                assert(spec_lookup(t, b) == spec_lookup(t.drop_first(), b));
                assert(spec_lookup(s, b) == spec_lookup(s.drop_first(), b));
            }
        }
    }
}

pub(crate) proof fn lemma_lookup_push<K, T>(s: Seq<(K, T)>, a: K, v: T)
    requires
        forall|k: int| 0 <= k < s.len() ==> s[k].0 != a,
    ensures
        spec_lookup(s.push((a, v)), a) == Some(v),
        forall|b: K| b != a ==> spec_lookup(s.push((a, v)), b) == spec_lookup(s, b),
    decreases s.len(),
{
    let t = s.push((a, v));
    if s.len() == 0 {
        assert(t[0] == (a, v));
        assert(t.drop_first() =~= Seq::<(K, T)>::empty());
        assert(spec_lookup(t, a) == Some(v));
        assert forall|b: K| b != a implies spec_lookup(t, b) == spec_lookup(s, b) by {
            assert(spec_lookup(Seq::<(K, T)>::empty(), b) is None);
        }
    } else {
        lemma_lookup_push(s.drop_first(), a, v);
        assert(t.drop_first() =~= s.drop_first().push((a, v)));
        assert(t[0] == s[0]);
        assert(spec_lookup(t, a) == Some(v));
        assert forall|b: K| b != a implies spec_lookup(t, b) == spec_lookup(s, b) by {
            if s[0].0 != b {
                assert(spec_lookup(t, b) == spec_lookup(t.drop_first(), b));
                assert(spec_lookup(s, b) == spec_lookup(s.drop_first(), b));
            }
        }
    }
}

/// Index of the first entry with key `a`, if any.
fn assoc_index<T>(s: &Vec<(IpAddr, T)>, a: IpAddr) -> (r: Option<usize>)
    ensures
        match r {
            Some(i) => i < s@.len() && s@[i as int].0 == a && (forall|k: int|
                0 <= k < i ==> s@[k].0 != a),
            None => forall|k: int| 0 <= k < s@.len() ==> s@[k].0 != a,
        },
{
    let n = s.len();
    let mut i: usize = 0;
    while i < n
        invariant
            n == s@.len(),
            i <= n,
            forall|k: int| 0 <= k < i ==> s@[k].0 != a,
        decreases n - i,
    {
        if s[i].0 == a {
            return Some(i);
        }
        i = i + 1;
    }
    None
}

proof fn lemma_total_update(s: Seq<(IpAddr, Vec<u64>)>, i: int, a: IpAddr, w: Vec<u64>)
    requires
        0 <= i < s.len(),
    ensures
        total_rtt(s.update(i, (a, w))) == total_rtt(s) - seq_sum(s[i].1@) + seq_sum(w@),
        rtt_count(s.update(i, (a, w))) == rtt_count(s) - s[i].1@.len() + w@.len(),
    decreases s.len(),
{
    let t = s.update(i, (a, w));
    if i == s.len() - 1 {
        assert(t.drop_last() =~= s.drop_last());
        assert(t.last() == (a, w));
    } else {
        lemma_total_update(s.drop_last(), i, a, w);
        assert(t.drop_last() =~= s.drop_last().update(i, (a, w)));
        assert(t.last() == s.last());
        assert(s.drop_last()[i] == s[i]);
    }
}

proof fn lemma_total_push(s: Seq<(IpAddr, Vec<u64>)>, a: IpAddr, w: Vec<u64>)
    ensures
        total_rtt(s.push((a, w))) == total_rtt(s) + seq_sum(w@),
        rtt_count(s.push((a, w))) == rtt_count(s) + w@.len(),
{
    let t = s.push((a, w));
    assert(t.drop_last() =~= s);
    assert(t.last() == (a, w));
}

/// Sum of one target's latency samples, in nanoseconds.
pub open spec fn seq_sum(s: Seq<u64>) -> nat
    decreases s.len(),
{
    if s.len() == 0 {
        0
    } else {
        seq_sum(s.drop_last()) + s.last() as nat
    }
}

/// Sum of all latency samples across all targets.
pub open spec fn total_rtt(s: Seq<(IpAddr, Vec<u64>)>) -> nat
    decreases s.len(),
{
    if s.len() == 0 {
        0
    } else {
        total_rtt(s.drop_last()) + seq_sum(s.last().1@)
    }
}

/// Number of latency samples across all targets.
pub open spec fn rtt_count(s: Seq<(IpAddr, Vec<u64>)>) -> nat
    decreases s.len(),
{
    if s.len() == 0 {
        0
    } else {
        rtt_count(s.drop_last()) + s.last().1@.len()
    }
}

pub open spec fn has_up(s: Seq<PingStatus>) -> bool {
    exists|i: int| 0 <= i < s.len() && s[i] is Up
}

/// Number of entries whose status sequence holds at least one `Up`.
pub open spec fn alive_count(s: Seq<(IpAddr, Vec<PingStatus>)>) -> nat
    decreases s.len(),
{
    if s.len() == 0 {
        0
    } else {
        alive_count(s.drop_last()) + if has_up(s.last().1@) {
            1nat
        } else {
            0nat
        }
    }
}

proof fn lemma_sums_take_step(s: Seq<(IpAddr, Vec<u64>)>, i: int)
    requires
        0 <= i < s.len(),
    ensures
        total_rtt(s.take(i + 1)) == total_rtt(s.take(i)) + seq_sum(s[i].1@),
        rtt_count(s.take(i + 1)) == rtt_count(s.take(i)) + s[i].1@.len(),
{
    assert(s.take(i + 1).drop_last() =~= s.take(i));
    assert(s.take(i + 1).last() == s[i]);
}

proof fn lemma_sums_prefix_le(s: Seq<(IpAddr, Vec<u64>)>, i: int)
    requires
        0 <= i <= s.len(),
    ensures
        total_rtt(s.take(i)) <= total_rtt(s),
        rtt_count(s.take(i)) <= rtt_count(s),
    decreases s.len() - i,
{
    if i == s.len() {
        assert(s.take(i) =~= s);
    } else {
        lemma_sums_take_step(s, i);
        lemma_sums_prefix_le(s, i + 1);
    }
}

proof fn lemma_seq_sum_take_step(v: Seq<u64>, j: int)
    requires
        0 <= j < v.len(),
    ensures
        seq_sum(v.take(j + 1)) == seq_sum(v.take(j)) + v[j],
{
    assert(v.take(j + 1).drop_last() =~= v.take(j));
    assert(v.take(j + 1).last() == v[j]);
}

proof fn lemma_seq_sum_prefix_le(v: Seq<u64>, j: int)
    requires
        0 <= j <= v.len(),
    ensures
        seq_sum(v.take(j)) <= seq_sum(v),
    decreases v.len() - j,
{
    if j == v.len() {
        assert(v.take(j) =~= v);
    } else {
        lemma_seq_sum_take_step(v, j);
        lemma_seq_sum_prefix_le(v, j + 1);
    }
}

proof fn lemma_seq_sum_bound(v: Seq<u64>)
    ensures
        seq_sum(v) <= v.len() * 0xFFFF_FFFF_FFFF_FFFF,
    decreases v.len(),
{
    if v.len() > 0 {
        lemma_seq_sum_bound(v.drop_last());
        assert((v.len() - 1) * 0xFFFF_FFFF_FFFF_FFFF + 0xFFFF_FFFF_FFFF_FFFF == v.len()
            * 0xFFFF_FFFF_FFFF_FFFF) by (nonlinear_arith);
    }
}

proof fn lemma_rtt_count_bound(s: Seq<(IpAddr, Vec<u64>)>)
    ensures
        rtt_count(s) <= s.len() * (usize::MAX as nat),
        total_rtt(s) <= rtt_count(s) * 0xFFFF_FFFF_FFFF_FFFF,
    decreases s.len(),
{
    broadcast use vstd::std_specs::vec::axiom_spec_len;

    if s.len() > 0 {
        lemma_rtt_count_bound(s.drop_last());
        let v = s.last().1;
        assert(v.len() == v@.len());
        assert((s.len() - 1) * (usize::MAX as nat) + (usize::MAX as nat) == s.len() * (
        usize::MAX as nat)) by (nonlinear_arith);
        lemma_seq_sum_bound(v@);
        assert(rtt_count(s.drop_last()) * 0xFFFF_FFFF_FFFF_FFFF + v@.len()
            * 0xFFFF_FFFF_FFFF_FFFF == (rtt_count(s.drop_last()) + v@.len())
            * 0xFFFF_FFFF_FFFF_FFFF) by (nonlinear_arith);
    }
}

proof fn lemma_alive_take_step(s: Seq<(IpAddr, Vec<PingStatus>)>, i: int)
    requires
        0 <= i < s.len(),
    ensures
        alive_count(s.take(i + 1)) == alive_count(s.take(i)) + if has_up(s[i].1@) {
            1nat
        } else {
            0nat
        },
{
    assert(s.take(i + 1).drop_last() =~= s.take(i));
    assert(s.take(i + 1).last() == s[i]);
}

proof fn lemma_alive_le_len(s: Seq<(IpAddr, Vec<PingStatus>)>)
    ensures
        alive_count(s) <= s.len(),
    decreases s.len(),
{
    if s.len() > 0 {
        lemma_alive_le_len(s.drop_last());
    }
}

/// Status sequence of target `a` after one more `st` is recorded.
pub open spec fn pushed_statuses(
    pre: Seq<(IpAddr, Vec<PingStatus>)>,
    a: IpAddr,
    st: PingStatus,
) -> Seq<PingStatus> {
    match spec_lookup(pre, a) {
        Some(v) => v@.push(st),
        None => seq![st],
    }
}

/// Latency sequence of target `a` after one more sample `r` is recorded.
pub open spec fn pushed_rtts(pre: Seq<(IpAddr, Vec<u64>)>, a: IpAddr, r: u64) -> Seq<u64> {
    match spec_lookup(pre, a) {
        Some(v) => v@.push(r),
        None => seq![r],
    }
}

/// The aggregate artifact of one probing run: per-target status and latency
/// sequences in completion order, plus two summary fields that are valid only
/// after `enrichment` has recomputed them from the raw tables.
#[derive(Debug, Clone)]
pub struct PingResults {
    pub pings: Vec<(IpAddr, Vec<PingStatus>)>,
    pub rtts: Vec<(IpAddr, Vec<u64>)>,
    /// Average of all present latency samples, in nanoseconds.
    pub avg_rtt: Option<u64>,
    pub alive_hosts: usize,
}

impl PingResults {
    pub open spec fn wf(self) -> bool {
        distinct_keys(self.pings@) && distinct_keys(self.rtts@)
    }

    pub fn new() -> (r: PingResults)
        ensures
            r.wf(),
            r.pings@.len() == 0,
            r.rtts@.len() == 0,
            r.avg_rtt is None,
            r.alive_hosts == 0,
    {
        PingResults { pings: Vec::new(), rtts: Vec::new(), avg_rtt: None, alive_hosts: 0 }
    }

    pub fn get_ping_status(&self, k: &IpAddr) -> (r: Option<&Vec<PingStatus>>)
        ensures
            match r {
                Some(v) => spec_lookup(self.pings@, *k) == Some(*v),
                None => spec_lookup(self.pings@, *k) is None,
            },
    {
        match assoc_index(&self.pings, *k) {
            Some(i) => {
                proof {
                    lemma_lookup_at(self.pings@, *k, i as int);
                }
                Some(&self.pings[i].1)
            },
            None => {
                proof {
                    lemma_lookup_absent(self.pings@, *k);
                }
                None
            },
        }
    }

    pub fn get_rtts(&self, k: &IpAddr) -> (r: Option<&Vec<u64>>)
        ensures
            match r {
                Some(v) => spec_lookup(self.rtts@, *k) == Some(*v),
                None => spec_lookup(self.rtts@, *k) is None,
            },
    {
        match assoc_index(&self.rtts, *k) {
            Some(i) => {
                proof {
                    lemma_lookup_at(self.rtts@, *k, i as int);
                }
                Some(&self.rtts[i].1)
            },
            None => {
                proof {
                    lemma_lookup_absent(self.rtts@, *k);
                }
                None
            },
        }
    }

    /// Recomputes the two summary fields from the raw tables in one pass:
    /// the average (in nanoseconds, rounded down) of every latency sample
    /// present across all targets — `None` when there is no sample at all —
    /// and the number of targets whose status sequence holds at least one
    /// `Up`. Nothing else is touched.
    pub fn enrichment(&mut self)
        requires
            total_rtt(old(self).rtts@) <= u128::MAX,
        ensures
            final(self).pings == old(self).pings,
            final(self).rtts == old(self).rtts,
            final(self).alive_hosts == alive_count(old(self).pings@),
            final(self).avg_rtt == (if rtt_count(old(self).rtts@) == 0 {
                None::<u64>
            } else {
                Some((total_rtt(old(self).rtts@) / rtt_count(old(self).rtts@)) as u64)
            }),
    {
        let ghost rs = self.rtts@;
        let mut total: u128 = 0;
        let mut num: u128 = 0;
        let n = self.rtts.len();
        let mut i: usize = 0;
        while i < n
            invariant
                *self == *old(self),
                n == rs.len(),
                rs == self.rtts@,
                i <= n,
                total == total_rtt(rs.take(i as int)),
                num == rtt_count(rs.take(i as int)),
                total_rtt(rs) <= u128::MAX,
            decreases n - i,
        {
            let samples = &self.rtts[i].1;
            let ghost inner = samples@;
            let m = samples.len();
            let mut j: usize = 0;
            proof {
                lemma_rtt_count_bound(rs);
                assert(rtt_count(rs) < u128::MAX) by {
                    lemma_rtt_count_bound(rs);
                    assert(rs.len() <= 0xFFFF_FFFF_FFFF_FFFF);
                    assert(rs.len() * 0xFFFF_FFFF_FFFF_FFFF < u128::MAX) by (nonlinear_arith)
                        requires
                            rs.len() <= 0xFFFF_FFFF_FFFF_FFFF,
                    ;
                }
                lemma_sums_take_step(rs, i as int);
                lemma_sums_prefix_le(rs, i as int + 1);
            }
            while j < m
                invariant
                    m == inner.len(),
                    j <= m,
                    samples@ == inner,
                    total == total_rtt(rs.take(i as int)) + seq_sum(inner.take(j as int)),
                    num == rtt_count(rs.take(i as int)) + j,
                    total_rtt(rs.take(i as int)) + seq_sum(inner) <= total_rtt(rs),
                    rtt_count(rs.take(i as int)) + m <= rtt_count(rs),
                    total_rtt(rs) <= u128::MAX,
                    rtt_count(rs) < u128::MAX,
                decreases m - j,
            {
                proof {
                    lemma_seq_sum_take_step(inner, j as int);
                    lemma_seq_sum_prefix_le(inner, j as int + 1);
                }
                total = total + samples[j] as u128;
                num = num + 1;
                j = j + 1;
            }
            proof {
                assert(inner.take(m as int) =~= inner);
            }
            i = i + 1;
        }
        proof {
            assert(rs.take(n as int) =~= rs);
        }
        if num != 0 {
            proof {
                lemma_rtt_count_bound(rs);
                let t = total_rtt(rs) as int;
                let c = rtt_count(rs) as int;
                vstd::arithmetic::div_mod::lemma_div_is_ordered(
                    t,
                    c * 0xFFFF_FFFF_FFFF_FFFF,
                    c,
                );
                vstd::arithmetic::div_mod::lemma_div_multiples_vanish(0xFFFF_FFFF_FFFF_FFFF, c);
            }
            let avg = total / num;
            self.avg_rtt = Some(avg as u64);
        } else {
            self.avg_rtt = None;
        }
        let ghost avg_done = self.avg_rtt;

        let ghost ps = self.pings@;
        let mut alive: usize = 0;
        let n2 = self.pings.len();
        let mut k: usize = 0;
        while k < n2
            invariant
                self.pings == old(self).pings,
                self.rtts == old(self).rtts,
                self.avg_rtt == avg_done,
                ps == self.pings@,
                n2 == ps.len(),
                k <= n2,
                alive == alive_count(ps.take(k as int)),
            decreases n2 - k,
        {
            let statuses = &self.pings[k].1;
            let ghost inner = statuses@;
            let m = statuses.len();
            let mut j: usize = 0;
            let mut up = false;
            while j < m
                invariant
                    m == inner.len(),
                    j <= m,
                    statuses@ == inner,
                    up <==> (exists|q: int| 0 <= q < j && inner[q] is Up),
                decreases m - j,
            {
                match statuses[j] {
                    PingStatus::Up => {
                        up = true;
                        proof {
                            assert(inner[j as int] is Up);
                        }
                    },
                    _ => {},
                }
                j = j + 1;
            }
            proof {
                lemma_alive_take_step(ps, k as int);
                lemma_alive_le_len(ps.take(k as int));
                assert(up == has_up(inner));
            }
            if up {
                alive = alive + 1;
            }
            k = k + 1;
        }
        proof {
            assert(ps.take(n2 as int) =~= ps);
        }
        self.alive_hosts = alive;
    }

    /// Records one trial: appends the status to the target's sequence and,
    /// when a latency was measured, the sample to its latency sequence. The
    /// two summary fields are left alone; `enrichment` recomputes them.
    pub fn insert(&mut self, addr: IpAddr, ping_status: PingStatus, rtt: Option<u64>)
        requires
            old(self).wf(),
        ensures
            final(self).wf(),
            final(self).avg_rtt == old(self).avg_rtt,
            final(self).alive_hosts == old(self).alive_hosts,
            spec_lookup(final(self).pings@, addr) matches Some(v) && v@ == pushed_statuses(
                old(self).pings@,
                addr,
                ping_status,
            ),
            forall|b: IpAddr|
                b != addr ==> spec_lookup(final(self).pings@, b) == spec_lookup(
                    old(self).pings@,
                    b,
                ),
            rtt matches Some(r) ==> spec_lookup(final(self).rtts@, addr) matches Some(v) && v@
                == pushed_rtts(old(self).rtts@, addr, r),
            rtt is Some ==> forall|b: IpAddr|
                b != addr ==> spec_lookup(final(self).rtts@, b) == spec_lookup(old(self).rtts@, b),
            rtt is None ==> final(self).rtts == old(self).rtts,
            total_rtt(final(self).rtts@) == total_rtt(old(self).rtts@) + (match rtt {
                Some(r) => r as nat,
                None => 0,
            }),
            rtt_count(final(self).rtts@) == rtt_count(old(self).rtts@) + (match rtt {
                Some(_) => 1nat,
                None => 0,
            }),
    {
        let ghost pre_pings = self.pings@;
        match assoc_index(&self.pings, addr) {
            Some(i) => {
                proof {
                    lemma_lookup_at(pre_pings, addr, i as int);
                }
                let pair = self.pings.remove(i);
                let mut statuses = pair.1;
                statuses.push(ping_status);
                self.pings.insert(i, (addr, statuses));
                proof {
                    let w = self.pings@[i as int].1;
                    assert(self.pings@ =~= pre_pings.update(i as int, (addr, w)));
                    lemma_lookup_update(pre_pings, addr, i as int, w);
                    assert forall|k: int, j: int|
                        0 <= k < j < self.pings@.len() implies self.pings@[k].0
                        != self.pings@[j].0 by {
                        assert(self.pings@[k].0 == pre_pings[k].0);
                        assert(self.pings@[j].0 == pre_pings[j].0);
                    }
                }
            },
            None => {
                proof {
                    lemma_lookup_absent(pre_pings, addr);
                }
                let mut statuses: Vec<PingStatus> = Vec::new();
                statuses.push(ping_status);
                self.pings.push((addr, statuses));
                proof {
                    lemma_lookup_push(pre_pings, addr, self.pings@.last().1);
                    assert(self.pings@ == pre_pings.push((addr, self.pings@.last().1)));
                }
            },
        }
        let ghost pre_rtts = self.rtts@;
        match rtt {
            Some(r) => {
                match assoc_index(&self.rtts, addr) {
                    Some(i) => {
                        proof {
                            lemma_lookup_at(pre_rtts, addr, i as int);
                        }
                        let pair = self.rtts.remove(i);
                        let mut samples = pair.1;
                        samples.push(r);
                        self.rtts.insert(i, (addr, samples));
                        proof {
                            let w = self.rtts@[i as int].1;
                            assert(self.rtts@ =~= pre_rtts.update(i as int, (addr, w)));
                            lemma_lookup_update(pre_rtts, addr, i as int, w);
                            lemma_total_update(pre_rtts, i as int, addr, w);
                            assert(seq_sum(w@) == seq_sum(pre_rtts[i as int].1@) + r) by {
                                assert(w@.drop_last() =~= pre_rtts[i as int].1@);
                            }
                            assert forall|k: int, j: int|
                                0 <= k < j < self.rtts@.len() implies self.rtts@[k].0
                                != self.rtts@[j].0 by {
                                assert(self.rtts@[k].0 == pre_rtts[k].0);
                                assert(self.rtts@[j].0 == pre_rtts[j].0);
                            }
                        }
                    },
                    None => {
                        let mut samples: Vec<u64> = Vec::new();
                        samples.push(r);
                        self.rtts.push((addr, samples));
                        proof {
                            lemma_lookup_absent(pre_rtts, addr);
                            let w = self.rtts@.last().1;
                            lemma_lookup_push(pre_rtts, addr, w);
                            assert(self.rtts@ == pre_rtts.push((addr, w)));
                            lemma_total_push(pre_rtts, addr, w);
                            assert(seq_sum(w@) == r) by {
                                assert(w@.drop_last() =~= Seq::<u64>::empty());
                                assert(seq_sum(Seq::<u64>::empty()) == 0);
                            }
                        }
                    },
                }
            },
            None => {},
        }
    }
}

// ---------------------------------------------------------------------------
// Draining the completion channel into a finalized aggregate.
// ---------------------------------------------------------------------------

/// One completed trial as the dispatcher's completion channel carries it:
/// which target it probed, what the trial classified, and the measured
/// round-trip time (nanoseconds) when the transport reported one.
#[derive(Debug, Clone, Copy, PartialEq, Eq, Structural)]
pub struct TrialReport {
    pub addr: IpAddr,
    pub status: PingStatus,
    pub rtt: Option<u64>,
}

/// Statuses recorded for target `a`, in the order the reports arrived.
pub open spec fn statuses_of(reports: Seq<TrialReport>, a: IpAddr) -> Seq<PingStatus>
    decreases reports.len(),
{
    if reports.len() == 0 {
        Seq::empty()
    } else {
        let rest = statuses_of(reports.drop_last(), a);
        if reports.last().addr == a {
            rest.push(reports.last().status)
        } else {
            rest
        }
    }
}

/// Latency samples recorded for target `a`, in arrival order; trials without
/// a measured round-trip time contribute nothing.
pub open spec fn rtts_of(reports: Seq<TrialReport>, a: IpAddr) -> Seq<u64>
    decreases reports.len(),
{
    if reports.len() == 0 {
        Seq::empty()
    } else {
        let rest = rtts_of(reports.drop_last(), a);
        if reports.last().addr == a {
            match reports.last().rtt {
                Some(r) => rest.push(r),
                None => rest,
            }
        } else {
            rest
        }
    }
}

/// Sum of all measured round-trip times across a report sequence.
pub open spec fn report_rtt_sum(reports: Seq<TrialReport>) -> nat
    decreases reports.len(),
{
    if reports.len() == 0 {
        0
    } else {
        report_rtt_sum(reports.drop_last()) + match reports.last().rtt {
            Some(r) => r as nat,
            None => 0,
        }
    }
}

/// Number of measured round-trip times across a report sequence.
pub open spec fn report_rtt_count(reports: Seq<TrialReport>) -> nat
    decreases reports.len(),
{
    if reports.len() == 0 {
        0
    } else {
        report_rtt_count(reports.drop_last()) + match reports.last().rtt {
            Some(_) => 1nat,
            None => 0,
        }
    }
}

proof fn lemma_report_rtt_sum_bound(reports: Seq<TrialReport>)
    ensures
        report_rtt_sum(reports) <= reports.len() * 0xFFFF_FFFF_FFFF_FFFF,
    decreases reports.len(),
{
    if reports.len() > 0 {
        lemma_report_rtt_sum_bound(reports.drop_last());
        assert((reports.len() - 1) * 0xFFFF_FFFF_FFFF_FFFF + 0xFFFF_FFFF_FFFF_FFFF
            == reports.len() * 0xFFFF_FFFF_FFFF_FFFF) by (nonlinear_arith);
    }
}

/// Drains a run's completion messages, in arrival order, into a finalized
/// `PingResults`: every report's status is appended to its target's sequence
/// (transport errors arrive already degraded to `Error`), present latency
/// samples are collected, and the summary fields are then recomputed once.
pub fn aggregate_reports(reports: &Vec<TrialReport>) -> (r: PingResults)
    ensures
        r.wf(),
        forall|a: IpAddr|
            #![trigger spec_lookup(r.pings@, a)]
            match spec_lookup(r.pings@, a) {
                Some(v) => statuses_of(reports@, a).len() > 0 && v@ == statuses_of(reports@, a),
                None => statuses_of(reports@, a).len() == 0,
            },
        forall|a: IpAddr|
            #![trigger spec_lookup(r.rtts@, a)]
            match spec_lookup(r.rtts@, a) {
                Some(v) => rtts_of(reports@, a).len() > 0 && v@ == rtts_of(reports@, a),
                None => rtts_of(reports@, a).len() == 0,
            },
        r.alive_hosts == alive_count(r.pings@),
        r.avg_rtt == (if report_rtt_count(reports@) == 0 {
            None::<u64>
        } else {
            Some((report_rtt_sum(reports@) / report_rtt_count(reports@)) as u64)
        }),
{
    let ghost all = reports@;
    let mut results = PingResults::new();
    let n = reports.len();
    let mut i: usize = 0;
    while i < n
        invariant
            n == all.len(),
            all == reports@,
            i <= n,
            results.wf(),
            forall|a: IpAddr|
                #![trigger spec_lookup(results.pings@, a)]
                match spec_lookup(results.pings@, a) {
                    Some(v) => statuses_of(all.take(i as int), a).len() > 0 && v@ == statuses_of(
                        all.take(i as int),
                        a,
                    ),
                    None => statuses_of(all.take(i as int), a).len() == 0,
                },
            forall|a: IpAddr|
                #![trigger spec_lookup(results.rtts@, a)]
                match spec_lookup(results.rtts@, a) {
                    Some(v) => rtts_of(all.take(i as int), a).len() > 0 && v@ == rtts_of(
                        all.take(i as int),
                        a,
                    ),
                    None => rtts_of(all.take(i as int), a).len() == 0,
                },
            total_rtt(results.rtts@) == report_rtt_sum(all.take(i as int)),
            rtt_count(results.rtts@) == report_rtt_count(all.take(i as int)),
        decreases n - i,
    {
        let report = reports[i];
        let ghost pre = all.take(i as int);
        let ghost pre_pings = results.pings@;
        let ghost pre_rtts = results.rtts@;
        results.insert(report.addr, report.status, report.rtt);
        proof {
            let post = all.take(i as int + 1);
            assert(post.drop_last() =~= pre);
            assert(post.last() == report);
            assert forall|a: IpAddr|
                #![trigger spec_lookup(results.pings@, a)]
                match spec_lookup(results.pings@, a) {
                    Some(v) => statuses_of(post, a).len() > 0 && v@ == statuses_of(post, a),
                    None => statuses_of(post, a).len() == 0,
                } by {
                if a == report.addr {
                    assert(statuses_of(post, a) == statuses_of(pre, a).push(report.status));
                } else {
                    assert(statuses_of(post, a) == statuses_of(pre, a));
                }
            }
            assert forall|a: IpAddr|
                #![trigger spec_lookup(results.rtts@, a)]
                match spec_lookup(results.rtts@, a) {
                    Some(v) => rtts_of(post, a).len() > 0 && v@ == rtts_of(post, a),
                    None => rtts_of(post, a).len() == 0,
                } by {
                if a == report.addr {
                    match report.rtt {
                        Some(rv) => {
                            assert(rtts_of(post, a) == rtts_of(pre, a).push(rv));
                        },
                        None => {
                            assert(rtts_of(post, a) == rtts_of(pre, a));
                        },
                    }
                } else {
                    assert(rtts_of(post, a) == rtts_of(pre, a));
                }
            }
        }
        i = i + 1;
    }
    proof {
        assert(all.take(n as int) =~= all);
        lemma_report_rtt_sum_bound(all);
        assert(all.len() * 0xFFFF_FFFF_FFFF_FFFF <= u128::MAX) by (nonlinear_arith)
            requires
                all.len() <= 0xFFFF_FFFF_FFFF_FFFF,
        ;
    }
    results.enrichment();
    results
}

// ---------------------------------------------------------------------------
// Laws of the classifier, dispatcher and aggregator.
// ---------------------------------------------------------------------------

/// Classification is a pure total function of (method, family, verdict):
/// equal inputs always yield the same status, whatever was classified before.
pub proof fn lemma_classify_pure(
    method_a: PingMethods,
    ipv6_a: bool,
    verdict_a: PortStatus,
    method_b: PingMethods,
    ipv6_b: bool,
    verdict_b: PortStatus,
)
    requires
        method_a == method_b,
        ipv6_a == ipv6_b,
        verdict_a == verdict_b,
    ensures
        spec_classify(method_a, ipv6_a, verdict_a) == spec_classify(method_b, ipv6_b, verdict_b),
{
}

/// The stealth-discovery distinction: `Open` counts as alive for a SYN probe
/// but not for an ACK probe, and `Unfiltered` the other way around, on either
/// address family.
pub proof fn lemma_syn_ack_distinction(is_ipv6: bool)
    ensures
        spec_classify(PingMethods::Syn, is_ipv6, PortStatus::Open) is Up,
        spec_classify(PingMethods::Ack, is_ipv6, PortStatus::Open) is Down,
        spec_classify(PingMethods::Ack, is_ipv6, PortStatus::Unfiltered) is Up,
        spec_classify(PingMethods::Syn, is_ipv6, PortStatus::Unfiltered) is Down,
{
}

/// The addresses a report sequence names, one per report.
pub open spec fn report_addrs(reports: Seq<TrialReport>) -> Seq<IpAddr> {
    reports.map_values(|r: TrialReport| r.addr)
}

/// The destinations a plan probes, one per unit.
pub open spec fn unit_dsts(units: Seq<ProbeUnit>) -> Seq<IpAddr> {
    units.map_values(|u: ProbeUnit| u.dst)
}

/// A target's status sequence gets exactly one entry per report that names
/// it: its length is the number of reports for that address — a quantity
/// that depends only on the multiset of reported addresses, never on the
/// order completions arrived in.
pub proof fn lemma_status_len_counts_reports(reports: Seq<TrialReport>, a: IpAddr)
    ensures
        statuses_of(reports, a).len() == report_addrs(reports).to_multiset().count(a),
    decreases reports.len(),
{
    broadcast use vstd::multiset::group_multiset_axioms;
    broadcast use vstd::multiset::group_multiset_properties;

    let m = report_addrs(reports);
    if reports.len() == 0 {
        m.to_multiset_ensures();
        assert(!m.contains(a));
    } else {
        let rest = reports.drop_last();
        lemma_status_len_counts_reports(rest, a);
        assert(report_addrs(rest).push(reports.last().addr) =~= m);
        vstd::seq_lib::to_multiset_build(report_addrs(rest), reports.last().addr);
    }
}

/// A plan probes each distinct target address exactly `tests` times: among
/// the units of a plan over hosts with pairwise distinct addresses, `tests`
/// name each host's address and none names anything else.
pub proof fn lemma_plan_trials_per_target(
    units: Seq<ProbeUnit>,
    hosts: Seq<Host>,
    src_addrs: Seq<Option<Ipv4Addr>>,
    method: PingMethods,
    src_port: u16,
    tests: int,
    a: IpAddr,
)
    requires
        tests > 0,
        units.len() == hosts.len() * tests,
        forall|k: int|
            0 <= k < units.len() ==> #[trigger] units[k] == spec_unit(
                hosts,
                src_addrs,
                method,
                src_port,
                tests,
                k,
            ),
        forall|i: int, j: int| 0 <= i < j < hosts.len() ==> hosts[i].addr != hosts[j].addr,
    ensures
        unit_dsts(units).to_multiset().count(a) == (if exists|i: int|
            0 <= i < hosts.len() && a == IpAddr::V4(hosts[i].addr) {
            tests as nat
        } else {
            0nat
        }),
    decreases hosts.len(),
{
    broadcast use vstd::multiset::group_multiset_axioms;
    broadcast use vstd::multiset::group_multiset_properties;

    let h = hosts.len() as int;
    if h == 0 {
        assert(units.len() == 0) by (nonlinear_arith)
            requires
                units.len() == h * tests,
                h == 0,
        ;
        unit_dsts(units).to_multiset_ensures();
        assert(!unit_dsts(units).contains(a));
    } else {
        let cut = (h - 1) * tests;
        assert(0 <= cut < units.len() || cut == units.len() - tests) by (nonlinear_arith)
            requires
                units.len() == h * tests,
                cut == (h - 1) * tests,
                tests > 0,
                h >= 1,
        ;
        assert(cut + tests == units.len()) by (nonlinear_arith)
            requires
                units.len() == h * tests,
                cut == (h - 1) * tests,
        ;
        let prefix = units.take(cut);
        let block = units.skip(cut);
        assert(units =~= prefix + block);

        // every unit in the final block probes the last host
        assert forall|t: int| 0 <= t < block.len() implies #[trigger] block[t].dst == IpAddr::V4(
            hosts[h - 1].addr,
        ) by {
            let k = cut + t;
            assert(units[k] == spec_unit(hosts, src_addrs, method, src_port, tests, k));
            assert(tests * (h - 1) + t == k) by (nonlinear_arith)
                requires
                    k == cut + t,
                    cut == (h - 1) * tests,
            ;
            vstd::arithmetic::div_mod::lemma_div_multiples_vanish_fancy(h - 1, t, tests);
            assert(k / tests == h - 1);
        }

        // the prefix is itself a plan over the remaining hosts
        let hosts2 = hosts.take(h - 1);
        assert forall|k: int| 0 <= k < prefix.len() implies #[trigger] prefix[k] == spec_unit(
            hosts2,
            src_addrs,
            method,
            src_port,
            tests,
            k,
        ) by {
            assert(units[k] == spec_unit(hosts, src_addrs, method, src_port, tests, k));
            let i = k / tests;
            vstd::arithmetic::div_mod::lemma_fundamental_div_mod(k, tests);
            vstd::arithmetic::div_mod::lemma_mod_bound(k, tests);
            assert(i < h - 1) by (nonlinear_arith)
                requires
                    k == tests * i + (k % tests),
                    0 <= k % tests < tests,
                    k < (h - 1) * tests,
                    tests > 0,
            ;
            assert(0 <= i) by (nonlinear_arith)
                requires
                    k == tests * i + (k % tests),
                    0 <= k % tests < tests,
                    0 <= k,
                    tests > 0,
            ;
            assert(hosts2[i] == hosts[i]);
        }
        assert(prefix.len() == hosts2.len() * tests) by (nonlinear_arith)
            requires
                prefix.len() == (h - 1) * tests,
                hosts2.len() == h - 1,
        ;
        lemma_plan_trials_per_target(prefix, hosts2, src_addrs, method, src_port, tests, a);

        // counts add across the two parts
        assert(unit_dsts(units) =~= unit_dsts(prefix) + unit_dsts(block));
        vstd::seq_lib::lemma_multiset_commutative(unit_dsts(prefix), unit_dsts(block));
        lemma_constant_dsts_count(block, IpAddr::V4(hosts[h - 1].addr), a);

        if exists|i: int| 0 <= i < hosts.len() && a == IpAddr::V4(hosts[i].addr) {
            let i = choose|i: int| 0 <= i < hosts.len() && a == IpAddr::V4(hosts[i].addr);
            if i == h - 1 {
                assert(!(exists|i2: int|
                    0 <= i2 < hosts2.len() && a == IpAddr::V4(hosts2[i2].addr)));
            } else {
                assert(0 <= i < hosts2.len() && a == IpAddr::V4(hosts2[i].addr));
                assert(a != IpAddr::V4(hosts[h - 1].addr));
            }
        }
    }
}

/// In a sequence of units that all probe `d`, the count of `d` is the length
/// and the count of anything else is zero.
proof fn lemma_constant_dsts_count(block: Seq<ProbeUnit>, d: IpAddr, a: IpAddr)
    requires
        forall|t: int| 0 <= t < block.len() ==> #[trigger] block[t].dst == d,
    ensures
        unit_dsts(block).to_multiset().count(a) == (if a == d {
            block.len()
        } else {
            0nat
        }),
    decreases block.len(),
{
    broadcast use vstd::multiset::group_multiset_axioms;
    broadcast use vstd::multiset::group_multiset_properties;

    if block.len() == 0 {
        unit_dsts(block).to_multiset_ensures();
        assert(!unit_dsts(block).contains(a));
    } else {
        let rest = block.drop_last();
        lemma_constant_dsts_count(rest, d, a);
        assert(unit_dsts(rest).push(block.last().dst) =~= unit_dsts(block));
        vstd::seq_lib::to_multiset_build(unit_dsts(rest), block.last().dst);
    }
}

/// `lemma_plan_trials_per_target` for an IPv6 plan.
pub proof fn lemma_plan6_trials_per_target(
    units: Seq<ProbeUnit>,
    hosts6: Seq<Host6>,
    src_addrs: Seq<Option<Ipv6Addr>>,
    method: PingMethods,
    src_port: u16,
    tests: int,
    a: IpAddr,
)
    requires
        tests > 0,
        units.len() == hosts6.len() * tests,
        forall|k: int|
            0 <= k < units.len() ==> #[trigger] units[k] == spec_unit6(
                hosts6,
                src_addrs,
                method,
                src_port,
                tests,
                k,
            ),
        forall|i: int, j: int| 0 <= i < j < hosts6.len() ==> hosts6[i].addr != hosts6[j].addr,
    ensures
        unit_dsts(units).to_multiset().count(a) == (if exists|i: int|
            0 <= i < hosts6.len() && a == IpAddr::V6(hosts6[i].addr) {
            tests as nat
        } else {
            0nat
        }),
    decreases hosts6.len(),
{
    broadcast use vstd::multiset::group_multiset_axioms;
    broadcast use vstd::multiset::group_multiset_properties;

    let h = hosts6.len() as int;
    if h == 0 {
        assert(units.len() == 0) by (nonlinear_arith)
            requires
                units.len() == h * tests,
                h == 0,
        ;
        unit_dsts(units).to_multiset_ensures();
        assert(!unit_dsts(units).contains(a));
    } else {
        let cut = (h - 1) * tests;
        assert(cut + tests == units.len()) by (nonlinear_arith)
            requires
                units.len() == h * tests,
                cut == (h - 1) * tests,
        ;
        let prefix = units.take(cut);
        let block = units.skip(cut);
        assert(units =~= prefix + block);

        assert forall|t: int| 0 <= t < block.len() implies #[trigger] block[t].dst == IpAddr::V6(
            hosts6[h - 1].addr,
        ) by {
            let k = cut + t;
            assert(units[k] == spec_unit6(hosts6, src_addrs, method, src_port, tests, k));
            assert(tests * (h - 1) + t == k) by (nonlinear_arith)
                requires
                    k == cut + t,
                    cut == (h - 1) * tests,
            ;
            vstd::arithmetic::div_mod::lemma_div_multiples_vanish_fancy(h - 1, t, tests);
            assert(k / tests == h - 1);
        }

        let hosts2 = hosts6.take(h - 1);
        assert forall|k: int| 0 <= k < prefix.len() implies #[trigger] prefix[k] == spec_unit6(
            hosts2,
            src_addrs,
            method,
            src_port,
            tests,
            k,
        ) by {
            assert(units[k] == spec_unit6(hosts6, src_addrs, method, src_port, tests, k));
            let i = k / tests;
            vstd::arithmetic::div_mod::lemma_fundamental_div_mod(k, tests);
            vstd::arithmetic::div_mod::lemma_mod_bound(k, tests);
            assert(i < h - 1) by (nonlinear_arith)
                requires
                    k == tests * i + (k % tests),
                    0 <= k % tests < tests,
                    k < (h - 1) * tests,
                    tests > 0,
            ;
            assert(0 <= i) by (nonlinear_arith)
                requires
                    k == tests * i + (k % tests),
                    0 <= k % tests < tests,
                    0 <= k,
                    tests > 0,
            ;
            assert(hosts2[i] == hosts6[i]);
        }
        assert(prefix.len() == hosts2.len() * tests) by (nonlinear_arith)
            requires
                prefix.len() == (h - 1) * tests,
                hosts2.len() == h - 1,
        ;
        lemma_plan6_trials_per_target(prefix, hosts2, src_addrs, method, src_port, tests, a);

        assert(unit_dsts(units) =~= unit_dsts(prefix) + unit_dsts(block));
        vstd::seq_lib::lemma_multiset_commutative(unit_dsts(prefix), unit_dsts(block));
        lemma_constant_dsts_count(block, IpAddr::V6(hosts6[h - 1].addr), a);

        if exists|i: int| 0 <= i < hosts6.len() && a == IpAddr::V6(hosts6[i].addr) {
            let i = choose|i: int| 0 <= i < hosts6.len() && a == IpAddr::V6(hosts6[i].addr);
            if i == h - 1 {
                assert(!(exists|i2: int|
                    0 <= i2 < hosts2.len() && a == IpAddr::V6(hosts2[i2].addr)));
            } else {
                assert(0 <= i < hosts2.len() && a == IpAddr::V6(hosts2[i].addr));
                assert(a != IpAddr::V6(hosts6[h - 1].addr));
            }
        }
    }
}

/// `lemma_run_trial_counts` for a completed IPv6 run.
pub proof fn lemma_run6_trial_counts(
    reports: Seq<TrialReport>,
    units: Seq<ProbeUnit>,
    hosts6: Seq<Host6>,
    src_addrs: Seq<Option<Ipv6Addr>>,
    method: PingMethods,
    src_port: u16,
    tests: int,
    i: int,
)
    requires
        tests > 0,
        units.len() == hosts6.len() * tests,
        forall|k: int|
            0 <= k < units.len() ==> #[trigger] units[k] == spec_unit6(
                hosts6,
                src_addrs,
                method,
                src_port,
                tests,
                k,
            ),
        forall|i2: int, j2: int| 0 <= i2 < j2 < hosts6.len() ==> hosts6[i2].addr != hosts6[j2].addr,
        report_addrs(reports).to_multiset() == unit_dsts(units).to_multiset(),
        0 <= i < hosts6.len(),
    ensures
        statuses_of(reports, IpAddr::V6(hosts6[i].addr)).len() == tests,
{
    let a = IpAddr::V6(hosts6[i].addr);
    lemma_status_len_counts_reports(reports, a);
    lemma_plan6_trials_per_target(units, hosts6, src_addrs, method, src_port, tests, a);
}

/// The set of distinct target addresses whose recorded status sequence holds
/// at least one `Up`.
pub open spec fn up_targets(s: Seq<(IpAddr, Vec<PingStatus>)>) -> Set<IpAddr> {
    Set::new(|a: IpAddr| exists|i: int| 0 <= i < s.len() && s[i].0 == a && has_up(s[i].1@))
}

/// The alive-host summary counts exactly the distinct targets with at least
/// one `Up` trial, independent of how many `Down` or `Error` entries
/// accompany it.
pub proof fn lemma_alive_hosts_are_distinct_up_targets(s: Seq<(IpAddr, Vec<PingStatus>)>)
    requires
        distinct_keys(s),
    ensures
        up_targets(s).finite(),
        up_targets(s).len() == alive_count(s),
    decreases s.len(),
{
    if s.len() == 0 {
        assert(up_targets(s) =~= Set::<IpAddr>::empty());
    } else {
        let t = s.drop_last();
        let last = s.last();
        assert(distinct_keys(t));
        lemma_alive_hosts_are_distinct_up_targets(t);
        if has_up(last.1@) {
            assert forall|a: IpAddr|
                up_targets(s).contains(a) <==> up_targets(t).insert(last.0).contains(a) by {
                if up_targets(s).contains(a) {
                    let i = choose|i: int| 0 <= i < s.len() && s[i].0 == a && has_up(s[i].1@);
                    if i < s.len() - 1 {
                        assert(t[i] == s[i]);
                        assert(up_targets(t).contains(a));
                    } else {
                        assert(a == last.0);
                    }
                }
                if up_targets(t).contains(a) {
                    let i = choose|i: int| 0 <= i < t.len() && t[i].0 == a && has_up(t[i].1@);
                    assert(s[i] == t[i]);
                    assert(up_targets(s).contains(a));
                }
                if a == last.0 {
                    assert(s[s.len() - 1].0 == a && has_up(s[s.len() - 1].1@));
                    assert(up_targets(s).contains(a));
                }
            }
            assert(up_targets(s) =~= up_targets(t).insert(last.0));
            assert(!up_targets(t).contains(last.0)) by {
                if up_targets(t).contains(last.0) {
                    let i = choose|i: int|
                        0 <= i < t.len() && t[i].0 == last.0 && has_up(t[i].1@);
                    assert(s[i].0 == s[s.len() - 1].0);
                }
            }
        } else {
            assert forall|a: IpAddr| up_targets(s).contains(a) <==> up_targets(t).contains(a) by {
                if up_targets(s).contains(a) {
                    let i = choose|i: int| 0 <= i < s.len() && s[i].0 == a && has_up(s[i].1@);
                    assert(i < s.len() - 1);
                    assert(t[i] == s[i]);
                    assert(up_targets(t).contains(a));
                }
                if up_targets(t).contains(a) {
                    let i = choose|i: int| 0 <= i < t.len() && t[i].0 == a && has_up(t[i].1@);
                    assert(s[i] == t[i]);
                    assert(up_targets(s).contains(a));
                }
            }
            assert(up_targets(s) =~= up_targets(t));
        }
    }
}

/// After a completed IPv4 run — one report arrived per planned unit, in
/// whatever order the pool finished them — every target's status sequence
/// has exactly one entry per requested trial, however many of them errored.
pub proof fn lemma_run_trial_counts(
    reports: Seq<TrialReport>,
    units: Seq<ProbeUnit>,
    hosts: Seq<Host>,
    src_addrs: Seq<Option<Ipv4Addr>>,
    method: PingMethods,
    src_port: u16,
    tests: int,
    i: int,
)
    requires
        tests > 0,
        units.len() == hosts.len() * tests,
        forall|k: int|
            0 <= k < units.len() ==> #[trigger] units[k] == spec_unit(
                hosts,
                src_addrs,
                method,
                src_port,
                tests,
                k,
            ),
        forall|i2: int, j2: int| 0 <= i2 < j2 < hosts.len() ==> hosts[i2].addr != hosts[j2].addr,
        report_addrs(reports).to_multiset() == unit_dsts(units).to_multiset(),
        0 <= i < hosts.len(),
    ensures
        statuses_of(reports, IpAddr::V4(hosts[i].addr)).len() == tests,
{
    let a = IpAddr::V4(hosts[i].addr);
    lemma_status_len_counts_reports(reports, a);
    lemma_plan_trials_per_target(units, hosts, src_addrs, method, src_port, tests, a);
}

} // verus!
