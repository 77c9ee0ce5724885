use vstd::prelude::*;

use vstd::string::StrSliceExecFns;

verus! {

// ---------------------------------------------------------------------------
// Probe strings: expanding the database's escape sequences.
// ---------------------------------------------------------------------------

/// `s` with every `\c` pair (backslash followed by `pat`) replaced by `rep`,
/// scanning left to right over non-overlapping occurrences — the behaviour
/// of replacing the two-character pattern in one pass.
pub open spec fn spec_replace_pair(s: Seq<char>, pat: char, rep: char) -> Seq<char>
    decreases s.len(),
{
    if s.len() < 2 {
        s
    } else if s[0] == '\\' && s[1] == pat {
        seq![rep] + spec_replace_pair(s.skip(2), pat, rep)
    } else {
        seq![s[0]] + spec_replace_pair(s.skip(1), pat, rep)
    }
}

/// A probe string after escape expansion: `\n`, then `\r`, then `\t`
/// replaced by the control characters they stand for, in that order.
pub open spec fn spec_format_send(s: Seq<char>) -> Seq<char> {
    spec_replace_pair(spec_replace_pair(spec_replace_pair(s, 'n', '\n'), 'r', '\r'), 't', '\t')
}

/// Relies on `String::push`: appends exactly the one given character.
#[verifier::external_body]
fn push_char(s: &mut String, c: char)
    ensures
        final(s)@ == old(s)@.push(c),
{
    s.push(c);
}

fn replace_escape(data: &str, pat: char, rep: char) -> (r: String)
    ensures
        r@ == spec_replace_pair(data@, pat, rep),
{
    let n = data.unicode_len();
    let mut out = String::new();
    let mut i: usize = 0;
    proof {
        assert(data@.skip(0) =~= data@);
        assert(out@ + spec_replace_pair(data@, pat, rep) =~= spec_replace_pair(data@, pat, rep));
    }
    while i < n
        invariant
            n == data@.len(),
            i <= n,
            out@ + spec_replace_pair(data@.skip(i as int), pat, rep) == spec_replace_pair(
                data@,
                pat,
                rep,
            ),
        decreases n - i,
    {
        let ghost pre = out@;
        let ghost s_i = data@.skip(i as int);
        let c = data.get_char(i);
        if c == '\\' && i + 1 < n && data.get_char(i + 1) == pat {
            push_char(&mut out, rep);
            proof {
                assert(s_i[0] == '\\' && s_i[1] == pat);
                assert(s_i.skip(2) =~= data@.skip(i as int + 2));
                assert(out@ =~= pre + seq![rep]);
                assert((pre + seq![rep]) + spec_replace_pair(data@.skip(i as int + 2), pat, rep)
                    =~= pre + (seq![rep] + spec_replace_pair(data@.skip(i as int + 2), pat, rep)));
            }
            i = i + 2;
        } else {
            push_char(&mut out, c);
            proof {
                assert(s_i[0] == c);
                if s_i.len() < 2 {
                    assert(s_i =~= seq![c]);
                    assert(data@.skip(i as int + 1) =~= Seq::<char>::empty());
                    assert(spec_replace_pair(data@.skip(i as int + 1), pat, rep)
                        =~= Seq::<char>::empty());
                    assert(out@ =~= pre + seq![c]);
                    assert((pre + seq![c]) + spec_replace_pair(data@.skip(i as int + 1), pat, rep)
                        =~= pre + s_i);
                } else {
                    assert(s_i.skip(1) =~= data@.skip(i as int + 1));
                    assert(spec_replace_pair(s_i, pat, rep) == seq![c] + spec_replace_pair(
                        s_i.skip(1),
                        pat,
                        rep,
                    ));
                    assert(out@ =~= pre + seq![c]);
                    assert((pre + seq![c]) + spec_replace_pair(data@.skip(i as int + 1), pat, rep)
                        =~= pre + (seq![c] + spec_replace_pair(
                        data@.skip(i as int + 1),
                        pat,
                        rep,
                    )));
                }
            }
            i = i + 1;
        }
    }
    proof {
        assert(data@.skip(n as int) =~= Seq::<char>::empty());
        assert(out@ + Seq::<char>::empty() =~= out@);
    }
    out
}

/// Expands the escape sequences a literal probe string is written with —
/// `\n`, `\r` and `\t`, replaced in that order — into the real control
/// characters to put on the wire.
pub fn format_send(data: &str) -> (r: String)
    ensures
        r@ == spec_format_send(data@),
{
    let a = replace_escape(data, 'n', '\n');
    let b = replace_escape(a.as_str(), 'r', '\r');
    let c = replace_escape(b.as_str(), 't', '\t');
    c
}

// ---------------------------------------------------------------------------
// The probe database as the cascade reads it.
// ---------------------------------------------------------------------------

/// Protocol of a database probe entry.
#[derive(Debug, Clone, Copy, PartialEq, Eq, Structural)]
pub enum ProbesProtocol {
    Tcp,
    Udp,
}

/// One entry of the external service-probe database, as plain values: its
/// name (the listen-only entry is named exactly "NULL"), protocol, literal
/// probe string with escapes unexpanded, optional rarity tier, and optional
/// recommended-port lists. Checking a response against the entry's patterns
/// stays with the database itself.
#[derive(Debug, Clone)]
pub struct ServiceProbe {
    pub name: String,
    pub protocol: ProbesProtocol,
    pub probestring: String,
    pub rarity: Option<u8>,
    pub ports: Option<Vec<u16>>,
    pub sslports: Option<Vec<u16>>,
}

/// A service identity the database's pattern matcher detected in a response,
/// with its version metadata.
#[derive(Debug, Clone)]
pub struct Match {
    pub service: String,
    pub versioninfo: String,
}

pub open spec fn spec_rarity(sp: ServiceProbe) -> nat {
    match sp.rarity {
        Some(r) => r as nat,
        None => 0,
    }
}

pub open spec fn spec_is_null(sp: ServiceProbe) -> bool {
    sp.name@ == "NULL"@
}

/// Whether `port` appears in the entry's recommended ports — the plain list,
/// or also the SSL list when `with_ssl` (TCP continuation considers both,
/// UDP only the former).
pub open spec fn spec_recommended(sp: ServiceProbe, port: u16, with_ssl: bool) -> bool {
    (match sp.ports {
        Some(p) => p@.contains(port),
        None => false,
    }) || (with_ssl && match sp.sslports {
        Some(p) => p@.contains(port),
        None => false,
    })
}

/// A TCP continuation probe is attempted iff it is a non-NULL TCP entry, the
/// caller's intensity reaches its rarity, and — in restricted mode — the
/// destination port is among its recommended or recommended-SSL ports.
pub open spec fn spec_tcp_admissible(
    sp: ServiceProbe,
    port: u16,
    only_recommended: bool,
    intensity: usize,
) -> bool {
    &&& !spec_is_null(sp)
    &&& sp.protocol is Tcp
    &&& intensity as nat >= spec_rarity(sp)
    &&& (!only_recommended || spec_recommended(sp, port, true))
}

/// A UDP probe is attempted iff it is a non-NULL UDP entry, the caller's
/// intensity reaches its rarity, and — in restricted mode — the destination
/// port is among its recommended ports (the SSL list does not apply).
pub open spec fn spec_udp_admissible(
    sp: ServiceProbe,
    port: u16,
    only_recommended: bool,
    intensity: usize,
) -> bool {
    &&& !spec_is_null(sp)
    &&& sp.protocol is Udp
    &&& intensity as nat >= spec_rarity(sp)
    &&& (!only_recommended || spec_recommended(sp, port, false))
}

fn ports_contain(v: &Vec<u16>, p: u16) -> (b: bool)
    ensures
        b == v@.contains(p),
{
    let n = v.len();
    let mut i: usize = 0;
    while i < n
        invariant
            n == v@.len(),
            i <= n,
            forall|k: int| 0 <= k < i ==> v@[k] != p,
        decreases n - i,
    {
        if v[i] == p {
            return true;
        }
        i = i + 1;
    }
    false
}

fn is_null_name(sp: &ServiceProbe) -> (b: bool)
    ensures
        b == spec_is_null(*sp),
{
    let null_name: String = "NULL".to_owned();
    sp.name == null_name
}

fn recommended_ports_hold(sp: &ServiceProbe, port: u16, with_ssl: bool) -> (b: bool)
    ensures
        b == spec_recommended(*sp, port, with_ssl),
{
    let in_plain = match &sp.ports {
        Some(p) => ports_contain(p, port),
        None => false,
    };
    if in_plain {
        return true;
    }
    if with_ssl {
        match &sp.sslports {
            Some(p) => ports_contain(p, port),
            None => false,
        }
    } else {
        false
    }
}

/// Decides the TCP-continuation gate for one entry.
pub fn tcp_probe_admissible(
    sp: &ServiceProbe,
    dst_port: u16,
    only_tcp_recommended: bool,
    intensity: usize,
) -> (b: bool)
    ensures
        b == spec_tcp_admissible(*sp, dst_port, only_tcp_recommended, intensity),
{
    let rarity = match sp.rarity {
        Some(r) => r as usize,
        None => 0,
    };
    !is_null_name(sp) && matches!(sp.protocol, ProbesProtocol::Tcp) && intensity >= rarity && (
    !only_tcp_recommended || recommended_ports_hold(sp, dst_port, true))
}

/// Decides the UDP gate for one entry.
pub fn udp_probe_admissible(
    sp: &ServiceProbe,
    dst_port: u16,
    only_udp_recommended: bool,
    intensity: usize,
) -> (b: bool)
    ensures
        b == spec_udp_admissible(*sp, dst_port, only_udp_recommended, intensity),
{
    let rarity = match sp.rarity {
        Some(r) => r as usize,
        None => 0,
    };
    !is_null_name(sp) && matches!(sp.protocol, ProbesProtocol::Udp) && intensity >= rarity && (
    !only_udp_recommended || recommended_ports_hold(sp, dst_port, false))
}

// ---------------------------------------------------------------------------
// The cascade itself, as an explicit state machine. A driver owns the
// sockets and the database's pattern matcher; the machine owns every
// decision: which stage runs, which entry is probed next, when to stop.
// ---------------------------------------------------------------------------

/// Index of the first TCP-admissible entry at or after `from`, in database
/// order.
pub open spec fn first_tcp_admissible(
    probes: Seq<ServiceProbe>,
    from: int,
    port: u16,
    only_recommended: bool,
    intensity: usize,
) -> Option<int>
    decreases probes.len() - from,
{
    if from < 0 || from >= probes.len() {
        None
    } else if spec_tcp_admissible(probes[from], port, only_recommended, intensity) {
        Some(from)
    } else {
        first_tcp_admissible(probes, from + 1, port, only_recommended, intensity)
    }
}

/// Index of the first UDP-admissible entry at or after `from`.
pub open spec fn first_udp_admissible(
    probes: Seq<ServiceProbe>,
    from: int,
    port: u16,
    only_recommended: bool,
    intensity: usize,
) -> Option<int>
    decreases probes.len() - from,
{
    if from < 0 || from >= probes.len() {
        None
    } else if spec_udp_admissible(probes[from], port, only_recommended, intensity) {
        Some(from)
    } else {
        first_udp_admissible(probes, from + 1, port, only_recommended, intensity)
    }
}

proof fn lemma_first_tcp_admissible_props(
    probes: Seq<ServiceProbe>,
    from: int,
    port: u16,
    only_recommended: bool,
    intensity: usize,
)
    requires
        0 <= from,
    ensures
        match first_tcp_admissible(probes, from, port, only_recommended, intensity) {
            Some(j) => from <= j < probes.len() && spec_tcp_admissible(
                probes[j],
                port,
                only_recommended,
                intensity,
            ) && (forall|k: int|
                from <= k < j ==> !spec_tcp_admissible(probes[k], port, only_recommended, intensity)),
            None => forall|k: int|
                from <= k < probes.len() ==> !spec_tcp_admissible(
                    probes[k],
                    port,
                    only_recommended,
                    intensity,
                ),
        },
    decreases probes.len() - from,
{
    if from < probes.len() && !spec_tcp_admissible(probes[from], port, only_recommended, intensity) {
        lemma_first_tcp_admissible_props(probes, from + 1, port, only_recommended, intensity);
    }
}

proof fn lemma_first_udp_admissible_props(
    probes: Seq<ServiceProbe>,
    from: int,
    port: u16,
    only_recommended: bool,
    intensity: usize,
)
    requires
        0 <= from,
    ensures
        match first_udp_admissible(probes, from, port, only_recommended, intensity) {
            Some(j) => from <= j < probes.len() && spec_udp_admissible(
                probes[j],
                port,
                only_recommended,
                intensity,
            ) && (forall|k: int|
                from <= k < j ==> !spec_udp_admissible(probes[k], port, only_recommended, intensity)),
            None => forall|k: int|
                from <= k < probes.len() ==> !spec_udp_admissible(
                    probes[k],
                    port,
                    only_recommended,
                    intensity,
                ),
        },
    decreases probes.len() - from,
{
    if from < probes.len() && !spec_udp_admissible(probes[from], port, only_recommended, intensity) {
        lemma_first_udp_admissible_props(probes, from + 1, port, only_recommended, intensity);
    }
}

/// Where the cascade stands.
#[derive(Debug, Clone, Copy, PartialEq, Eq, Structural)]
pub enum VsPhase {
    /// Listening for an unsolicited banner, to be checked against every
    /// entry named "NULL".
    NullStage,
    /// Trying TCP continuation entries; the index is the first candidate not
    /// yet considered.
    TcpStage(usize),
    /// Trying UDP entries; the index is the first candidate not yet
    /// considered.
    UdpStage(usize),
    /// The cascade is over; `matches` holds its result.
    Finished,
}

/// What the driver is asked to do next.
#[derive(Debug, Clone, Copy, PartialEq, Eq, Structural)]
pub enum VsAction {
    /// Read whatever the peer volunteers (with the extended five-second read
    /// timeout), check the text against every "NULL" entry, and report the
    /// combined matches.
    ReadBanner,
    /// Expand entry `i`'s probe string with `format_send`, write it, read
    /// the response under the caller's timeout, check it against entry `i`,
    /// and report.
    SendTcp(usize),
    /// Send entry `i`'s raw probe string over the UDP socket, receive under
    /// the caller's timeout, check against entry `i`, and report.
    SendUdp(usize),
    /// Nothing more to do.
    Finish,
}

/// The service-probing cascade for one already-chosen (address, port). The
/// driver connects, then alternates `next_action` and `report` until it is
/// told to finish; `matches` then holds the winning stage's matches, or
/// nothing.
#[derive(Debug, Clone)]
pub struct VsCascade {
    pub dst_port: u16,
    pub only_null_probe: bool,
    pub only_tcp_recommended: bool,
    pub only_udp_recommended: bool,
    pub intensity: usize,
    pub phase: VsPhase,
    pub matches: Vec<Match>,
}

/// The configuration half of the state, which no step may change.
pub open spec fn same_config(a: VsCascade, b: VsCascade) -> bool {
    &&& a.dst_port == b.dst_port
    &&& a.only_null_probe == b.only_null_probe
    &&& a.only_tcp_recommended == b.only_tcp_recommended
    &&& a.only_udp_recommended == b.only_udp_recommended
    &&& a.intensity == b.intensity
}

/// What `next_action` decides: the state it leaves behind and the action it
/// requests.
pub open spec fn spec_next_action(c: VsCascade, probes: Seq<ServiceProbe>) -> (
    VsCascade,
    VsAction,
) {
    match c.phase {
        VsPhase::NullStage => (c, VsAction::ReadBanner),
        VsPhase::Finished => (c, VsAction::Finish),
        VsPhase::TcpStage(i) => match first_tcp_admissible(
            probes,
            i as int,
            c.dst_port,
            c.only_tcp_recommended,
            c.intensity,
        ) {
            Some(j) => (
                VsCascade { phase: VsPhase::TcpStage(j as usize), ..c },
                VsAction::SendTcp(j as usize),
            ),
            None => match first_udp_admissible(
                probes,
                0,
                c.dst_port,
                c.only_udp_recommended,
                c.intensity,
            ) {
                Some(j) => (
                    VsCascade { phase: VsPhase::UdpStage(j as usize), ..c },
                    VsAction::SendUdp(j as usize),
                ),
                None => (VsCascade { phase: VsPhase::Finished, ..c }, VsAction::Finish),
            },
        },
        VsPhase::UdpStage(i) => match first_udp_admissible(
            probes,
            i as int,
            c.dst_port,
            c.only_udp_recommended,
            c.intensity,
        ) {
            Some(j) => (
                VsCascade { phase: VsPhase::UdpStage(j as usize), ..c },
                VsAction::SendUdp(j as usize),
            ),
            None => (VsCascade { phase: VsPhase::Finished, ..c }, VsAction::Finish),
        },
    }
}

/// What `report` decides from the matches an action produced: any match ends
/// the cascade with exactly those matches; nothing found moves past the
/// probe (or, after the banner, into the continuation stage unless it is
/// suppressed).
pub open spec fn spec_report(c: VsCascade, found: Vec<Match>) -> VsCascade {
    if found@.len() > 0 {
        VsCascade { phase: VsPhase::Finished, matches: found, ..c }
    } else {
        match c.phase {
            VsPhase::NullStage => if c.only_null_probe {
                VsCascade { phase: VsPhase::Finished, ..c }
            } else {
                VsCascade { phase: VsPhase::TcpStage(0), ..c }
            },
            VsPhase::TcpStage(i) => VsCascade { phase: VsPhase::TcpStage((i + 1) as usize), ..c },
            VsPhase::UdpStage(i) => VsCascade { phase: VsPhase::UdpStage((i + 1) as usize), ..c },
            VsPhase::Finished => c,
        }
    }
}

fn scan_tcp(
    probes: &Vec<ServiceProbe>,
    from: usize,
    port: u16,
    only_recommended: bool,
    intensity: usize,
) -> (r: Option<usize>)
    ensures
        match first_tcp_admissible(probes@, from as int, port, only_recommended, intensity) {
            Some(j) => r == Some(j as usize),
            None => r is None,
        },
{
    let n = probes.len();
    let mut j = from;
    while j < n
        invariant
            n == probes@.len(),
            from <= j,
            first_tcp_admissible(probes@, from as int, port, only_recommended, intensity)
                == first_tcp_admissible(probes@, j as int, port, only_recommended, intensity),
        decreases n - j,
    {
        if tcp_probe_admissible(&probes[j], port, only_recommended, intensity) {
            return Some(j);
        }
        j = j + 1;
    }
    None
}

fn scan_udp(
    probes: &Vec<ServiceProbe>,
    from: usize,
    port: u16,
    only_recommended: bool,
    intensity: usize,
) -> (r: Option<usize>)
    ensures
        match first_udp_admissible(probes@, from as int, port, only_recommended, intensity) {
            Some(j) => r == Some(j as usize),
            None => r is None,
        },
{
    let n = probes.len();
    let mut j = from;
    while j < n
        invariant
            n == probes@.len(),
            from <= j,
            first_udp_admissible(probes@, from as int, port, only_recommended, intensity)
                == first_udp_admissible(probes@, j as int, port, only_recommended, intensity),
        decreases n - j,
    {
        if udp_probe_admissible(&probes[j], port, only_recommended, intensity) {
            return Some(j);
        }
        j = j + 1;
    }
    None
}

impl VsCascade {
    /// Begins a cascade. The driver first attempts the TCP connect under the
    /// caller's timeout and says whether it succeeded: a successful connect
    /// enters the listen-only NULL stage, while a failed connect — the
    /// expected outcome for a port with no TCP listener, not an error —
    /// skips straight to the UDP fallback, so neither the banner read nor
    /// any TCP continuation probe is ever attempted.
    pub fn start(
        dst_port: u16,
        only_null_probe: bool,
        only_tcp_recommended: bool,
        only_udp_recommended: bool,
        intensity: usize,
        connect_ok: bool,
    ) -> (c: VsCascade)
        ensures
            c.dst_port == dst_port,
            c.only_null_probe == only_null_probe,
            c.only_tcp_recommended == only_tcp_recommended,
            c.only_udp_recommended == only_udp_recommended,
            c.intensity == intensity,
            c.matches@.len() == 0,
            c.phase == (if connect_ok {
                VsPhase::NullStage
            } else {
                VsPhase::UdpStage(0)
            }),
    {
        VsCascade {
            dst_port,
            only_null_probe,
            only_tcp_recommended,
            only_udp_recommended,
            intensity,
            phase: if connect_ok {
                VsPhase::NullStage
            } else {
                VsPhase::UdpStage(0)
            },
            matches: Vec::new(),
        }
    }

    /// Asks what to do next. Skipping entries the gates refuse is the
    /// machine's business: the action either names the next admissible
    /// entry, or moves the cascade along (TCP exhausted falls back to UDP,
    /// UDP exhausted finishes).
    pub fn next_action(&mut self, probes: &Vec<ServiceProbe>) -> (a: VsAction)
        ensures
            *final(self) == spec_next_action(*old(self), probes@).0,
            a == spec_next_action(*old(self), probes@).1,
    {
        let phase = self.phase;
        match phase {
            VsPhase::NullStage => VsAction::ReadBanner,
            VsPhase::Finished => VsAction::Finish,
            VsPhase::TcpStage(i) => {
                match scan_tcp(probes, i, self.dst_port, self.only_tcp_recommended, self.intensity) {
                    Some(j) => {
                        self.phase = VsPhase::TcpStage(j);
                        VsAction::SendTcp(j)
                    },
                    None => {
                        match scan_udp(
                            probes,
                            0,
                            self.dst_port,
                            self.only_udp_recommended,
                            self.intensity,
                        ) {
                            Some(j) => {
                                self.phase = VsPhase::UdpStage(j);
                                VsAction::SendUdp(j)
                            },
                            None => {
                                self.phase = VsPhase::Finished;
                                VsAction::Finish
                            },
                        }
                    },
                }
            },
            VsPhase::UdpStage(i) => {
                match scan_udp(probes, i, self.dst_port, self.only_udp_recommended, self.intensity) {
                    Some(j) => {
                        self.phase = VsPhase::UdpStage(j);
                        VsAction::SendUdp(j)
                    },
                    None => {
                        self.phase = VsPhase::Finished;
                        VsAction::Finish
                    },
                }
            },
        }
    }

    /// Reports what the requested action's response checks produced. Any
    /// match ends the cascade at once with exactly those matches; an empty
    /// result moves on — past the probe just tried, or from a silent banner
    /// into the continuation stage (unless continuation is suppressed, which
    /// ends the cascade empty).
    pub fn report(&mut self, found: Vec<Match>)
        requires
            !(old(self).phase is Finished),
            old(self).phase matches VsPhase::TcpStage(i) ==> i < usize::MAX,
            old(self).phase matches VsPhase::UdpStage(i) ==> i < usize::MAX,
        ensures
            *final(self) == spec_report(*old(self), found),
    {
        if found.len() > 0 {
            self.matches = found;
            self.phase = VsPhase::Finished;
        } else {
            let phase = self.phase;
            match phase {
                VsPhase::NullStage => {
                    if self.only_null_probe {
                        self.phase = VsPhase::Finished;
                    } else {
                        self.phase = VsPhase::TcpStage(0);
                    }
                },
                VsPhase::TcpStage(i) => {
                    self.phase = VsPhase::TcpStage(i + 1);
                },
                VsPhase::UdpStage(i) => {
                    self.phase = VsPhase::UdpStage(i + 1);
                },
                VsPhase::Finished => {},
            }
        }
    }
}

// ---------------------------------------------------------------------------
// Laws of the cascade.
// ---------------------------------------------------------------------------

/// The cascade stops at its first success: as soon as any stage's checks
/// produce a match, the state is finished with exactly those matches, and
/// every later step answers `Finish` without requesting another banner read
/// or probe. In particular a NULL-stage match suppresses all TCP
/// continuation and UDP probes.
pub proof fn lemma_first_match_stops_cascade(
    c: VsCascade,
    found: Vec<Match>,
    probes: Seq<ServiceProbe>,
)
    requires
        found@.len() > 0,
    ensures
        spec_report(c, found).phase is Finished,
        spec_report(c, found).matches == found,
        spec_next_action(spec_report(c, found), probes).0 == spec_report(c, found),
        spec_next_action(spec_report(c, found), probes).1 is Finish,
{
}

/// After a failed TCP connect the cascade stands at the UDP stage, and the
/// UDP and finished states are closed under both kinds of step: no banner
/// read and no TCP probe is ever requested from them. Together with
/// `VsCascade::start`, a connect failure means UDP probes may still be
/// attempted but TCP continuation never is.
pub proof fn lemma_connect_failure_skips_tcp(
    c: VsCascade,
    probes: Seq<ServiceProbe>,
    found: Vec<Match>,
)
    requires
        c.phase matches VsPhase::UdpStage(_) || c.phase is Finished,
    ensures
        !(spec_next_action(c, probes).1 is ReadBanner),
        !(spec_next_action(c, probes).1 is SendTcp),
        spec_next_action(c, probes).0.phase matches VsPhase::UdpStage(_) || spec_next_action(
            c,
            probes,
        ).0.phase is Finished,
        spec_report(c, found).phase matches VsPhase::UdpStage(_) || spec_report(
            c,
            found,
        ).phase is Finished,
{
}

/// Port-recommendation gating: whenever a step requests `SendTcp(j)` while
/// TCP recommendation is restricted, entry `j` passed the whole gate — so
/// the destination port stands in its recommended or recommended-SSL list.
/// A probe whose lists exclude the port is never sent.
pub proof fn lemma_recommended_port_gating(c: VsCascade, probes: Seq<ServiceProbe>, j: int)
    requires
        c.only_tcp_recommended,
        probes.len() <= usize::MAX,
        0 <= j < probes.len(),
        spec_next_action(c, probes).1 == VsAction::SendTcp(j as usize),
    ensures
        spec_tcp_admissible(probes[j], c.dst_port, true, c.intensity),
        spec_recommended(probes[j], c.dst_port, true),
{
    match c.phase {
        VsPhase::TcpStage(i) => {
            lemma_first_tcp_admissible_props(
                probes,
                i as int,
                c.dst_port,
                c.only_tcp_recommended,
                c.intensity,
            );
        },
        _ => {},
    }
}

/// Every probe a step requests passed its stage's gate: a `SendTcp(j)` names
/// a TCP-admissible entry and a `SendUdp(j)` a UDP-admissible one, each the
/// first such entry not yet considered.
pub proof fn lemma_actions_respect_gates(c: VsCascade, probes: Seq<ServiceProbe>, j: int)
    requires
        probes.len() <= usize::MAX,
        0 <= j < probes.len(),
    ensures
        spec_next_action(c, probes).1 == VsAction::SendTcp(j as usize) ==> spec_tcp_admissible(
            probes[j],
            c.dst_port,
            c.only_tcp_recommended,
            c.intensity,
        ),
        spec_next_action(c, probes).1 == VsAction::SendUdp(j as usize) ==> spec_udp_admissible(
            probes[j],
            c.dst_port,
            c.only_udp_recommended,
            c.intensity,
        ),
{
    match c.phase {
        VsPhase::TcpStage(i) => {
            lemma_first_tcp_admissible_props(
                probes,
                i as int,
                c.dst_port,
                c.only_tcp_recommended,
                c.intensity,
            );
            lemma_first_udp_admissible_props(
                probes,
                0,
                c.dst_port,
                c.only_udp_recommended,
                c.intensity,
            );
        },
        VsPhase::UdpStage(i) => {
            lemma_first_udp_admissible_props(
                probes,
                i as int,
                c.dst_port,
                c.only_udp_recommended,
                c.intensity,
            );
        },
        _ => {},
    }
}

} // verus!
