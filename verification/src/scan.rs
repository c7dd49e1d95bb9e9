use vstd::prelude::*;

use crate::addr::IpAddress;
use crate::service::{spec_lookup, ServiceInfo, ServiceTable};

verus! {

#[derive(Clone, Copy, Debug, PartialEq, Eq, Structural)]
pub enum Protocol {
    TCP,
    UDP,
}

impl Protocol {
    /// Sort rank: TCP before UDP.
    pub open spec fn rank(self) -> int {
        match self {
            Protocol::TCP => 0,
            Protocol::UDP => 1,
        }
    }
}

#[derive(Clone, Copy, Debug, PartialEq, Eq, Structural)]
pub enum PortState {
    Open,
    Closed,
    Filtered,
}

/// One probe to perform: an (address, port, protocol) triple. Jobs are
/// pure values and carry no state.
#[derive(Clone, Copy, Debug, PartialEq, Eq, Structural)]
pub struct ScanJob {
    pub ip: IpAddress,
    pub port: u16,
    pub protocol: Protocol,
}

/// The record one finished probe leaves behind. Created exactly once per
/// job and immutable afterwards. The latency is measured only up to an
/// Open outcome; for any other state it is zero and means nothing.
#[derive(Clone, Debug)]
pub struct ScanResult {
    pub ip: IpAddress,
    pub port: u16,
    pub protocol: Protocol,
    pub state: PortState,
    pub service: Option<String>,
    pub banner: Option<String>,
    pub latency: u64,
}

/// What one TCP connection attempt came back with. The attempt itself —
/// connect, timeout, optional bounded banner read — happens outside the
/// library; only its outcome enters.
pub enum TcpProbe {
    /// The connect succeeded within the timeout. `banner` holds whatever
    /// a bounded read captured, if banner grabbing was on and any bytes
    /// arrived before the read timeout.
    Connected { elapsed_ms: u64, banner: Option<String> },
    /// The connect failed, or the timeout elapsed first.
    Failed,
}

/// What one UDP probe came back with.
pub enum UdpProbe {
    /// A response datagram arrived within the timeout.
    Replied { elapsed_ms: u64 },
    /// The probe datagram went out, but nothing came back in time. This
    /// is ambiguous — open-but-silent or blocked — and is never reported
    /// as Open or Closed.
    NoReply,
    /// The local send itself failed (no socket, no route).
    SendFailed,
}

/// What a probe outcome is, with the protocols joined; pairs with
/// `ScanJob` when whole scans are completed.
pub enum ProbeOutcome {
    Tcp(TcpProbe),
    Udp(UdpProbe),
}

/// The port state a TCP outcome is classified as: a successful connect
/// is Open, anything else is Closed.
pub open spec fn tcp_state_of(p: TcpProbe) -> PortState {
    match p {
        TcpProbe::Connected { .. } => PortState::Open,
        TcpProbe::Failed => PortState::Closed,
    }
}

/// The port state a UDP outcome is classified as: only an actual
/// response datagram is Open; silence is Filtered; a failed send is
/// Closed.
pub open spec fn udp_state_of(p: UdpProbe) -> PortState {
    match p {
        UdpProbe::Replied { .. } => PortState::Open,
        UdpProbe::NoReply => PortState::Filtered,
        UdpProbe::SendFailed => PortState::Closed,
    }
}

/// View of an optional text as an optional character sequence.
pub open spec fn opt_text(o: Option<String>) -> Option<Seq<char>> {
    match o {
        Some(s) => Some(s@),
        None => None,
    }
}

/// An outcome a probe of this job can have produced at all.
pub open spec fn outcome_fits_job(job: ScanJob, oc: ProbeOutcome) -> bool {
    match oc {
        ProbeOutcome::Tcp(_) => job.protocol == Protocol::TCP,
        ProbeOutcome::Udp(_) => job.protocol == Protocol::UDP,
    }
}

/// How the record of a finished probe must reflect its job and outcome:
/// the job's triple is copied through; the state follows the outcome
/// alone; service name and latency are filled only on Open, and a banner
/// only on an Open TCP connect that captured one.
pub open spec fn result_reflects(
    r: ScanResult,
    job: ScanJob,
    oc: ProbeOutcome,
    table: Seq<(u16, ServiceInfo)>,
) -> bool {
    &&& r.ip == job.ip
    &&& r.port == job.port
    &&& r.protocol == job.protocol
    &&& match oc {
        ProbeOutcome::Tcp(p) => {
            &&& r.state == tcp_state_of(p)
            &&& match p {
                TcpProbe::Connected { elapsed_ms, ref banner } => {
                    &&& opt_text(r.service) == spec_lookup(table, job.port)
                    &&& opt_text(r.banner) == opt_text(*banner)
                    &&& r.latency == elapsed_ms
                },
                TcpProbe::Failed => r.service is None && r.banner is None && r.latency == 0,
            }
        },
        ProbeOutcome::Udp(p) => {
            &&& r.state == udp_state_of(p)
            &&& r.banner is None
            &&& match p {
                UdpProbe::Replied { elapsed_ms } => {
                    &&& opt_text(r.service) == spec_lookup(table, job.port)
                    &&& r.latency == elapsed_ms
                },
                UdpProbe::NoReply => r.service is None && r.latency == 0,
                UdpProbe::SendFailed => r.service is None && r.latency == 0,
            }
        },
    }
}

/// Fold one TCP connection attempt into its record. All failure paths
/// resolve into a state; nothing is raised to the caller.
pub fn classify_tcp(ip: IpAddress, port: u16, probe: TcpProbe, table: &ServiceTable) -> (r:
    ScanResult)
    ensures
        result_reflects(
            r,
            ScanJob { ip, port, protocol: Protocol::TCP },
            ProbeOutcome::Tcp(probe),
            table@,
        ),
{
    match probe {
        TcpProbe::Connected { elapsed_ms, banner } => ScanResult {
            ip,
            port,
            protocol: Protocol::TCP,
            state: PortState::Open,
            service: table.lookup(port),
            banner,
            latency: elapsed_ms,
        },
        TcpProbe::Failed => ScanResult {
            ip,
            port,
            protocol: Protocol::TCP,
            state: PortState::Closed,
            service: None,
            banner: None,
            latency: 0,
        },
    }
}

/// Fold one UDP probe into its record; as with TCP, every failure path
/// is a state, not an error.
pub fn classify_udp(ip: IpAddress, port: u16, probe: UdpProbe, table: &ServiceTable) -> (r:
    ScanResult)
    ensures
        result_reflects(
            r,
            ScanJob { ip, port, protocol: Protocol::UDP },
            ProbeOutcome::Udp(probe),
            table@,
        ),
{
    match probe {
        UdpProbe::Replied { elapsed_ms } => ScanResult {
            ip,
            port,
            protocol: Protocol::UDP,
            state: PortState::Open,
            service: table.lookup(port),
            banner: None,
            latency: elapsed_ms,
        },
        UdpProbe::NoReply => ScanResult {
            ip,
            port,
            protocol: Protocol::UDP,
            state: PortState::Filtered,
            service: None,
            banner: None,
            latency: 0,
        },
        UdpProbe::SendFailed => ScanResult {
            ip,
            port,
            protocol: Protocol::UDP,
            state: PortState::Closed,
            service: None,
            banner: None,
            latency: 0,
        },
    }
}

/// Scanning carries no hidden state between jobs: the classification of
/// an outcome is a pure function of that outcome, so probing the same
/// closed port twice with the same timeout reports Closed both times,
/// and likewise for every other outcome.
pub proof fn lemma_scan_idempotent(p: TcpProbe, q: TcpProbe, u: UdpProbe, w: UdpProbe)
    requires
        p == q,
        u == w,
    ensures
        tcp_state_of(p) == tcp_state_of(q),
        udp_state_of(u) == udp_state_of(w),
        tcp_state_of(TcpProbe::Failed) == PortState::Closed,
{
}

} // verus!
