use vstd::prelude::*;

use crate::addr::IpAddress;
use crate::scan::{
    outcome_fits_job, result_reflects, ProbeOutcome, Protocol, ScanJob, ScanResult, TcpProbe,
    UdpProbe,
};
use crate::service::ServiceTable;

verus! {

/// A configuration fault that stops a run before any probe is issued.
#[derive(Clone, Copy, Debug, PartialEq, Eq, Structural)]
pub enum ScanError {
    /// The start port lies above the end port.
    InvalidRange,
}

/// How many ports the inclusive range holds.
pub open spec fn port_span(start: u16, end: u16) -> int {
    end - start + 1
}

/// How many probes each (address, port) pair gets.
pub open spec fn protocol_count(include_udp: bool) -> int {
    if include_udp {
        2
    } else {
        1
    }
}

/// The jobs for one (address, port) pair: always a TCP probe, and a UDP
/// probe behind it when UDP scanning is on.
pub open spec fn jobs_for_port(ip: IpAddress, port: u16, include_udp: bool) -> Seq<ScanJob> {
    if include_udp {
        seq![
            ScanJob { ip, port, protocol: Protocol::TCP },
            ScanJob { ip, port, protocol: Protocol::UDP },
        ]
    } else {
        seq![ScanJob { ip, port, protocol: Protocol::TCP }]
    }
}

/// The jobs for one address over the first `count` ports from `start`,
/// in ascending port order.
pub open spec fn jobs_for_target(ip: IpAddress, start: u16, count: nat, include_udp: bool) -> Seq<
    ScanJob,
>
    decreases count,
{
    if count == 0 {
        Seq::empty()
    } else {
        jobs_for_target(ip, start, (count - 1) as nat, include_udp) + jobs_for_port(
            ip,
            (start + count - 1) as u16,
            include_udp,
        )
    }
}

/// The whole plan: every target's jobs, targets in the order they were
/// resolved.
pub open spec fn jobs_plan(
    targets: Seq<IpAddress>,
    start: u16,
    count: nat,
    include_udp: bool,
) -> Seq<ScanJob>
    decreases targets.len(),
{
    if targets.len() == 0 {
        Seq::empty()
    } else {
        jobs_plan(targets.drop_last(), start, count, include_udp) + jobs_for_target(
            targets.last(),
            start,
            count,
            include_udp,
        )
    }
}

pub proof fn lemma_jobs_for_target_len(ip: IpAddress, start: u16, count: nat, include_udp: bool)
    ensures
        jobs_for_target(ip, start, count, include_udp).len() == count * protocol_count(
            include_udp,
        ),
    decreases count,
{
    if count > 0 {
        lemma_jobs_for_target_len(ip, start, (count - 1) as nat, include_udp);
        let pc = protocol_count(include_udp);
        assert((count - 1) * pc + pc == count * pc) by (nonlinear_arith);
    }
}

/// Every job yields exactly one result, so a run over `targets` and the
/// inclusive port range produces exactly
/// targets × ports × protocols-requested records: this is the size of
/// the plan, and completing a plan returns one record per job.
pub proof fn lemma_scan_result_count(
    targets: Seq<IpAddress>,
    start: u16,
    count: nat,
    include_udp: bool,
)
    ensures
        jobs_plan(targets, start, count, include_udp).len() == targets.len() * (count
            * protocol_count(include_udp)),
    decreases targets.len(),
{
    if targets.len() > 0 {
        lemma_scan_result_count(targets.drop_last(), start, count, include_udp);
        lemma_jobs_for_target_len(targets.last(), start, count, include_udp);
        let per = count * protocol_count(include_udp);
        assert((targets.len() - 1) * per + per == targets.len() * per) by (nonlinear_arith);
    }
}

/// Which job stands at a position inside one target's chunk of the
/// plan: ports ascend, and with UDP on, the TCP probe of a port comes
/// right before its UDP probe.
pub proof fn lemma_jobs_for_target_index(
    ip: IpAddress,
    start: u16,
    count: nat,
    udp: bool,
    pi: int,
    ci: int,
)
    requires
        0 <= pi < count,
        0 <= ci < protocol_count(udp),
        start + count <= 0x1_0000,
    ensures
        ({
            let pc = protocol_count(udp);
            let chunk = jobs_for_target(ip, start, count, udp);
            &&& 0 <= pi * pc + ci < chunk.len()
            &&& chunk[pi * pc + ci] == ScanJob {
                ip,
                port: (start + pi) as u16,
                protocol: if ci == 0 {
                    Protocol::TCP
                } else {
                    Protocol::UDP
                },
            }
        }),
    decreases count,
{
    let pc = protocol_count(udp);
    lemma_jobs_for_target_len(ip, start, count, udp);
    lemma_jobs_for_target_len(ip, start, (count - 1) as nat, udp);
    if pi == count - 1 {
        assert(pi * pc + ci == (count - 1) * pc + ci) by (nonlinear_arith)
            requires
                pi == count - 1,
        ;
    } else {
        lemma_jobs_for_target_index(ip, start, (count - 1) as nat, udp, pi, ci);
        assert(pi * pc + ci < (count - 1) * pc) by (nonlinear_arith)
            requires
                0 <= ci < pc,
                0 <= pi < count - 1,
        ;
    }
}

/// Which job stands at each position of the whole plan: one job for
/// every (target, port, protocol) combination, targets outermost,
/// protocols innermost.
pub proof fn lemma_jobs_plan_index(
    targets: Seq<IpAddress>,
    start: u16,
    count: nat,
    udp: bool,
    t: int,
    pi: int,
    ci: int,
)
    requires
        0 <= t < targets.len(),
        0 <= pi < count,
        0 <= ci < protocol_count(udp),
        start + count <= 0x1_0000,
    ensures
        ({
            let pc = protocol_count(udp);
            let idx = t * (count * pc) + pi * pc + ci;
            let plan = jobs_plan(targets, start, count, udp);
            &&& 0 <= idx < plan.len()
            &&& plan[idx] == ScanJob {
                ip: targets[t],
                port: (start + pi) as u16,
                protocol: if ci == 0 {
                    Protocol::TCP
                } else {
                    Protocol::UDP
                },
            }
        }),
    decreases targets.len(),
{
    let pc = protocol_count(udp);
    let per = count * pc;
    let idx = t * per + pi * pc + ci;
    lemma_scan_result_count(targets, start, count, udp);
    lemma_scan_result_count(targets.drop_last(), start, count, udp);
    lemma_jobs_for_target_len(targets.last(), start, count, udp);
    assert(0 <= pi * pc + ci < per) by (nonlinear_arith)
        requires
            0 <= pi < count,
            0 <= ci < pc,
            per == count * pc,
    ;
    if t == targets.len() - 1 {
        lemma_jobs_for_target_index(targets.last(), start, count, udp, pi, ci);
        assert(idx == (targets.len() - 1) * per + (pi * pc + ci)) by (nonlinear_arith)
            requires
                t == targets.len() - 1,
                idx == t * per + pi * pc + ci,
        ;
    } else {
        lemma_jobs_plan_index(targets.drop_last(), start, count, udp, t, pi, ci);
        assert(idx < (targets.len() - 1) * per) by (nonlinear_arith)
            requires
                0 <= pi * pc + ci < per,
                0 <= t < targets.len() - 1,
                idx == t * per + pi * pc + ci,
        ;
        assert(targets.drop_last()[t] == targets[t]);
    }
}

/// Lay out the full job set for a scan, validating the port range first:
/// an inverted range fails fast with `InvalidRange`, before any job
/// exists and so before any probe could be issued.
pub fn plan_scan(
    targets: &Vec<IpAddress>,
    start_port: u16,
    end_port: u16,
    include_udp: bool,
) -> (r: Result<Vec<ScanJob>, ScanError>)
    ensures
        r is Err <==> start_port > end_port,
        match r {
            Ok(jobs) => {
                &&& jobs@ == jobs_plan(
                    targets@,
                    start_port,
                    port_span(start_port, end_port) as nat,
                    include_udp,
                )
                &&& jobs@.len() == targets@.len() * port_span(start_port, end_port)
                    * protocol_count(include_udp)
            },
            Err(e) => e == ScanError::InvalidRange,
        },
{
    if start_port > end_port {
        return Err(ScanError::InvalidRange);
    }
    let ghost span = port_span(start_port, end_port) as nat;
    let mut jobs: Vec<ScanJob> = Vec::new();
    let n = targets.len();
    let mut t: usize = 0;
    proof {
        assert(targets@.take(0) =~= Seq::<IpAddress>::empty());
    }
    while t < n
        invariant
            t <= n,
            n == targets@.len(),
            start_port <= end_port,
            span == port_span(start_port, end_port) as nat,
            jobs@ == jobs_plan(targets@.take(t as int), start_port, span, include_udp),
        decreases n - t,
    {
        let ip = targets[t];
        let ghost before = jobs@;
        let mut offset: u16 = 0;
        let width: u16 = end_port - start_port;
        proof {
            assert(jobs_for_target(ip, start_port, 0, include_udp) =~= Seq::<ScanJob>::empty());
            assert(before + jobs_for_target(ip, start_port, 0, include_udp) =~= before);
        }
        loop
            invariant_except_break
                jobs@ == before + jobs_for_target(ip, start_port, offset as nat, include_udp),
            invariant
                offset <= width,
                start_port + width == end_port,
            ensures
                jobs@ == before + jobs_for_target(ip, start_port, (width + 1) as nat, include_udp),
            decreases width - offset,
        {
            let port = start_port + offset;
            let ghost mid = jobs@;
            jobs.push(ScanJob { ip, port, protocol: Protocol::TCP });
            if include_udp {
                jobs.push(ScanJob { ip, port, protocol: Protocol::UDP });
            }
            proof {
                assert(jobs@ =~= mid + jobs_for_port(ip, port, include_udp));
                assert(jobs@ =~= before + (jobs_for_target(ip, start_port, offset as nat, include_udp)
                    + jobs_for_port(ip, port, include_udp)));
                assert(jobs@ =~= before + jobs_for_target(
                    ip,
                    start_port,
                    (offset + 1) as nat,
                    include_udp,
                ));
            }
            if offset == width {
                break;
            }
            offset = offset + 1;
        }
        proof {
            assert(targets@.take((t + 1) as int).drop_last() =~= targets@.take(t as int));
            assert(targets@.take((t + 1) as int).last() == ip);
            assert(jobs@ =~= jobs_plan(targets@.take((t + 1) as int), start_port, span, include_udp));
        }
        t = t + 1;
    }
    proof {
        assert(targets@.take(n as int) =~= targets@);
        lemma_scan_result_count(targets@, start_port, span, include_udp);
        assert(targets@.len() * (span * protocol_count(include_udp)) == targets@.len() * (span as int)
            * protocol_count(include_udp)) by (nonlinear_arith);
    }
    Ok(jobs)
}

/// Turn the outcome of every job into its record, in job order: one
/// result per job, none dropped, none invented. The order in which the
/// probes actually finished does not matter; the caller hands the
/// outcomes back keyed by job position.
pub fn complete_scan(
    jobs: &Vec<ScanJob>,
    outcomes: Vec<ProbeOutcome>,
    table: &ServiceTable,
) -> (r: Vec<ScanResult>)
    requires
        outcomes@.len() == jobs@.len(),
        forall|k: int| 0 <= k < jobs@.len() ==> outcome_fits_job(jobs@[k], #[trigger] outcomes@[k]),
    ensures
        r@.len() == jobs@.len(),
        forall|k: int|
            0 <= k < jobs@.len() ==> result_reflects(
                #[trigger] r@[k],
                jobs@[k],
                outcomes@[k],
                table@,
            ),
{
    let ghost outcomes0 = outcomes@;
    let mut rest = outcomes;
    let mut results: Vec<ScanResult> = Vec::new();
    let n = jobs.len();
    let mut i: usize = 0;
    while i < n
        invariant
            i <= n,
            n == jobs@.len(),
            outcomes0.len() == n,
            rest@ =~= outcomes0.skip(i as int),
            forall|k: int| 0 <= k < n ==> outcome_fits_job(jobs@[k], #[trigger] outcomes0[k]),
            results@.len() == i,
            forall|k: int|
                0 <= k < i ==> result_reflects(#[trigger] results@[k], jobs@[k], outcomes0[k], table@),
        decreases n - i,
    {
        let job = jobs[i];
        let oc = rest.remove(0);
        proof {
            assert(oc == outcomes0[i as int]);
            assert(rest@ =~= outcomes0.skip((i + 1) as int));
        }
        let record = match oc {
            ProbeOutcome::Tcp(p) => crate::scan::classify_tcp(job.ip, job.port, p, table),
            ProbeOutcome::Udp(p) => crate::scan::classify_udp(job.ip, job.port, p, table),
        };
        results.push(record);
        i = i + 1;
    }
    results
}

/// A rough duration estimate for a scan, in whole seconds: the job count
/// divided by the concurrency window, rounded up, saturating at the
/// largest representable value.
pub fn estimate_scan_seconds(
    target_count: usize,
    start_port: u16,
    end_port: u16,
    include_udp: bool,
    concurrency: usize,
) -> (r: u64)
    requires
        start_port <= end_port,
        concurrency > 0,
    ensures
        ({
            let total = target_count * port_span(start_port, end_port) * protocol_count(
                include_udp,
            );
            let ceiling = (total + concurrency - 1) / (concurrency as int);
            if ceiling <= u64::MAX {
                r == ceiling
            } else {
                r == u64::MAX
            }
        }),
{
    let span = (end_port - start_port) as u128 + 1;
    let pc: u128 = if include_udp {
        2
    } else {
        1
    };
    let t128 = target_count as u128;
    proof {
        assert(t128 * span <= 0xFFFF_FFFF_FFFF_FFFF * 0x1_0000) by (nonlinear_arith)
            requires
                0 <= t128 <= 0xFFFF_FFFF_FFFF_FFFF,
                0 <= span <= 0x1_0000,
        ;
    }
    let ts = t128 * span;
    proof {
        assert(ts * pc <= 0xFFFF_FFFF_FFFF_FFFF * 0x1_0000 * 2) by (nonlinear_arith)
            requires
                0 <= ts <= 0xFFFF_FFFF_FFFF_FFFF * 0x1_0000,
                0 <= pc <= 2,
        ;
    }
    let total = ts * pc;
    let c = concurrency as u128;
    let ceiling = (total + c - 1) / c;
    proof {
        assert(total == target_count * port_span(start_port, end_port) * protocol_count(
            include_udp,
        )) by (nonlinear_arith)
            requires
                total == t128 * span * pc,
                t128 == target_count,
                span == port_span(start_port, end_port),
                pc == protocol_count(include_udp),
        ;
    }
    if ceiling <= u64::MAX as u128 {
        ceiling as u64
    } else {
        u64::MAX
    }
}

} // verus!
