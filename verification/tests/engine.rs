use anteater::addr::IpAddress;
use anteater::aggregate::finalize;
use anteater::limiter::RateLimiter;
use anteater::orchestrate::{complete_scan, estimate_scan_seconds, plan_scan, ScanError};
use anteater::scan::{
    classify_tcp, classify_udp, PortState, ProbeOutcome, Protocol, ScanJob, TcpProbe, UdpProbe,
};
use anteater::service::ServiceTable;

const LOCALHOST: IpAddress = IpAddress::V4(0x7F00_0001);

#[test]
fn test_tcp_scan() {
    let table = ServiceTable::standard();
    let result = classify_tcp(IpAddress::V4((127 << 24) | 1), 80, TcpProbe::Failed, &table);
    assert!(matches!(result.protocol, Protocol::TCP));
}

#[test]
fn test_udp_scan() {
    let table = ServiceTable::standard();
    let result = classify_udp(IpAddress::V4((127 << 24) | 1), 53, UdpProbe::NoReply, &table);
    assert!(matches!(result.protocol, Protocol::UDP));
}

#[test]
fn test_rate_limiter() {
    let mut limiter = RateLimiter::new(10);
    for _ in 0..10 {
        assert!(limiter.try_acquire());
    }
}

/// A full bucket admits exactly its rate at once; the next acquisition
/// within the interval blocks until the refill tick.
#[test]
fn rate_limiter_burst_then_block() {
    let mut limiter = RateLimiter::new(3);
    assert!(limiter.try_acquire());
    assert!(limiter.try_acquire());
    assert!(limiter.try_acquire());
    assert!(!limiter.try_acquire());
    assert!(!limiter.try_acquire());
    limiter.refill();
    assert!(limiter.try_acquire());
}

/// Every (target, port, protocol) combination yields exactly one job.
#[test]
fn plan_covers_every_combination() {
    let targets = vec![IpAddress::V4(1), IpAddress::V4(2)];
    let jobs = plan_scan(&targets, 1, 3, true).expect("a valid range must plan");
    assert_eq!(jobs.len(), 2 * 3 * 2);
    assert_eq!(
        jobs[0],
        ScanJob { ip: IpAddress::V4(1), port: 1, protocol: Protocol::TCP }
    );
    assert_eq!(
        jobs[1],
        ScanJob { ip: IpAddress::V4(1), port: 1, protocol: Protocol::UDP }
    );
    assert_eq!(
        jobs[11],
        ScanJob { ip: IpAddress::V4(2), port: 3, protocol: Protocol::UDP }
    );

    let tcp_only = plan_scan(&targets, 1, 3, false).expect("a valid range must plan");
    assert_eq!(tcp_only.len(), 2 * 3);
    assert!(tcp_only.iter().all(|j| matches!(j.protocol, Protocol::TCP)));
}

/// An inverted range fails fast, before any job exists.
#[test]
fn inverted_range_is_invalid() {
    let targets = vec![LOCALHOST];
    match plan_scan(&targets, 5, 2, false) {
        Err(ScanError::InvalidRange) => {}
        _ => panic!("start above end must be InvalidRange"),
    }
}

/// No job is dropped: one result per job, in job order.
#[test]
fn every_job_yields_one_result() {
    let table = ServiceTable::standard();
    let targets = vec![IpAddress::V4(1), IpAddress::V4(2)];
    let jobs = plan_scan(&targets, 10, 12, true).expect("a valid range must plan");
    let outcomes: Vec<ProbeOutcome> = jobs
        .iter()
        .map(|j| match j.protocol {
            Protocol::TCP => ProbeOutcome::Tcp(TcpProbe::Failed),
            Protocol::UDP => ProbeOutcome::Udp(UdpProbe::NoReply),
        })
        .collect();
    let results = complete_scan(&jobs, outcomes, &table);
    assert_eq!(results.len(), jobs.len());
    for (k, r) in results.iter().enumerate() {
        assert_eq!(r.ip, jobs[k].ip);
        assert_eq!(r.port, jobs[k].port);
        assert_eq!(r.protocol, jobs[k].protocol);
    }
}

/// Ten closed TCP ports on localhost: ten Closed records, empty report.
#[test]
fn all_closed_scan_has_empty_report() {
    let table = ServiceTable::standard();
    let targets = vec![LOCALHOST];
    let jobs = plan_scan(&targets, 1, 10, false).expect("a valid range must plan");
    assert_eq!(jobs.len(), 10);
    let outcomes: Vec<ProbeOutcome> =
        jobs.iter().map(|_| ProbeOutcome::Tcp(TcpProbe::Failed)).collect();
    let results = complete_scan(&jobs, outcomes, &table);
    assert_eq!(results.len(), 10);
    assert!(results.iter().all(|r| matches!(r.state, PortState::Closed)));
    let report = finalize(results);
    assert!(report.is_empty());
}

/// One listener on 9000 among 8999..=9001: exactly one Open result.
#[test]
fn single_listener_is_the_single_open_result() {
    let table = ServiceTable::standard();
    let targets = vec![LOCALHOST];
    let jobs = plan_scan(&targets, 8999, 9001, false).expect("a valid range must plan");
    let outcomes: Vec<ProbeOutcome> = jobs
        .iter()
        .map(|j| {
            if j.port == 9000 {
                ProbeOutcome::Tcp(TcpProbe::Connected { elapsed_ms: 5, banner: None })
            } else {
                ProbeOutcome::Tcp(TcpProbe::Failed)
            }
        })
        .collect();
    let results = complete_scan(&jobs, outcomes, &table);
    let closed = results
        .iter()
        .filter(|r| matches!(r.state, PortState::Closed))
        .count();
    assert_eq!(closed, 2);
    let report = finalize(results);
    assert_eq!(report.len(), 1);
    assert_eq!(report[0].port, 9000);
    assert!(matches!(report[0].state, PortState::Open));
    assert_eq!(report[0].latency, 5);
}

/// A UDP probe that is sent but never answered is Filtered, not Closed.
#[test]
fn silent_udp_listener_is_filtered() {
    let table = ServiceTable::standard();
    let r = classify_udp(LOCALHOST, 9000, UdpProbe::NoReply, &table);
    assert!(matches!(r.state, PortState::Filtered));
    assert!(!matches!(r.state, PortState::Closed));
    let replied = classify_udp(LOCALHOST, 9000, UdpProbe::Replied { elapsed_ms: 2 }, &table);
    assert!(matches!(replied.state, PortState::Open));
    let unsent = classify_udp(LOCALHOST, 9000, UdpProbe::SendFailed, &table);
    assert!(matches!(unsent.state, PortState::Closed));
}

/// Scanning the same closed port twice gives Closed both times: nothing
/// is carried between jobs.
#[test]
fn closed_port_scan_is_idempotent() {
    let table = ServiceTable::standard();
    let first = classify_tcp(LOCALHOST, 81, TcpProbe::Failed, &table);
    let second = classify_tcp(LOCALHOST, 81, TcpProbe::Failed, &table);
    assert!(matches!(first.state, PortState::Closed));
    assert!(matches!(second.state, PortState::Closed));
    assert_eq!(first.latency, second.latency);
    assert_eq!(first.service, second.service);
}

/// The report holds only Open results, sorted by (address, port,
/// protocol) whatever order probes completed in.
#[test]
fn report_is_sorted_and_open_only() {
    let table = ServiceTable::standard();
    let open = |ip: IpAddress, port: u16, proto| match proto {
        Protocol::TCP => classify_tcp(
            ip,
            port,
            TcpProbe::Connected { elapsed_ms: 1, banner: None },
            &table,
        ),
        Protocol::UDP => classify_udp(ip, port, UdpProbe::Replied { elapsed_ms: 1 }, &table),
    };
    let results = vec![
        open(IpAddress::V4(9), 443, Protocol::TCP),
        classify_tcp(IpAddress::V4(9), 80, TcpProbe::Failed, &table),
        open(IpAddress::V6(1), 22, Protocol::TCP),
        open(IpAddress::V4(3), 22, Protocol::UDP),
        open(IpAddress::V4(3), 22, Protocol::TCP),
        open(IpAddress::V4(9), 80, Protocol::TCP),
    ];
    let report = finalize(results);
    assert_eq!(report.len(), 5);
    let keys: Vec<(IpAddress, u16, bool)> = report
        .iter()
        .map(|r| (r.ip, r.port, matches!(r.protocol, Protocol::UDP)))
        .collect();
    assert_eq!(
        keys,
        vec![
            (IpAddress::V4(3), 22, false),
            (IpAddress::V4(3), 22, true),
            (IpAddress::V4(9), 80, false),
            (IpAddress::V4(9), 443, false),
            (IpAddress::V6(1), 22, false),
        ]
    );
    assert!(report.iter().all(|r| matches!(r.state, PortState::Open)));
}

#[test]
fn open_tcp_result_carries_service_and_banner() {
    let table = ServiceTable::standard();
    let r = classify_tcp(
        LOCALHOST,
        80,
        TcpProbe::Connected { elapsed_ms: 12, banner: Some(String::from("Apache/2.4")) },
        &table,
    );
    assert!(matches!(r.state, PortState::Open));
    assert_eq!(r.service.as_deref(), Some("HTTP"));
    assert_eq!(r.banner.as_deref(), Some("Apache/2.4"));
    assert_eq!(r.latency, 12);

    let unmapped = classify_tcp(
        LOCALHOST,
        8080,
        TcpProbe::Connected { elapsed_ms: 1, banner: None },
        &table,
    );
    assert_eq!(unmapped.service, None);
}

#[test]
fn estimate_rounds_up() {
    assert_eq!(estimate_scan_seconds(1, 1, 100, false, 10), 10);
    assert_eq!(estimate_scan_seconds(1, 1, 101, false, 10), 11);
    assert_eq!(estimate_scan_seconds(2, 1, 100, true, 100), 4);
    assert_eq!(estimate_scan_seconds(1, 5, 5, false, 7), 1);
}
