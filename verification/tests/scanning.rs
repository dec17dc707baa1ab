use port_scanner::address::{canonical_addresses, resolved_targets, Address, ResolveError};
use port_scanner::hints::service_hint;
use port_scanner::ports::PortRange;
use port_scanner::probe::{Probe, ProbeCommand};
use port_scanner::scan::{open_count, sort_results, ScanEngine, ScanResult};

/// Drive one probe to completion against fixed flag reads and attempt
/// outcomes, as the scanner's shell does against the real network;
/// returns what the probe reports and how many attempts it made.
fn drive_probe(retries: u8, cancelled: &[bool], outcomes: &[bool]) -> (bool, u32) {
    let mut p = Probe::start(retries);
    let mut reads: usize = 0;
    let mut attempts: usize = 0;
    loop {
        let flag = cancelled[reads];
        reads += 1;
        match p.next(flag) {
            ProbeCommand::Finish(open) => return (open, p.attempted),
            ProbeCommand::Connect => {
                let success = outcomes[attempts];
                attempts += 1;
                let (next, done) = p.after_attempt(success);
                p = next;
                if let Some(open) = done {
                    return (open, p.attempted);
                }
            }
        }
    }
}

#[test]
fn probe_refused_makes_exactly_retries_plus_one_attempts() {
    // maxRetries = 3 against a host refusing every attempt: 4 attempts.
    let (open, attempts) = drive_probe(3, &[false; 5], &[false; 4]);
    assert!(!open);
    assert_eq!(attempts, 4);

    let (open, attempts) = drive_probe(0, &[false; 2], &[false; 1]);
    assert!(!open);
    assert_eq!(attempts, 1);
}

#[test]
fn probe_cancelled_before_start_makes_no_attempt() {
    let (open, attempts) = drive_probe(5, &[true], &[]);
    assert!(!open);
    assert_eq!(attempts, 0);
}

#[test]
fn probe_stops_at_first_success() {
    let (open, attempts) = drive_probe(3, &[false; 5], &[false, true]);
    assert!(open);
    assert_eq!(attempts, 2);
}

#[test]
fn probe_cancellation_suppresses_retries() {
    // first attempt fails, then the flag is seen set: no second attempt.
    let (open, attempts) = drive_probe(3, &[false, true], &[false]);
    assert!(!open);
    assert_eq!(attempts, 1);
}

/// Scan a port list sequentially against fixed per-port outcomes.
fn drive_scan(ports: Vec<u16>, outcomes: &[bool]) -> Vec<ScanResult> {
    let mut engine = ScanEngine::new(ports);
    let mut i: usize = 0;
    while let Some(_port) = engine.next_port() {
        engine.record(outcomes[i]);
        i += 1;
        assert_eq!(engine.scanned(), i);
    }
    engine.finish()
}

#[test]
fn scan_scenario_range_one_to_five_port_three_open() {
    // target range 1-5 with a listener on port 3 only, sequential mode.
    let ports = PortRange { start: 1, end: 5 }.to_vec();
    let results = drive_scan(ports, &[false, false, true, false, false]);
    assert_eq!(
        results,
        vec![
            ScanResult { port: 1, open: false },
            ScanResult { port: 2, open: false },
            ScanResult { port: 3, open: true },
            ScanResult { port: 4, open: false },
            ScanResult { port: 5, open: false },
        ]
    );
    assert_eq!(open_count(&results), 1);
}

#[test]
fn scan_sequential_and_parallel_assembly_agree() {
    // The same outcomes fanned in from workers in completion order must
    // assemble to the same port-ordered list the sequential pass builds.
    let ports = PortRange { start: 10, end: 14 }.to_vec();
    let outcomes = [true, false, true, false, false];
    let sequential = drive_scan(ports.clone(), &outcomes);

    let mut completion_order = Vec::new();
    for k in [3usize, 0, 4, 1, 2] {
        completion_order.push(ScanResult { port: ports[k], open: outcomes[k] });
    }
    let parallel = sort_results(completion_order);
    assert_eq!(sequential, parallel);
    for (k, r) in sequential.iter().enumerate() {
        assert_eq!(r.port, ports[k]);
        assert_eq!(r.open, outcomes[k]);
    }
}

#[test]
fn scan_identical_inputs_give_identical_results() {
    let ports = PortRange { start: 1, end: 8 }.to_vec();
    let outcomes = [false, true, false, false, true, true, false, false];
    let first = drive_scan(ports.clone(), &outcomes);
    let second = drive_scan(ports, &outcomes);
    assert_eq!(first, second);
}

#[test]
fn scan_cancelled_before_start_reports_all_closed() {
    // with the flag set from the start every probe finishes at once as
    // closed; the scan still accounts for every port.
    let ports = PortRange { start: 1, end: 4 }.to_vec();
    let mut engine = ScanEngine::new(ports);
    while let Some(_port) = engine.next_port() {
        let mut probe = Probe::start(2);
        let open = loop {
            match probe.next(true) {
                ProbeCommand::Finish(open) => break open,
                ProbeCommand::Connect => {
                    let (next, _) = probe.after_attempt(false);
                    probe = next;
                }
            }
        };
        engine.record(open);
    }
    assert_eq!(engine.scanned(), 4);
    let results = engine.finish();
    assert_eq!(results.len(), 4);
    assert!(results.iter().all(|r| !r.open));
}

#[test]
fn sort_results_orders_by_port_and_keeps_ties_stable() {
    let unordered = vec![
        ScanResult { port: 5, open: true },
        ScanResult { port: 2, open: false },
        ScanResult { port: 5, open: false },
        ScanResult { port: 1, open: true },
    ];
    let sorted = sort_results(unordered);
    assert_eq!(
        sorted,
        vec![
            ScanResult { port: 1, open: true },
            ScanResult { port: 2, open: false },
            ScanResult { port: 5, open: true },
            ScanResult { port: 5, open: false },
        ]
    );
}

#[test]
fn open_count_counts_only_open_ports() {
    assert_eq!(open_count(&Vec::new()), 0);
    let results = vec![
        ScanResult { port: 1, open: true },
        ScanResult { port: 2, open: false },
        ScanResult { port: 3, open: true },
    ];
    assert_eq!(open_count(&results), 2);
}

#[test]
fn canonical_addresses_sorts_and_deduplicates() {
    let addrs = vec![
        Address::V6(1),
        Address::V4(5),
        Address::V4(2),
        Address::V4(5),
        Address::V6(1),
    ];
    let canon = canonical_addresses(&addrs);
    assert_eq!(canon, vec![Address::V4(2), Address::V4(5), Address::V6(1)]);

    // v4 orders before v6 even when its numeric value is larger
    let canon = canonical_addresses(&vec![Address::V6(0), Address::V4(0xffff_ffff)]);
    assert_eq!(canon, vec![Address::V4(0xffff_ffff), Address::V6(0)]);
}

#[test]
fn resolved_targets_rejects_empty_lookup() {
    let r = resolved_targets(&Vec::new());
    assert_eq!(r, Err(ResolveError::NoAddresses));
    assert_eq!(
        ResolveError::NoAddresses.message(),
        "no ip addresses found for target"
    );
    let r = resolved_targets(&vec![Address::V4(7)]);
    assert_eq!(r, Ok(vec![Address::V4(7)]));
}

#[test]
fn service_hint_knows_common_ports() {
    assert_eq!(service_hint(22), "ssh");
    assert_eq!(service_hint(80), "http");
    assert_eq!(service_hint(443), "https");
    assert_eq!(service_hint(21), "ftp");
    assert_eq!(service_hint(8080), "http-alt");
    assert_eq!(service_hint(12345), "");
}
