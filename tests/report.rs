use port_sniffer::partition::scan_plan;
use port_sniffer::report::sorted_report;

/// Runs the plan of `workers` workers over ports `1..=last`, where a port
/// accepts exactly when it is in `open`; reports are gathered worker by
/// worker, last worker first, each in reverse probing order.
fn simulated_reports(workers: u32, last: u16, open: &[u16]) -> Vec<u16> {
    let plan = scan_plan(workers);
    let mut reports = Vec::new();
    for ports in plan.iter().rev() {
        for &p in ports.iter().rev() {
            if p <= last && open.contains(&p) {
                reports.push(p);
            }
        }
    }
    reports
}

#[test]
fn detects_exactly_the_listening_ports() {
    let reports = simulated_reports(4, 1000, &[443, 22, 80]);
    assert_eq!(sorted_report(reports), vec![22, 80, 443]);
}

#[test]
fn end_to_end_two_listeners() {
    let reports = simulated_reports(4, 10000, &[9090, 8080]);
    let report = sorted_report(reports);
    assert_eq!(report, vec![8080, 9090]);
    let lines: Vec<String> = report.iter().map(|p| format!("{} is open", p)).collect();
    assert_eq!(lines, vec!["8080 is open".to_string(), "9090 is open".to_string()]);
}

#[test]
fn report_independent_of_worker_count_and_order() {
    let open = [7, 65535, 1, 300, 4096];
    let a = sorted_report(simulated_reports(1, 65535, &open));
    let b = sorted_report(simulated_reports(3, 65535, &open));
    let c = sorted_report(simulated_reports(7, 65535, &open));
    assert_eq!(a, vec![1, 7, 300, 4096, 65535]);
    assert_eq!(a, b);
    assert_eq!(a, c);
}

#[test]
fn repeated_scan_gives_same_report() {
    let open = [5000, 25, 53];
    let first = sorted_report(simulated_reports(4, 10000, &open));
    let second = sorted_report(simulated_reports(4, 10000, &open));
    assert_eq!(first, second);
    assert_eq!(first, vec![25, 53, 5000]);
}

#[test]
fn report_sorts_arrival_order() {
    assert_eq!(sorted_report(vec![9, 3, 65535, 1, 200]), vec![1, 3, 9, 200, 65535]);
    assert_eq!(sorted_report(vec![]), Vec::<u16>::new());
    assert_eq!(sorted_report(vec![5, 5, 2]), vec![2, 5, 5]);
}
