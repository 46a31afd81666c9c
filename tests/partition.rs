use port_sniffer::partition::{next_port, scan_plan, worker_ports, MAX_PORT};

fn assert_exact_cover(n: u32) {
    let plan = scan_plan(n);
    assert_eq!(plan.len(), n as usize);
    let mut seen = vec![0u32; MAX_PORT as usize + 1];
    for ports in &plan {
        for &p in ports {
            seen[p as usize] += 1;
        }
    }
    assert_eq!(seen[0], 0);
    for p in 1..=MAX_PORT as usize {
        assert_eq!(seen[p], 1, "port {} with {} workers", p, n);
    }
}

#[test]
fn cover_one_worker() {
    assert_exact_cover(1);
}

#[test]
fn cover_two_workers() {
    assert_exact_cover(2);
}

#[test]
fn cover_three_workers() {
    assert_exact_cover(3);
}

#[test]
fn cover_seven_workers() {
    assert_exact_cover(7);
}

#[test]
fn cover_one_worker_per_port() {
    assert_exact_cover(65535);
}

#[test]
fn cover_more_workers_than_ports() {
    assert_exact_cover(70000);
    let plan = scan_plan(70000);
    for i in 65535..70000 {
        assert!(plan[i].is_empty());
    }
    assert_eq!(plan[0], vec![1]);
    assert_eq!(plan[65534], vec![65535]);
}

#[test]
fn three_workers_offset_two_reaches_top_port() {
    let ports = worker_ports(2, 3);
    let expected: Vec<u16> = (1..=21845u32).map(|k| (3 * k) as u16).collect();
    assert_eq!(ports, expected);
    assert_eq!(*ports.last().unwrap(), 65535);
}

#[test]
fn single_worker_probes_every_port() {
    let ports = worker_ports(0, 1);
    assert_eq!(ports.len(), 65535);
    assert_eq!(ports[0], 1);
    assert_eq!(ports[65534], 65535);
}

#[test]
fn worker_sequence_is_interleaved() {
    assert_eq!(worker_ports(0, 4)[..4], [1, 5, 9, 13]);
    assert_eq!(worker_ports(3, 4)[..3], [4, 8, 12]);
    assert_eq!(*worker_ports(3, 4).last().unwrap(), 65532);
    assert_eq!(*worker_ports(2, 4).last().unwrap(), 65535);
}

#[test]
fn offset_past_range_probes_nothing() {
    assert!(worker_ports(65535, 70000).is_empty());
    assert!(worker_ports(69999, 70000).is_empty());
    assert_eq!(worker_ports(65534, 70000), vec![65535]);
}

#[test]
fn next_port_checks_bound_before_adding() {
    assert_eq!(next_port(65532, 3), Some(65535));
    assert_eq!(next_port(65533, 3), None);
    assert_eq!(next_port(65535, 1), None);
    assert_eq!(next_port(65534, 1), Some(65535));
    assert_eq!(next_port(1, 70000), None);
    assert_eq!(next_port(1, 4), Some(5));
}
