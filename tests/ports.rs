use port_scanner::ports::{first_port, next_port, scan_step, worker_ports, MAX_PORT};

fn all_workers(n: u32) -> Vec<Vec<u16>> {
    (0..n).map(|i| worker_ports(i, n)).collect()
}

#[test]
fn single_worker_runs_to_just_below_the_top() {
    let ports = worker_ports(0, 1);
    assert_eq!(ports.len(), 65534);
    assert_eq!(ports[0], 1);
    assert_eq!(*ports.last().unwrap(), 65534);
}

#[test]
fn worker_sequence_starts_at_index_plus_one_with_stride() {
    for &(i, n) in &[(0u32, 1u32), (0, 2), (1, 2), (3, 7), (6, 7), (100, 1000)] {
        let ports = worker_ports(i, n);
        assert_eq!(ports[0] as u32, i + 1);
        for w in ports.windows(2) {
            assert_eq!(w[1] as u32, w[0] as u32 + n);
        }
        assert!(ports.iter().all(|&p| p >= 1 && p <= MAX_PORT));
    }
}

#[test]
fn four_workers_exact_ranges() {
    assert_eq!(worker_ports(0, 4)[..3], [1, 5, 9]);
    assert_eq!(*worker_ports(0, 4).last().unwrap(), 65533);
    assert_eq!(*worker_ports(1, 4).last().unwrap(), 65534);
    assert_eq!(*worker_ports(2, 4).last().unwrap(), 65531);
    assert_eq!(*worker_ports(3, 4).last().unwrap(), 65532);
}

fn check_partition(n: u32) {
    let mut seen = vec![0u32; 65536];
    for ports in all_workers(n) {
        for p in ports {
            seen[p as usize] += 1;
        }
    }
    assert_eq!(seen[0], 0);
    for p in 1..65535usize {
        assert_eq!(seen[p], 1, "port {} with {} workers", p, n);
    }
    let top = if n >= 65535 { 1 } else { 0 };
    assert_eq!(seen[65535], top);
}

#[test]
fn partition_one_worker() {
    check_partition(1);
}

#[test]
fn partition_two_workers() {
    check_partition(2);
}

#[test]
fn partition_seven_workers() {
    check_partition(7);
}

#[test]
fn partition_max_workers() {
    check_partition(65535);
}

#[test]
fn partition_more_workers_than_ports() {
    check_partition(65536);
}

#[test]
fn wide_stride_probes_at_most_once() {
    let n = 70000u32;
    for i in [0u32, 1, 65533, 65534, 65535, 69999] {
        assert!(worker_ports(i, n).len() <= 1);
    }
    assert_eq!(worker_ports(65534, n), vec![65535]);
    assert!(worker_ports(65535, n).is_empty());
    assert_eq!(first_port(65535), None);
}

#[test]
fn next_port_stops_within_one_stride_of_the_top() {
    assert_eq!(next_port(1, 4), Some(5));
    assert_eq!(next_port(65530, 4), Some(65534));
    assert_eq!(next_port(65531, 4), None);
    assert_eq!(next_port(65534, 1), None);
    assert_eq!(next_port(65533, 1), Some(65534));
    assert_eq!(next_port(65535, 0), None);
}

#[test]
fn scan_step_reports_only_open_ports() {
    assert_eq!(scan_step(80, 4, true), (Some(80), Some(84)));
    assert_eq!(scan_step(81, 4, false), (None, Some(85)));
    assert_eq!(scan_step(65532, 4, true), (Some(65532), None));
}
