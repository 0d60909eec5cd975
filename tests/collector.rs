use port_scanner::collector::{sort_unique, Collector};
use port_scanner::ports::{first_port, scan_step};

fn run_scan(n: u32, open: &[u16]) -> Vec<u16> {
    let mut collector = Collector::new();
    for i in 0..n {
        let mut cur = first_port(i);
        while let Some(p) = cur {
            let (report, next) = scan_step(p, n, open.contains(&p));
            if let Some(q) = report {
                collector.record(q);
            }
            cur = next;
        }
    }
    collector.finish()
}

#[test]
fn nothing_open_reports_nothing() {
    for n in [1u32, 2, 7, 1000, 65535, 65536] {
        assert!(run_scan(n, &[]).is_empty());
    }
}

#[test]
fn open_ports_come_back_sorted_and_once() {
    let open = [8080u16, 22, 443, 65534, 1];
    for n in [1u32, 3, 4, 500] {
        assert_eq!(run_scan(n, &open), vec![1, 22, 443, 8080, 65534]);
    }
}

#[test]
fn three_listeners_four_workers() {
    let lines: Vec<String> = run_scan(4, &[80, 443, 8080])
        .iter()
        .map(|p| format!("Port {} is open", p))
        .collect();
    assert_eq!(lines, vec!["Port 80 is open", "Port 443 is open", "Port 8080 is open"]);
}

#[test]
fn top_port_found_only_with_enough_workers() {
    assert_eq!(run_scan(4, &[65535]), Vec::<u16>::new());
    assert_eq!(run_scan(65535, &[65535, 2]), vec![2, 65535]);
}

#[test]
fn collector_sorts_and_drops_duplicates() {
    let mut c = Collector::new();
    for p in [443u16, 80, 443, 0, 65535, 80] {
        c.record(p);
    }
    assert_eq!(c.len(), 6);
    assert_eq!(c.finish(), vec![0, 80, 443, 65535]);
}

#[test]
fn sort_unique_of_empty_is_empty() {
    assert!(sort_unique(&vec![]).is_empty());
}

#[test]
fn sort_unique_is_independent_of_arrival_order() {
    assert_eq!(sort_unique(&vec![5, 3, 9, 3]), sort_unique(&vec![9, 3, 5]));
}
