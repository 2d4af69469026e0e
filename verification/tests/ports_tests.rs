use portscan::ports::{make_assignments, WorkerAssignment, MAX_PORT};

/// Counts how often each port is probed when every worker of a `k`-worker
/// scan walks its assignment.
fn coverage(k: u16) -> Vec<u32> {
    let mut seen = vec![0u32; 65536];
    for a in make_assignments(k) {
        for p in a.ports() {
            seen[p as usize] += 1;
        }
    }
    seen
}

fn assert_exact_partition(k: u16) {
    let seen = coverage(k);
    assert_eq!(seen[0], 0);
    for p in 1..=65535usize {
        assert_eq!(seen[p], 1, "port {} covered {} times with {} workers", p, seen[p], k);
    }
}

#[test]
fn partition_complete_one_worker() {
    assert_exact_partition(1);
}

#[test]
fn partition_complete_four_workers() {
    assert_exact_partition(4);
}

#[test]
fn partition_complete_max_workers() {
    assert_exact_partition(65535);
}

#[test]
fn partition_complete_near_max_workers() {
    // One below the full worker count: the top port must still be covered.
    assert_exact_partition(65534);
}

#[test]
fn bounded_probing() {
    for k in [1u16, 2, 7, 100, 65534, 65535] {
        for a in make_assignments(k) {
            for p in a.ports() {
                assert!(p >= 1);
                assert!(p <= MAX_PORT);
            }
        }
    }
}

#[test]
fn single_worker_scans_all_ascending() {
    let assignments = make_assignments(1);
    assert_eq!(assignments.len(), 1);
    let ports = assignments[0].ports();
    assert_eq!(ports.len(), 65535);
    for (idx, p) in ports.iter().enumerate() {
        assert_eq!(*p as usize, idx + 1);
    }
}

#[test]
fn stepping_matches_port_list() {
    for k in [1u16, 3, 250] {
        for a in make_assignments(k) {
            let mut walked = Vec::new();
            let mut port = a.first_port();
            loop {
                walked.push(port);
                match a.next_port(port) {
                    Some(p) => port = p,
                    None => break,
                }
            }
            assert_eq!(walked, a.ports());
        }
    }
}

#[test]
fn first_port_is_offset_plus_one() {
    let a = WorkerAssignment::new(6, 7);
    assert_eq!(a.first_port(), 7);
    let b = WorkerAssignment::new(0, 1);
    assert_eq!(b.first_port(), 1);
}

#[test]
fn strided_assignment_contents() {
    let a = WorkerAssignment::new(1, 4);
    let ports = a.ports();
    assert_eq!(ports[0], 2);
    assert_eq!(ports[1], 6);
    assert_eq!(ports[ports.len() - 1], 65534);
    for w in ports.windows(2) {
        assert_eq!(w[1] - w[0], 4);
    }
}
