use std::collections::VecDeque;
use warehouse::queue::{distribute_queue, generate_ticket, Visitor, Window};

fn visitor(ticket: &str, duration: u32) -> Visitor {
    Visitor { ticket: String::from(ticket), duration }
}

#[test]
fn window_new_is_empty() {
    let w = Window::new();
    assert_eq!(w.total_time, 0);
    assert!(w.visitors.is_empty());
}

#[test]
fn tickets_are_zero_padded_serials() {
    let mut counter: u32 = 0;
    assert_eq!(generate_ticket(&mut counter), "T001");
    assert_eq!(counter, 1);
    assert_eq!(generate_ticket(&mut counter), "T002");
    let mut counter: u32 = 41;
    assert_eq!(generate_ticket(&mut counter), "T042");
    let mut counter: u32 = 99;
    assert_eq!(generate_ticket(&mut counter), "T100");
    let mut counter: u32 = 999;
    assert_eq!(generate_ticket(&mut counter), "T1000");
    let mut counter: u32 = 1233;
    assert_eq!(generate_ticket(&mut counter), "T1234");
}

#[test]
fn distribute_routes_to_least_loaded_window() {
    let mut q: VecDeque<Visitor> = VecDeque::new();
    q.push_back(visitor("T001", 5));
    q.push_back(visitor("T002", 3));
    q.push_back(visitor("T003", 2));
    q.push_back(visitor("T004", 4));
    let windows = distribute_queue(&mut q, 2);
    assert!(q.is_empty());
    assert_eq!(windows.len(), 2);
    // T001 -> window 0 (tie, lowest index); T002 -> window 1 (0 < 5);
    // T003 -> window 1 (3 < 5); T004 -> window 0 (totals tied at 5)
    assert_eq!(windows[0].total_time, 9);
    assert_eq!(windows[1].total_time, 5);
    let roster0: Vec<&str> = windows[0].visitors.iter().map(|v| v.ticket.as_str()).collect();
    let roster1: Vec<&str> = windows[1].visitors.iter().map(|v| v.ticket.as_str()).collect();
    assert_eq!(roster0, vec!["T001", "T004"]);
    assert_eq!(roster1, vec!["T002", "T003"]);
}

#[test]
fn distribute_single_window_takes_everything() {
    let mut q: VecDeque<Visitor> = VecDeque::new();
    q.push_back(visitor("T001", 7));
    q.push_back(visitor("T002", 1));
    q.push_back(visitor("T003", 4));
    let windows = distribute_queue(&mut q, 1);
    assert_eq!(windows.len(), 1);
    assert_eq!(windows[0].total_time, 12);
    assert_eq!(windows[0].visitors.len(), 3);
}

#[test]
fn distribute_empty_queue_yields_idle_windows() {
    let mut q: VecDeque<Visitor> = VecDeque::new();
    let windows = distribute_queue(&mut q, 3);
    assert_eq!(windows.len(), 3);
    for w in &windows {
        assert_eq!(w.total_time, 0);
        assert!(w.visitors.is_empty());
    }
}

#[test]
fn window_totals_match_rosters() {
    let mut q: VecDeque<Visitor> = VecDeque::new();
    let durations = [9, 2, 2, 8, 1, 5, 5, 7, 3, 6];
    for (i, d) in durations.iter().enumerate() {
        q.push_back(visitor(&format!("T{:03}", i + 1), *d));
    }
    let windows = distribute_queue(&mut q, 3);
    let mut seen = 0;
    for w in &windows {
        let sum: u64 = w.visitors.iter().map(|v| v.duration as u64).sum();
        assert_eq!(w.total_time, sum);
        seen += w.visitors.len();
    }
    assert_eq!(seen, durations.len());
}

#[test]
fn greedy_balance_bound_holds_by_simulation() {
    let samples: Vec<(Vec<u32>, usize)> = vec![
        (vec![9, 2, 2, 8, 1, 5, 5, 7, 3, 6], 3),
        (vec![10, 10, 10, 1], 2),
        (vec![1, 1, 1, 1, 100], 4),
        (vec![], 5),
        (vec![42], 1),
    ];
    for (durations, k) in samples {
        let mut q: VecDeque<Visitor> = VecDeque::new();
        for (i, d) in durations.iter().enumerate() {
            q.push_back(visitor(&format!("T{:03}", i + 1), *d));
        }
        let sum: u64 = durations.iter().map(|d| *d as u64).sum();
        let max = durations.iter().copied().max().unwrap_or(0) as u64;
        let windows = distribute_queue(&mut q, k);
        for w in &windows {
            assert!(w.total_time <= sum / (k as u64) + max);
        }
    }
}
