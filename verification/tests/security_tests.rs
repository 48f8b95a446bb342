use mail_triage::security::RateLimiter;

const SEC: u128 = 1_000_000_000;

#[test]
fn admits_up_to_the_limit_within_the_window() {
    let mut rl = RateLimiter::new(2, 60);
    assert!(rl.check_at("1.2.3.4", 0));
    assert!(rl.check_at("1.2.3.4", 1 * SEC));
    assert!(!rl.check_at("1.2.3.4", 2 * SEC));
    assert!(rl.check_at("5.6.7.8", 2 * SEC));
}

#[test]
fn old_requests_leave_the_window() {
    let mut rl = RateLimiter::new(2, 60);
    assert!(rl.check_at("ip", 0));
    assert!(rl.check_at("ip", 10 * SEC));
    assert!(!rl.check_at("ip", 59 * SEC));
    // At 60s the first request is exactly one window old and no longer counts.
    assert!(rl.check_at("ip", 60 * SEC));
    assert!(!rl.check_at("ip", 61 * SEC));
    assert!(rl.check_at("ip", 130 * SEC));
}

#[test]
fn refused_requests_are_not_recorded() {
    let mut rl = RateLimiter::new(1, 10);
    assert!(rl.check_at("ip", 0));
    assert!(!rl.check_at("ip", 5 * SEC));
    assert!(!rl.check_at("ip", 9 * SEC));
    assert!(rl.check_at("ip", 10 * SEC));
}

#[test]
fn zero_limit_refuses_everything() {
    let mut rl = RateLimiter::new(0, 60);
    assert!(!rl.check_at("ip", 0));
    assert!(!rl.check_at("ip", 100 * SEC));
}

#[test]
fn cleanup_keeps_decisions() {
    let mut a = RateLimiter::new(2, 60);
    let mut b = RateLimiter::new(2, 60);
    for rl in [&mut a, &mut b] {
        assert!(rl.check_at("x", 0));
        assert!(rl.check_at("y", 50 * SEC));
        assert!(rl.check_at("y", 55 * SEC));
    }
    a.cleanup_at(70 * SEC);
    assert_eq!(a.check_at("x", 80 * SEC), b.check_at("x", 80 * SEC));
    assert_eq!(a.check_at("y", 80 * SEC), b.check_at("y", 80 * SEC));
    assert_eq!(a.check_at("y", 81 * SEC), b.check_at("y", 81 * SEC));
}

#[test]
fn clock_driven_check_and_cleanup() {
    let mut rl = RateLimiter::new(10, 60);
    for _ in 0..10 {
        assert!(rl.check("9.9.9.9"));
    }
    assert!(!rl.check("9.9.9.9"));
    rl.cleanup();
    assert!(!rl.check("9.9.9.9"));
    assert!(rl.check("8.8.8.8"));
}

#[test]
fn no_window_holds_more_than_the_limit() {
    let mut rl = RateLimiter::new(3, 10);
    let mut admitted: Vec<u128> = Vec::new();
    for step in 0..120u128 {
        let now = step * SEC / 4;
        if step % 7 == 0 {
            rl.cleanup_at(now);
        }
        if rl.check_at("ip", now) {
            admitted.push(now);
        }
        let in_window = admitted.iter().filter(|t| now - **t < 10 * SEC).count();
        assert!(in_window <= 3);
    }
    // Requests keep being admitted as old ones leave the window.
    assert_eq!(admitted.len(), 9);
}

#[test]
fn cleanups_never_change_a_run_of_decisions() {
    let mut with = RateLimiter::new(2, 5);
    let mut without = RateLimiter::new(2, 5);
    let ips = ["a", "b", "c"];
    for step in 0..200u128 {
        let now = step * SEC / 3;
        if step % 4 == 1 {
            with.cleanup_at(now);
        }
        let ip = ips[(step * 7 % 3) as usize];
        assert_eq!(with.check_at(ip, now), without.check_at(ip, now));
    }
}

#[test]
fn an_earlier_time_counts_as_the_latest_one() {
    let mut rl = RateLimiter::new(1, 10);
    assert!(rl.check_at("ip", 0));
    rl.cleanup_at(100 * SEC);
    // 5 s would lie inside the window of the request at 0 s, but the limiter
    // has already reached 100 s, so the request is taken at 100 s.
    assert!(rl.check_at("ip", 5 * SEC));
    assert!(!rl.check_at("ip", 6 * SEC));
}
