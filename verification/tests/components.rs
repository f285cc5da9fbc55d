use lb_core::config::Config;
use lb_core::parse::parse_authority;
use lb_core::pool::{Backend, BackendPool, HealthStatus, SelectError};
use lb_core::ratelimit::RateLimiter;

fn backend(host: &str, port: u16, healthy: bool) -> Backend {
    Backend {
        host: host.to_owned(),
        port,
        status: if healthy { HealthStatus::Healthy } else { HealthStatus::Unhealthy },
    }
}

fn two_backend_pool(a_healthy: bool, b_healthy: bool, bound: usize) -> BackendPool {
    BackendPool::new(
        vec![backend("1.1.1.1", 443, a_healthy), backend("1.0.0.1", 443, b_healthy)],
        bound,
    )
}

#[test]
fn round_robin_two_healthy_four_selections() {
    // Two healthy backends, four selections: each chosen exactly twice, rotating.
    let mut pool = two_backend_pool(true, true, 256);
    let picks: Vec<usize> = (0..4).map(|_| pool.select().unwrap()).collect();
    assert_eq!(picks, vec![0, 1, 0, 1]);
}

#[test]
fn round_robin_fair_share_three_backends() {
    let mut pool = BackendPool::new(
        vec![
            backend("10.0.0.1", 80, true),
            backend("10.0.0.2", 80, true),
            backend("10.0.0.3", 80, true),
        ],
        256,
    );
    let mut counts = [0usize; 3];
    for _ in 0..8 {
        counts[pool.select().unwrap()] += 1;
    }
    // 8 selections over 3 backends: each seen floor(8/3)=2 or ceil(8/3)=3 times.
    for &c in counts.iter() {
        assert!(c == 2 || c == 3);
    }
    assert_eq!(counts.iter().sum::<usize>(), 8);
}

#[test]
fn unhealthy_backend_never_selected() {
    let mut pool = two_backend_pool(true, false, 256);
    for _ in 0..10 {
        assert_eq!(pool.select().unwrap(), 0);
    }
}

#[test]
fn all_unhealthy_returns_no_healthy_backend() {
    let mut pool = two_backend_pool(false, false, 256);
    assert_eq!(pool.select(), Err(SelectError::NoHealthyBackend));
    // and the cursor is untouched, so the pool keeps answering
    assert_eq!(pool.select(), Err(SelectError::NoHealthyBackend));
}

#[test]
fn recovered_backend_eligible_on_next_selection() {
    let mut pool = two_backend_pool(false, false, 256);
    assert_eq!(pool.select(), Err(SelectError::NoHealthyBackend));
    // one successful probe brings backend 1 back
    pool.apply_probe(1, true);
    assert_eq!(pool.select(), Ok(1));
}

#[test]
fn probe_results_flip_the_health_flag() {
    let mut pool = two_backend_pool(true, true, 256);
    pool.apply_probe(0, false);
    assert_eq!(pool.backend(0).status, HealthStatus::Unhealthy);
    assert_eq!(pool.backend(1).status, HealthStatus::Healthy);
    pool.apply_probe(0, true);
    assert_eq!(pool.backend(0).status, HealthStatus::Healthy);
    // the address never changes
    assert_eq!(pool.backend(0).host, "1.1.1.1");
    assert_eq!(pool.backend(0).port, 443);
}

#[test]
fn attempt_bound_caps_the_scan() {
    // Cursor sits on an unhealthy backend; a budget of one step cannot
    // reach the healthy one, a budget of two can.
    let mut short = two_backend_pool(false, true, 1);
    assert_eq!(short.select(), Err(SelectError::NoHealthyBackend));
    let mut long = two_backend_pool(false, true, 2);
    assert_eq!(long.select(), Ok(1));
}

#[test]
fn window_counts_climb_within_the_window() {
    let mut limiter = RateLimiter::new(1000);
    let key = "foo".to_owned();
    assert_eq!(limiter.observe(&key, 1, 0), 1);
    assert_eq!(limiter.observe(&key, 1, 200), 2);
    assert_eq!(limiter.observe(&key, 1, 400), 3);
}

#[test]
fn window_resets_after_it_elapses() {
    let mut limiter = RateLimiter::new(1000);
    let key = "foo".to_owned();
    assert_eq!(limiter.observe(&key, 1, 0), 1);
    assert_eq!(limiter.observe(&key, 1, 1100), 1);
}

#[test]
fn window_boundary_is_exact() {
    let mut limiter = RateLimiter::new(1000);
    let key = "k".to_owned();
    assert_eq!(limiter.observe(&key, 1, 0), 1);
    // 999 ms later the window is still live ...
    assert_eq!(limiter.observe(&key, 1, 999), 2);
    // ... at exactly 1000 ms it has expired and the count restarts.
    assert_eq!(limiter.observe(&key, 1, 1000), 1);
}

#[test]
fn distinct_keys_do_not_share_windows() {
    let mut limiter = RateLimiter::new(1000);
    let a = "alpha".to_owned();
    let b = "beta".to_owned();
    assert_eq!(limiter.observe(&a, 1, 0), 1);
    assert_eq!(limiter.observe(&a, 1, 10), 2);
    assert_eq!(limiter.observe(&b, 1, 20), 1);
    assert_eq!(limiter.observe(&a, 1, 30), 3);
    assert_eq!(limiter.observe(&b, 1, 40), 2);
}

#[test]
fn observation_weights_accumulate_and_saturate() {
    let mut limiter = RateLimiter::new(1000);
    let key = "w".to_owned();
    assert_eq!(limiter.observe(&key, 5, 0), 5);
    assert_eq!(limiter.observe(&key, 7, 1), 12);
    assert_eq!(limiter.observe(&key, u64::MAX, 2), u64::MAX);
}

#[test]
fn parse_authority_accepts_address_port() {
    assert_eq!(parse_authority("1.1.1.1:443"), Some(("1.1.1.1".to_owned(), 443)));
    assert_eq!(parse_authority("0.0.0.0:6188"), Some(("0.0.0.0".to_owned(), 6188)));
    assert_eq!(parse_authority("example.com:80"), Some(("example.com".to_owned(), 80)));
    // the split happens at the last colon
    assert_eq!(parse_authority("a:b:9"), Some(("a:b".to_owned(), 9)));
    // leading zeros only change the spelling, not the value
    assert_eq!(parse_authority("h:0443"), Some(("h".to_owned(), 443)));
    assert_eq!(parse_authority("h:65535"), Some(("h".to_owned(), 65535)));
}

#[test]
fn parse_authority_rejects_malformed_strings() {
    assert_eq!(parse_authority(""), None);
    assert_eq!(parse_authority("no-colon"), None);
    assert_eq!(parse_authority(":443"), None);
    assert_eq!(parse_authority("host:"), None);
    assert_eq!(parse_authority("host:65536"), None);
    assert_eq!(parse_authority("host:99999999999999999999"), None);
    assert_eq!(parse_authority("host:4x3"), None);
    assert_eq!(parse_authority("h\u{e9}llo:443"), None);
}

#[test]
fn default_config_matches_the_stock_deployment() {
    let c = Config::default();
    assert_eq!(c.lb_backends, vec!["1.1.1.1:443".to_owned(), "1.0.0.1:443".to_owned()]);
    assert_eq!(c.lb_tcp_listening_endpoint, "0.0.0.0:6188");
    assert_eq!(c.upstream_host, "one.one.one.one");
    assert!(c.upstream_tls);
    assert_eq!(c.lb_health_check_frequency_ms, 1000);
    assert_eq!(c.rate_limit_window_ms, 1000);
    assert_eq!(c.max_requests_per_window, 1);
    assert_eq!(c.select_attempt_bound, 256);
}

#[test]
fn sweep_drops_only_expired_windows() {
    let mut limiter = RateLimiter::new(1000);
    let a = "a".to_owned();
    let b = "b".to_owned();
    limiter.observe(&a, 1, 0);
    limiter.observe(&b, 1, 900);
    // at t=1500 a's window (0..1000) is stale, b's (900..1900) is live
    limiter.sweep(1500);
    assert_eq!(limiter.entries.len(), 1);
    // b keeps its count, a starts afresh
    assert_eq!(limiter.observe(&b, 1, 1600), 2);
    assert_eq!(limiter.observe(&a, 1, 1600), 1);
}
