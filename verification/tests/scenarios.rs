use lb_core::config::Config;
use lb_core::pipeline::{ConfigError, RequestOutcome, LB};
use lb_core::pool::SelectError;

fn stock_lb() -> LB {
    LB::new(&Config::default()).unwrap()
}

fn config_with_backends(backends: Vec<&str>) -> Config {
    let mut c = Config::default();
    c.lb_backends = backends.into_iter().map(|s| s.to_owned()).collect();
    c
}

#[test]
fn startup_builds_the_pool_from_the_config() {
    let lb = stock_lb();
    assert_eq!(lb.pool.backends.len(), 2);
    assert_eq!(lb.pool.backends[0].host, "1.1.1.1");
    assert_eq!(lb.pool.backends[0].port, 443);
    assert_eq!(lb.pool.backends[1].host, "1.0.0.1");
    assert_eq!(lb.pool.backends[1].port, 443);
    assert_eq!(lb.max_requests_per_window, 1);
    assert_eq!(lb.limiter.window_ms, 1000);
    assert_eq!(lb.upstream_host, "one.one.one.one");
}

#[test]
fn startup_fails_on_an_empty_backend_list() {
    let c = config_with_backends(vec![]);
    assert_eq!(LB::new(&c).err(), Some(ConfigError::NoBackends));
}

#[test]
fn startup_fails_on_a_malformed_backend_address() {
    let c = config_with_backends(vec!["1.1.1.1:443", "not-an-authority"]);
    assert_eq!(LB::new(&c).err(), Some(ConfigError::InvalidBackendAddress));
}

#[test]
fn startup_fails_on_a_malformed_listening_endpoint() {
    let mut c = Config::default();
    c.lb_tcp_listening_endpoint = "nowhere".to_owned();
    assert_eq!(LB::new(&c).err(), Some(ConfigError::InvalidListeningEndpoint));
}

#[test]
fn appid_header_is_read_as_printable_ascii() {
    let lb = stock_lb();
    assert_eq!(lb.get_request_appid(None), None);
    assert_eq!(lb.get_request_appid(Some(b"foo")), Some("foo".to_owned()));
    assert_eq!(lb.get_request_appid(Some(b"")), Some("".to_owned()));
    // a non-ASCII or control byte makes the key unreadable, not an error
    assert_eq!(lb.get_request_appid(Some(&[0xff, b'a'])), None);
    assert_eq!(lb.get_request_appid(Some(b"ab\x19")), None);
}

#[test]
fn second_request_within_the_window_gets_429() {
    // max one request per one-second window; two requests 200 ms apart
    let mut lb = stock_lb();
    let first = lb.handle_request(Some(b"foo"), 0);
    assert!(matches!(first.outcome, RequestOutcome::Forwarded(_, _)));
    let second = lb.handle_request(Some(b"foo"), 200);
    match second.outcome {
        RequestOutcome::Rejected(resp) => {
            assert_eq!(resp.status, 429);
            assert_eq!(resp.limit, 1);
            assert_eq!(resp.remaining, 0);
            assert_eq!(resp.reset_secs, 1);
            assert!(resp.close_keepalive);
        },
        _ => panic!("second request within the window must be rejected"),
    }
}

#[test]
fn requests_in_different_windows_are_both_forwarded() {
    let mut lb = stock_lb();
    let first = lb.handle_request(Some(b"foo"), 0);
    assert!(matches!(first.outcome, RequestOutcome::Forwarded(_, _)));
    let second = lb.handle_request(Some(b"foo"), 1100);
    assert!(matches!(second.outcome, RequestOutcome::Forwarded(_, _)));
}

#[test]
fn keyless_requests_are_never_rate_limited() {
    let mut lb = stock_lb();
    for i in 0..50 {
        let ctx = lb.handle_request(None, i % 10);
        assert!(ctx.rate_key.is_none());
        assert!(matches!(ctx.outcome, RequestOutcome::Forwarded(_, _)));
    }
}

#[test]
fn unreadable_key_is_treated_as_absent() {
    let mut lb = stock_lb();
    // far more than the limit, all with the same malformed header value
    for i in 0..10 {
        let ctx = lb.handle_request(Some(&[0xc3, 0xa9]), i);
        assert!(ctx.rate_key.is_none());
        assert!(matches!(ctx.outcome, RequestOutcome::Forwarded(_, _)));
    }
}

#[test]
fn all_backends_down_is_a_server_error_not_a_429() {
    let mut lb = stock_lb();
    lb.pool.apply_probe(0, false);
    lb.pool.apply_probe(1, false);
    let ctx = lb.handle_request(None, 0);
    assert!(matches!(
        ctx.outcome,
        RequestOutcome::SelectionFailed(SelectError::NoHealthyBackend)
    ));
    // an identified client under its quota fails the same way
    let ctx2 = lb.handle_request(Some(b"foo"), 1);
    assert!(matches!(
        ctx2.outcome,
        RequestOutcome::SelectionFailed(SelectError::NoHealthyBackend)
    ));
}

#[test]
fn forwarded_requests_rotate_across_backends() {
    let mut lb = stock_lb();
    let mut hosts = Vec::new();
    for i in 0..4 {
        match lb.handle_request(None, i).outcome {
            RequestOutcome::Forwarded(peer, _) => hosts.push(peer.host),
            _ => panic!("expected a forwarded request"),
        }
    }
    assert_eq!(hosts, vec!["1.1.1.1", "1.0.0.1", "1.1.1.1", "1.0.0.1"]);
}

#[test]
fn forwarding_rewrites_the_host_header_and_sni() {
    let mut lb = stock_lb();
    match lb.handle_request(None, 0).outcome {
        RequestOutcome::Forwarded(peer, host_header) => {
            assert_eq!(host_header, "one.one.one.one");
            assert_eq!(peer.sni, "one.one.one.one");
            assert!(peer.tls);
            assert_eq!(peer.host, "1.1.1.1");
            assert_eq!(peer.port, 443);
        },
        _ => panic!("expected a forwarded request"),
    }
}

#[test]
fn rejection_does_not_advance_the_rotation() {
    let mut lb = stock_lb();
    // bill two rejections to "foo" ...
    let _ = lb.handle_request(Some(b"foo"), 0);
    let r1 = lb.handle_request(Some(b"foo"), 1);
    let r2 = lb.handle_request(Some(b"foo"), 2);
    assert!(matches!(r1.outcome, RequestOutcome::Rejected(_)));
    assert!(matches!(r2.outcome, RequestOutcome::Rejected(_)));
    // ... and the next admitted request still gets the second backend
    match lb.handle_request(None, 3).outcome {
        RequestOutcome::Forwarded(peer, _) => assert_eq!(peer.host, "1.0.0.1"),
        _ => panic!("expected a forwarded request"),
    }
}

#[test]
fn separate_clients_have_separate_quotas() {
    let mut lb = stock_lb();
    let a = lb.handle_request(Some(b"alice"), 0);
    let b = lb.handle_request(Some(b"bob"), 10);
    assert!(matches!(a.outcome, RequestOutcome::Forwarded(_, _)));
    assert!(matches!(b.outcome, RequestOutcome::Forwarded(_, _)));
    // alice is over her quota, bob's next window admits him again
    let a2 = lb.handle_request(Some(b"alice"), 20);
    assert!(matches!(a2.outcome, RequestOutcome::Rejected(_)));
    let b2 = lb.handle_request(Some(b"bob"), 1200);
    assert!(matches!(b2.outcome, RequestOutcome::Forwarded(_, _)));
}

#[test]
fn quota_of_three_admits_three_then_rejects() {
    let mut c = Config::default();
    c.max_requests_per_window = 3;
    let mut lb = LB::new(&c).unwrap();
    for i in 0..3 {
        let ctx = lb.handle_request(Some(b"foo"), i * 100);
        assert!(matches!(ctx.outcome, RequestOutcome::Forwarded(_, _)));
    }
    match lb.handle_request(Some(b"foo"), 300).outcome {
        RequestOutcome::Rejected(resp) => {
            assert_eq!(resp.limit, 3);
            assert_eq!(resp.status, 429);
        },
        _ => panic!("fourth request within the window must be rejected"),
    }
    // the next window admits again
    let ctx = lb.handle_request(Some(b"foo"), 1400);
    assert!(matches!(ctx.outcome, RequestOutcome::Forwarded(_, _)));
}
