use agreed_time_backend::parse::Ipv4Address;
use agreed_time_backend::rate_limit::{ClientId, RateLimiter, derive_client_identity};

fn client(a: u8, b: u8, c: u8, d: u8, port: u16) -> ClientId {
    ClientId { ip: Ipv4Address { a, b, c, d }, port }
}

#[test]
fn test_rate_limiting() {
    let mut limiter = RateLimiter::new(60_000, 5);
    let ip = client(127, 0, 0, 1, 12345);

    for _ in 0..5 {
        assert!(limiter.check(ip, 0));
    }
    assert!(!limiter.check(ip, 0));
}

#[test]
fn test_rate_limit_reset_after_duration() {
    let mut limiter = RateLimiter::new(60_000, 5);
    let ip = client(127, 0, 0, 1, 12345);

    for _ in 0..5 {
        assert!(limiter.check(ip, 0));
    }
    assert!(!limiter.check(ip, 1000));

    // Strictly past the window the counter resets to 1 ...
    assert!(limiter.check(ip, 60_001));
    // ... so four more requests pass in the new window, and the sixth
    // is rejected again.
    for _ in 0..4 {
        assert!(limiter.check(ip, 60_002));
    }
    assert!(!limiter.check(ip, 60_002));
}

#[test]
fn test_rate_limit_window_boundary_not_elapsed() {
    let mut limiter = RateLimiter::new(60_000, 5);
    let ip = client(10, 0, 0, 7, 80);

    for _ in 0..5 {
        assert!(limiter.check(ip, 0));
    }
    // Exactly the window length later the window has not yet elapsed.
    assert!(!limiter.check(ip, 60_000));
}

#[test]
fn test_x_forwarded_for() {
    // Requests arriving through a load balancer are accounted under the
    // forwarded client address, not the balancer's.
    let lb_ip = client(10, 0, 0, 1, 12345);
    let forwarded = derive_client_identity(Some(b"203.0.113.195"), lb_ip);
    assert_eq!(forwarded, client(203, 0, 113, 195, 12345));

    let mut limiter = RateLimiter::new(60_000, 5);
    for _ in 0..5 {
        assert!(limiter.check(forwarded, 0));
    }
    assert!(!limiter.check(forwarded, 0));

    // A different forwarded address through the same balancer is
    // accounted independently.
    let other = derive_client_identity(Some(b"198.51.100.1"), lb_ip);
    assert!(limiter.check(other, 0));
}

#[test]
fn test_forwarded_header_first_entry_wins() {
    let peer = client(10, 0, 0, 1, 443);
    let id = derive_client_identity(Some(b"203.0.113.7, 198.51.100.1"), peer);
    assert_eq!(id, client(203, 0, 113, 7, 443));
}

#[test]
fn test_forwarded_header_invalid_falls_back_to_peer() {
    let peer = client(10, 0, 0, 1, 443);
    assert_eq!(derive_client_identity(Some(b"not-an-address"), peer), peer);
    assert_eq!(derive_client_identity(Some(b""), peer), peer);
    assert_eq!(derive_client_identity(None, peer), peer);
}

#[test]
fn test_forwarded_header_trims_blanks() {
    let peer = client(10, 0, 0, 1, 8080);
    let id = derive_client_identity(Some(b"  203.0.113.9\t, 198.51.100.1"), peer);
    assert_eq!(id, client(203, 0, 113, 9, 8080));
}

#[test]
fn test_distinct_ports_are_distinct_identities() {
    let mut limiter = RateLimiter::new(60_000, 1);
    assert!(limiter.check(client(1, 2, 3, 4, 80), 0));
    assert!(limiter.check(client(1, 2, 3, 4, 81), 0));
    assert!(!limiter.check(client(1, 2, 3, 4, 80), 0));
}
