use syskit::balancer::{
    active_health_check, admit_request, connect_to_upstream, handle_connection, rate_limit_check,
    ConnectionEvent, ConnectionStep, ErrorStatus, HealthProbe, RateLimiter, RequestError,
    Upstreams, STATUS_OK,
};

// The number of the address n.n.n.n, as an address of the newer kind that
// stands for one of the older.
fn ip(n: u8) -> u128 {
    let n = n as u128;
    0xffff_0000_0000 | (n << 24) | (n << 16) | (n << 8) | n
}

fn servers(count: usize) -> Upstreams {
    Upstreams::new((0..count).map(|i| format!("10.0.0.{}:80", i)).collect())
}

#[test]
fn status_codes_are_those_of_the_protocol() {
    assert_eq!(ErrorStatus::BadRequest.code(), http::StatusCode::BAD_REQUEST.as_u16());
    assert_eq!(ErrorStatus::PayloadTooLarge.code(), http::StatusCode::PAYLOAD_TOO_LARGE.as_u16());
    assert_eq!(ErrorStatus::TooManyRequests.code(), http::StatusCode::TOO_MANY_REQUESTS.as_u16());
    assert_eq!(ErrorStatus::BadGateway.code(), http::StatusCode::BAD_GATEWAY.as_u16());
    assert_eq!(STATUS_OK, http::StatusCode::OK.as_u16());
    assert_eq!(ErrorStatus::BadRequest.code(), 400);
    assert_eq!(ErrorStatus::PayloadTooLarge.code(), 413);
    assert_eq!(ErrorStatus::TooManyRequests.code(), 429);
    assert_eq!(ErrorStatus::BadGateway.code(), 502);
}

#[test]
fn handle_connection_lets_a_departed_client_go() {
    let gone = ConnectionStep { reply: None, keep_open: false };
    assert_eq!(
        handle_connection(ConnectionEvent::RequestFailed(RequestError::IncompleteRequest(0))),
        gone
    );
    assert_eq!(
        handle_connection(ConnectionEvent::RequestFailed(RequestError::ConnectionError)),
        gone
    );
}

#[test]
fn handle_connection_answers_bad_requests_and_goes_on() {
    let bad = ConnectionStep { reply: Some(ErrorStatus::BadRequest), keep_open: true };
    for error in [
        RequestError::IncompleteRequest(1),
        RequestError::IncompleteRequest(usize::MAX),
        RequestError::MalformedRequest,
        RequestError::InvalidContentLength,
        RequestError::ContentLengthMismatch,
    ] {
        assert_eq!(handle_connection(ConnectionEvent::RequestFailed(error)), bad);
    }
    assert_eq!(
        handle_connection(ConnectionEvent::RequestFailed(RequestError::RequestBodyTooLarge)),
        ConnectionStep { reply: Some(ErrorStatus::PayloadTooLarge), keep_open: true }
    );
    assert_eq!(
        handle_connection(ConnectionEvent::RateLimited),
        ConnectionStep { reply: Some(ErrorStatus::TooManyRequests), keep_open: true }
    );
    assert_eq!(
        handle_connection(ConnectionEvent::Responded),
        ConnectionStep { reply: None, keep_open: true }
    );
}

#[test]
fn handle_connection_closes_when_the_upstream_fails() {
    let failed = ConnectionStep { reply: Some(ErrorStatus::BadGateway), keep_open: false };
    assert_eq!(handle_connection(ConnectionEvent::NoUpstream), failed);
    assert_eq!(handle_connection(ConnectionEvent::ForwardFailed), failed);
    assert_eq!(handle_connection(ConnectionEvent::ResponseFailed), failed);
}

#[test]
fn rate_limiter_counts_each_client() {
    let mut limiter = RateLimiter::new(2);
    assert!(limiter.limits());
    assert_eq!(limiter.requests(ip(1)), 0);
    assert_eq!(rate_limit_check(&mut limiter, ip(1)), Ok(()));
    assert_eq!(rate_limit_check(&mut limiter, ip(2)), Ok(()));
    assert_eq!(rate_limit_check(&mut limiter, ip(1)), Ok(()));
    assert_eq!(rate_limit_check(&mut limiter, ip(1)), Err(ErrorStatus::TooManyRequests));
    assert_eq!(rate_limit_check(&mut limiter, ip(1)), Err(ErrorStatus::TooManyRequests));
    assert_eq!(rate_limit_check(&mut limiter, ip(2)), Ok(()));
    assert_eq!(limiter.requests(ip(1)), 4);
    assert_eq!(limiter.requests(ip(2)), 2);
    assert_eq!(limiter.requests(ip(3)), 0);
}

#[test]
fn rate_limiter_starts_over_each_minute() {
    let mut limiter = RateLimiter::new(1);
    assert_eq!(rate_limit_check(&mut limiter, ip(1)), Ok(()));
    assert_eq!(rate_limit_check(&mut limiter, ip(1)), Err(ErrorStatus::TooManyRequests));
    limiter.clear();
    assert_eq!(limiter.requests(ip(1)), 0);
    assert!(limiter.limits());
    assert_eq!(rate_limit_check(&mut limiter, ip(1)), Ok(()));
}

#[test]
fn rate_limiter_with_limit_zero_counts_and_refuses() {
    let mut limiter = RateLimiter::new(0);
    assert!(!limiter.limits());
    assert_eq!(rate_limit_check(&mut limiter, ip(1)), Err(ErrorStatus::TooManyRequests));
    assert_eq!(rate_limit_check(&mut limiter, ip(1)), Err(ErrorStatus::TooManyRequests));
    assert_eq!(limiter.requests(ip(1)), 2);
    assert_eq!(limiter.requests(ip(2)), 0);
}

#[test]
fn rate_limiter_refuses_from_the_request_after_the_limit_on() {
    let mut limiter = RateLimiter::new(3);
    for made in 0..10 {
        let expected = if made < 3 { Ok(()) } else { Err(ErrorStatus::TooManyRequests) };
        assert_eq!(rate_limit_check(&mut limiter, ip(9)), expected, "after {}", made);
        assert_eq!(limiter.requests(ip(9)), made + 1);
    }
}

#[test]
fn upstreams_start_alive() {
    let upstreams = servers(3);
    assert_eq!(upstreams.len(), 3);
    assert_eq!(upstreams.count_living(), 3);
    assert_eq!(upstreams.address(1), "10.0.0.1:80");
    assert!(upstreams.is_living(0) && upstreams.is_living(1) && upstreams.is_living(2));
    assert_eq!(servers(0).count_living(), 0);
}

#[test]
fn health_check_marks_servers_dead_and_alive() {
    let mut upstreams = servers(3);
    active_health_check(&mut upstreams, 0, HealthProbe::Responded(500));
    active_health_check(&mut upstreams, 1, HealthProbe::NoResponse);
    active_health_check(&mut upstreams, 2, HealthProbe::Responded(200));
    assert!(!upstreams.is_living(0));
    assert!(!upstreams.is_living(1));
    assert!(upstreams.is_living(2));
    active_health_check(&mut upstreams, 0, HealthProbe::Responded(200));
    active_health_check(&mut upstreams, 1, HealthProbe::Responded(201));
    assert!(upstreams.is_living(0));
    assert!(!upstreams.is_living(1));
    assert_eq!(upstreams.count_living(), 2);
}

#[test]
fn health_check_that_never_reached_the_server_changes_nothing() {
    let mut upstreams = servers(2);
    active_health_check(&mut upstreams, 1, HealthProbe::NoResponse);
    for probe in [HealthProbe::ConnectFailed, HealthProbe::RequestFailed] {
        active_health_check(&mut upstreams, 0, probe);
        active_health_check(&mut upstreams, 1, probe);
        assert!(upstreams.is_living(0));
        assert!(!upstreams.is_living(1));
    }
}

#[test]
fn nth_living_skips_the_dead() {
    let mut upstreams = servers(5);
    active_health_check(&mut upstreams, 0, HealthProbe::NoResponse);
    active_health_check(&mut upstreams, 3, HealthProbe::NoResponse);
    assert_eq!(upstreams.count_living(), 3);
    assert_eq!(upstreams.nth_living(0), 1);
    assert_eq!(upstreams.nth_living(1), 2);
    assert_eq!(upstreams.nth_living(2), 4);
}

#[test]
fn connect_to_upstream_picks_among_the_living() {
    let mut upstreams = servers(4);
    active_health_check(&mut upstreams, 2, HealthProbe::NoResponse);
    let mut seen = [false; 4];
    for _ in 0..300 {
        let picked = connect_to_upstream(&mut upstreams, None).unwrap();
        seen[picked] = true;
    }
    assert_eq!(seen, [true, true, false, true]);
    assert_eq!(upstreams.count_living(), 3);
}

#[test]
fn connect_to_upstream_gives_up_when_all_are_dead() {
    let mut upstreams = servers(3);
    let first = connect_to_upstream(&mut upstreams, None).unwrap();
    let second = connect_to_upstream(&mut upstreams, Some(first)).unwrap();
    assert!(second != first);
    assert!(!upstreams.is_living(first));
    let third = connect_to_upstream(&mut upstreams, Some(second)).unwrap();
    assert!(third != first && third != second);
    assert_eq!(connect_to_upstream(&mut upstreams, Some(third)), None);
    assert_eq!(upstreams.count_living(), 0);
    assert_eq!(connect_to_upstream(&mut upstreams, None), None);
    assert_eq!(connect_to_upstream(&mut upstreams, Some(99)), None);
    assert_eq!(connect_to_upstream(&mut servers(0), None), None);
}

#[test]
fn admit_request_answers_a_request_over_the_limit() {
    let mut limiter = RateLimiter::new(2);
    assert_eq!(admit_request(&mut limiter, ip(1)), None);
    assert_eq!(admit_request(&mut limiter, ip(1)), None);
    let over = Some(ConnectionStep { reply: Some(ErrorStatus::TooManyRequests), keep_open: true });
    assert_eq!(admit_request(&mut limiter, ip(1)), over);
    assert_eq!(admit_request(&mut limiter, ip(1)), over);
    assert_eq!(admit_request(&mut limiter, ip(2)), None);
    let mut unlimited = RateLimiter::new(0);
    for _ in 0..100 {
        assert_eq!(admit_request(&mut unlimited, ip(1)), None);
    }
    assert_eq!(unlimited.requests(ip(1)), 0);
}

#[test]
fn rate_limiter_tells_clients_apart_by_number() {
    let mut limiter = RateLimiter::new(1);
    assert_eq!(rate_limit_check(&mut limiter, 0), Ok(()));
    assert_eq!(rate_limit_check(&mut limiter, 1), Ok(()));
    assert_eq!(rate_limit_check(&mut limiter, u128::MAX), Ok(()));
    assert_eq!(rate_limit_check(&mut limiter, u128::MAX), Err(ErrorStatus::TooManyRequests));
    assert_eq!(limiter.requests(0), 1);
    assert_eq!(limiter.requests(u128::MAX), 2);
    assert_eq!(limiter.requests(2), 0);
}
