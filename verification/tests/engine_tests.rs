use dur::{
    parse_ipv4, Backend, Config, Dur, Ip, IpAndPath, Ipv4Addr, Limits, Memory, Request,
    RequestError,
};

fn secs(n: u64) -> u64 {
    n * 1_000_000_000
}

fn no_tag() -> IpAndPath {
    IpAndPath::new(None, None)
}

#[test]
fn test_sliding_window_logs() {
    let mut dur = Dur::new(Memory::new(), None);
    dur.config.set_window_time(1);

    dur.request_at(12938102, no_tag(), 100);
    dur.request_at(12938102, no_tag(), 101);
    dur.request_at(12938102, no_tag(), 102);
    dur.request_at(12938102, no_tag(), 103);
    dur.request_at(12938102, no_tag(), 104);
    dur.request_at(12938102, no_tag(), 105);

    assert_eq!(dur.remaning_requests(12938102), 6);

    // Four seconds later the whole window has passed; the next request
    // evicts everything older and stands alone.
    dur.request_at(12938102, no_tag(), secs(4) + 106);
    assert_eq!(dur.remaning_requests(12938102), 1);
}

#[test]
fn scenario_sequential_limit() {
    // limit 5, window 100 s: five sequential requests for id 42 are all
    // admitted, the sixth is denied.
    let config = Config::new(Some(5), None, Some(100), None, None, None);
    let mut dur = Dur::new(Memory::new(), Some(config));

    for q in 1..=5u64 {
        let (allowed, count) = dur.request_at(42, no_tag(), secs(q));
        assert!(allowed);
        assert_eq!(count, q as usize);
    }
    assert_eq!(dur.remaning_requests(42), 5);

    let (allowed, count) = dur.request_at(42, no_tag(), secs(6));
    assert!(!allowed);
    assert_eq!(count, 6);
}

#[test]
fn scenario_rapid_burst_then_eviction() {
    // limit 5, window 1 s: six rapid requests for id 7 all land inside one
    // second, so the count reads 6 immediately; two seconds later one more
    // request evicts them all and the count falls to 1.
    let config = Config::new(Some(5), None, Some(1), None, None, None);
    let mut dur = Dur::new(Memory::new(), Some(config));

    for t in 10..16u64 {
        dur.request_at(7, no_tag(), t);
    }
    assert_eq!(dur.remaning_requests(7), 6);

    dur.request_at(7, no_tag(), secs(2) + 16);
    assert_eq!(dur.remaning_requests(7), 1);
}

#[test]
fn scenario_malformed_ip_rejected() {
    // A malformed IP string is refused as bad input before anything is
    // recorded; the identifier's count is unchanged.
    let mut dur = Dur::new(Memory::new(), None);

    let screened = IpAndPath::from_strings(Some("999.10.1"), None);
    assert_eq!(screened.unwrap_err(), RequestError::BadIpAddress);
    assert_eq!(dur.remaning_requests(55), 0);

    let request = Request { id: 55, path: None, ip: Some("not-an-ip".to_owned()) };
    assert_eq!(request.tag().unwrap_err(), RequestError::BadIpAddress);
    assert_eq!(dur.remaning_requests(55), 0);

    // A well-formed payload passes and is counted.
    let request = Request { id: 55, path: Some("/x".to_owned()), ip: Some("10.0.0.9".to_owned()) };
    let tag = request.tag().unwrap();
    assert_eq!(tag.ip, Some(Ipv4Addr::new(10, 0, 0, 9)));
    let (allowed, count) = dur.request_at(55, tag, secs(1));
    assert!(allowed);
    assert_eq!(count, 1);
    assert_eq!(dur.remaning_requests(55), 1);
}

#[test]
fn test_ip_guard_polarity() {
    // The watch-list guard denies while the unique-IP count is *below* the
    // configured bound, and stops denying once it reaches it.
    let limits = Limits::new(None, Some(Ip::new(vec![Ipv4Addr::new(9, 9, 9, 9)], 3, 300)));
    let config = Config::new(Some(100), None, Some(300), None, None, Some(limits));
    let mut dur = Dur::new(Memory::new(), Some(config));

    let watched = IpAndPath::from_ip_addr(Ipv4Addr::new(9, 9, 9, 9));
    let (allowed, _) = dur.request_at(1, watched.clone(), secs(1));
    assert!(!allowed);
    let (allowed, _) = dur.request_at(1, watched.clone(), secs(2));
    assert!(!allowed);
    let (allowed, _) = dur.request_at(1, watched.clone(), secs(3));
    assert!(allowed);

    // An address off the watch list is untouched by the guard.
    let other = IpAndPath::from_ip_addr(Ipv4Addr::new(8, 8, 8, 8));
    let (allowed, _) = dur.request_at(2, other, secs(1));
    assert!(allowed);
}

#[test]
fn test_remaining_quota() {
    let config = Config::new(Some(5), None, Some(100), None, None, None);
    let mut dur = Dur::new(Memory::new(), Some(config));

    assert_eq!(dur.remaining_quota(42), 5);
    dur.request_at(42, no_tag(), secs(1));
    dur.request_at(42, no_tag(), secs(2));
    assert_eq!(dur.remaining_quota(42), 3);
    for q in 3..=7u64 {
        dur.request_at(42, no_tag(), secs(q));
    }
    assert_eq!(dur.remaining_quota(42), -2);
}

#[test]
fn test_fresh_identifier_admitted() {
    // An identifier never inserted counts zero and its first request is
    // admitted.
    let mut dur = Dur::new(Memory::new(), None);
    assert_eq!(dur.remaning_requests(424242), 0);
    let (allowed, count) = dur.request_at(424242, no_tag(), secs(1));
    assert!(allowed);
    assert_eq!(count, 1);
}

#[test]
fn test_request_with_system_clock() {
    let mut dur = Dur::new(Memory::new(), None);
    let (allowed, count) = dur.request(99, no_tag());
    assert!(allowed);
    assert_eq!(count, 1);
}

#[test]
fn test_parse_ipv4_accepts() {
    assert_eq!(parse_ipv4("127.0.0.1"), Some(Ipv4Addr::new(127, 0, 0, 1)));
    assert_eq!(parse_ipv4("0.0.0.0"), Some(Ipv4Addr::new(0, 0, 0, 0)));
    assert_eq!(parse_ipv4("255.255.255.255"), Some(Ipv4Addr::new(255, 255, 255, 255)));
    assert_eq!(parse_ipv4("192.168.1.42"), Some(Ipv4Addr::new(192, 168, 1, 42)));
    assert_eq!(parse_ipv4("10.51.144.201"), Some(Ipv4Addr::new(10, 51, 144, 201)));
}

#[test]
fn test_parse_ipv4_rejects() {
    assert_eq!(parse_ipv4(""), None);
    assert_eq!(parse_ipv4("1.2.3"), None);
    assert_eq!(parse_ipv4("1.2.3.4.5"), None);
    assert_eq!(parse_ipv4("256.0.0.1"), None);
    assert_eq!(parse_ipv4("01.2.3.4"), None);
    assert_eq!(parse_ipv4("1..2.3"), None);
    assert_eq!(parse_ipv4("1.2.3."), None);
    assert_eq!(parse_ipv4(".1.2.3"), None);
    assert_eq!(parse_ipv4(" 1.2.3.4"), None);
    assert_eq!(parse_ipv4("1.2.3.4 "), None);
    assert_eq!(parse_ipv4("a.b.c.d"), None);
    assert_eq!(parse_ipv4("1234.1.1.1"), None);
}
