use dur::{Backend, IpAndPath, Ipv4Addr, Memory};

fn secs(n: u64) -> u64 {
    n * 1_000_000_000
}

#[test]
fn test_insert() {
    let mut mem = Memory::new();

    assert!(mem.insert(1234859, secs(1), IpAndPath::new(None, None)).is_ok());
}

#[test]
fn test_insert_multiple() {
    let mut mem = Memory::new();

    assert!(mem.insert(12348591, secs(1), IpAndPath::new(None, None)).is_ok());
    assert!(mem.insert(12348591, secs(2), IpAndPath::new(None, None)).is_ok());
    assert!(mem.insert(12348591, secs(3), IpAndPath::new(None, None)).is_ok());
    assert!(mem.insert(12348591, secs(4), IpAndPath::new(None, None)).is_ok());
    assert!(mem.insert(12348591, secs(5), IpAndPath::new(None, None)).is_ok());
}

#[test]
fn test_len_and_cleanup() {
    let mut mem = Memory::new();

    assert_eq!(mem.len(), 0);

    assert!(mem.insert(12348591, secs(1), IpAndPath::new(None, None)).is_ok());
    assert!(mem.insert(12348591, secs(2), IpAndPath::new(None, None)).is_ok());
    assert!(mem.insert(12348591, secs(3), IpAndPath::new(None, None)).is_ok());
    assert!(mem.insert(12348591, secs(4), IpAndPath::new(None, None)).is_ok());
    assert!(mem.insert(12348591, secs(5), IpAndPath::new(None, None)).is_ok());

    assert!(mem.insert(12348591, secs(6), IpAndPath::new(None, None)).is_ok());
    assert!(mem.insert(12348591, secs(7), IpAndPath::new(None, None)).is_ok());
    assert!(mem.insert(12348591, secs(8), IpAndPath::new(None, None)).is_ok());

    mem.clear();
    assert_eq!(mem.len(), 0);
}

#[test]
fn test_request_count() {
    let mut mem = Memory::new();

    assert_eq!(mem.len(), 0);

    assert!(mem.insert(12348591, secs(1), IpAndPath::new(None, None)).is_ok());
    assert!(mem.insert(12348591, secs(2), IpAndPath::new(None, None)).is_ok());
    assert!(mem.insert(12348591, secs(3), IpAndPath::new(None, None)).is_ok());
    assert!(mem.insert(12348591, secs(4), IpAndPath::new(None, None)).is_ok());
    assert!(mem.insert(12348591, secs(5), IpAndPath::new(None, None)).is_ok());

    assert!(mem.insert(12384, secs(1), IpAndPath::new(None, None)).is_ok());
    assert!(mem.insert(12384, secs(2), IpAndPath::new(None, None)).is_ok());
    assert!(mem.insert(12384, secs(3), IpAndPath::new(None, None)).is_ok());

    assert_eq!(mem.request_count(12348591), 5);
    assert_eq!(mem.request_count(12384), 3);

    mem.clear();
    assert_eq!(mem.len(), 0);

    assert_eq!(mem.request_count(12348591), 0);
    assert_eq!(mem.request_count(12384), 0);
}

#[test]
fn test_unique_ip_addresses() {
    let mut mem = Memory::new();

    assert_eq!(mem.len(), 0);

    assert!(mem
        .insert(12348591, secs(1), IpAndPath::from_ip_addr(Ipv4Addr::new(127, 0, 0, 1)))
        .is_ok());
    assert!(mem
        .insert(12348591, secs(2), IpAndPath::from_ip_addr(Ipv4Addr::new(127, 0, 0, 1)))
        .is_ok());
    assert!(mem
        .insert(12348591, secs(3), IpAndPath::from_ip_addr(Ipv4Addr::new(127, 0, 0, 1)))
        .is_ok());
    assert!(mem
        .insert(12348591, secs(4), IpAndPath::from_ip_addr(Ipv4Addr::new(127, 0, 0, 1)))
        .is_ok());
    assert!(mem
        .insert(12348591, secs(5), IpAndPath::from_ip_addr(Ipv4Addr::new(127, 0, 0, 1)))
        .is_ok());

    assert_eq!(mem.unique_ip_addresses(12348591), 5);
}

#[test]
fn test_insert_same_timestamp_overwrites() {
    let mut mem = Memory::new();

    assert_eq!(mem.insert(77, secs(1), IpAndPath::new(None, None)).unwrap(), 1);
    assert_eq!(mem.insert(77, secs(1), IpAndPath::new(None, None)).unwrap(), 1);
    assert_eq!(mem.insert(77, secs(1) + 1, IpAndPath::new(None, None)).unwrap(), 2);
    assert_eq!(mem.request_count(77), 2);
}

#[test]
fn test_evict_boundary() {
    let mut mem = Memory::new();

    // Entries at 1 s, 5 s, and 9 s; at 10 s with a 5 s window the entry
    // aged 9 s goes, the one aged exactly 5 s stays.
    assert!(mem.insert(5050, secs(1), IpAndPath::new(None, None)).is_ok());
    assert!(mem.insert(5050, secs(5), IpAndPath::new(None, None)).is_ok());
    assert!(mem.insert(5050, secs(9), IpAndPath::new(None, None)).is_ok());
    assert_eq!(mem.request_count(5050), 3);

    mem.evict_older_timestamps(5050, secs(10), 5);
    assert_eq!(mem.request_count(5050), 2);

    mem.evict_older_timestamps(5050, secs(10), 1);
    assert_eq!(mem.request_count(5050), 1);
}

#[test]
fn test_clear_idempotent() {
    let mut mem = Memory::new();

    assert!(mem.insert(31, secs(1), IpAndPath::new(None, None)).is_ok());
    assert!(mem.insert(32, secs(1), IpAndPath::new(None, None)).is_ok());
    assert_eq!(mem.len(), 2);

    mem.clear();
    assert_eq!(mem.len(), 0);
    assert_eq!(mem.request_count(31), 0);
    assert_eq!(mem.request_count(32), 0);

    mem.clear();
    assert_eq!(mem.len(), 0);
    assert_eq!(mem.request_count(31), 0);
}
