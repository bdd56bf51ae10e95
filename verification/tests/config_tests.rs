use dur::{Config, ConfigError, Ip, Ipv4Addr, Limits, Path};

#[test]
fn test_updating_window_log() {
    let mut config = Config::default();

    assert!(config.limit() == 50);
    assert!(config.ip_addr_limit() == 5);
    assert!(config.window_time() == 300);

    config.set_window_time(500);
    config.set_limit(100);
    config.set_ip_addr_limit(25);

    assert!(config.window_time() == 500);
    assert!(config.limit() == 100);
    assert!(config.ip_addr_limit() == 25);
}

#[test]
fn ip_test_new() {
    let ip = Ip::new(
        vec![
            Ipv4Addr::new(127, 0, 0, 1),
            Ipv4Addr::new(154, 10, 94, 111),
            Ipv4Addr::new(10, 51, 144, 201),
        ],
        300,
        400,
    );

    assert_eq!(ip.ip_addresses().unwrap()[0], Ipv4Addr::new(127, 0, 0, 1));
    assert_eq!(ip.ip_addresses().unwrap()[1], Ipv4Addr::new(154, 10, 94, 111));
    assert_eq!(ip.ip_addresses().unwrap()[2], Ipv4Addr::new(10, 51, 144, 201));
    assert_eq!(ip.limit(), Some(300));
    assert_eq!(ip.window_time(), Some(400));
}

#[test]
fn path_test_new() {
    let path = Path::new(
        vec!["test".to_owned(), "1234".to_owned(), "214141".to_owned()],
        300,
        400,
    );

    assert_eq!(path.paths().unwrap()[0], "test".to_owned());
    assert_eq!(path.paths().unwrap()[1], "1234".to_owned());
    assert_eq!(path.paths().unwrap()[2], "214141".to_owned());
    assert_eq!(path.limit(), Some(300));
    assert_eq!(path.window_time(), Some(400));
}

#[test]
fn test_config_new_defaults() {
    let config = Config::new(None, None, None, None, None, None);

    assert_eq!(config.limit(), 50);
    assert_eq!(config.ip_addr_limit(), 16);
    assert_eq!(config.window_time(), 300);
    assert_eq!(config.host_and_port(), "127.0.0.1:8000".to_owned());
    assert!(!config.limit_path_is_some());
    assert!(!config.limit_ip_is_some());
    assert_eq!(config.limited_paths(), None);
    assert_eq!(config.limited_ip_addresses(), None);
    assert_eq!(config.path_limit(), None);
    assert_eq!(config.ip_addresses_limit(), None);
}

#[test]
fn test_config_secondary_limits() {
    let limits = Limits::new(
        Some(Path::new(vec!["/admin".to_owned()], 10, 60)),
        Some(Ip::new(vec![Ipv4Addr::new(10, 0, 0, 7)], 3, 120)),
    );
    let config = Config::new(Some(40), Some(8), Some(90), None, None, Some(limits));

    assert!(config.limit_path_is_some());
    assert!(config.limit_ip_is_some());
    assert_eq!(config.limited_paths().unwrap(), vec!["/admin".to_owned()]);
    assert_eq!(config.path_limit(), Some(10));
    assert_eq!(config.path_window_time(), Some(60));
    assert_eq!(config.limited_ip_addresses().unwrap(), vec![Ipv4Addr::new(10, 0, 0, 7)]);
    assert_eq!(config.ip_addresses_limit(), Some(3));
    assert_eq!(config.ip_addresses_window_time(), Some(120));
}

#[test]
fn test_validate_zero_limit() {
    let config = Config::new(Some(0), None, Some(10), None, None, None);
    assert_eq!(config.validate(), Err(ConfigError::ZeroLimit));
}

#[test]
fn test_validate_zero_window() {
    let config = Config::new(Some(5), None, Some(0), None, None, None);
    assert_eq!(config.validate(), Err(ConfigError::ZeroWindowTime));
}

#[test]
fn test_validate_ok() {
    let config = Config::new(Some(5), None, Some(10), None, None, None);
    assert_eq!(config.validate(), Ok(()));
    assert_eq!(Config::default().validate(), Ok(()));
}

#[test]
fn test_host_and_port_explicit() {
    let config = Config::new(
        None,
        None,
        None,
        Some("9999".to_owned()),
        Some("0.0.0.0".to_owned()),
        None,
    );
    assert_eq!(config.host_and_port(), "0.0.0.0:9999".to_owned());
}
