use kek::configuration::{parse_address, Address, ConfigError, Configuration, DEFAULT_PORT};

fn ip(a: u32, b: u32, c: u32, d: u32) -> u32 {
    (a << 24) | (b << 16) | (c << 8) | d
}

#[test]
fn parses_address_with_and_without_port() {
    assert_eq!(parse_address("10.0.0.1:4444"), Ok(Address { ip: ip(10, 0, 0, 1), port: 4444 }));
    assert_eq!(parse_address("127.0.0.1"), Ok(Address { ip: ip(127, 0, 0, 1), port: DEFAULT_PORT }));
    assert_eq!(DEFAULT_PORT, 80);
    assert_eq!(parse_address("255.255.255.255:65535"), Ok(Address { ip: u32::MAX, port: 65535 }));
    assert_eq!(parse_address("0.0.0.0:0"), Ok(Address { ip: 0, port: 0 }));
}

#[test]
fn rejects_malformed_addresses() {
    for bad in ["", "10.0.0", "10.0.0.1.2", "256.0.0.1", "10.0.0.01", "10.0.0.1:", "10.0.0.1:65536",
        "a.b.c.d", "10.0.0.1:80:80", "::1", "10..0.1", "10.0.0.1:123456"] {
        assert_eq!(parse_address(bad), Err(ConfigError::ConfigurationError), "{}", bad);
    }
}

fn addrs() -> Configuration {
    Configuration::new(vec![
        "10.0.0.1:4444",
        "10.0.0.1:80",
        "127.0.0.1",
        "10.0.0.1:80",
        "192.168.0.1:8080",
        "127.0.0.1:9090",
        "10.0.0.1",
    ])
    .unwrap()
}

#[test]
fn new_sorts_and_deduplicates() {
    let c = addrs();
    assert_eq!(c.replica_count(), 5);
    let expected = [
        Address { ip: ip(10, 0, 0, 1), port: 80 },
        Address { ip: ip(10, 0, 0, 1), port: 4444 },
        Address { ip: ip(127, 0, 0, 1), port: 80 },
        Address { ip: ip(127, 0, 0, 1), port: 9090 },
        Address { ip: ip(192, 168, 0, 1), port: 8080 },
    ];
    for (i, a) in expected.iter().enumerate() {
        assert_eq!(c.find_addr(i), Ok(*a));
        assert_eq!(c.get_id(a), Some(i));
    }
}

#[test]
fn new_rejects_a_malformed_entry() {
    assert!(matches!(Configuration::new(vec!["10.0.0.1", "nonsense"]), Err(ConfigError::ConfigurationError)));
}

#[test]
fn insert_sorted_places_address() {
    let mut c = addrs();
    let socket = Address { ip: ip(127, 0, 0, 1), port: 8080 };
    c.insert_sorted(socket);
    assert_eq!(c.replica_count(), 6);
    assert_eq!(c.get_id(&socket), Some(3));
    c.insert_sorted(socket);
    assert_eq!(c.replica_count(), 6);
}

#[test]
fn remove_takes_address_out() {
    let mut c = addrs();
    let socket = Address { ip: ip(127, 0, 0, 1), port: 9090 };
    c.remove(&socket);
    assert_eq!(c.replica_count(), 4);
    assert_eq!(c.get_id(&socket), None);
    c.remove(&socket);
    assert_eq!(c.replica_count(), 4);
}

#[test]
fn find_addr_out_of_range_is_unknown_replica() {
    let c = addrs();
    assert_eq!(c.find_addr(5), Err(ConfigError::UnknownReplica));
    assert_eq!(Configuration::empty().find_addr(0), Err(ConfigError::UnknownReplica));
}

#[test]
fn primary_rotates_round_robin() {
    for n in 1..=7usize {
        let mut list = Vec::new();
        let names: Vec<String> = (0..n).map(|i| format!("10.0.0.{}:1", i + 1)).collect();
        for s in &names {
            list.push(s.as_str());
        }
        let c = Configuration::new(list).unwrap();
        assert_eq!(c.replica_count(), n);
        for view in 0..(10 * n as u64) {
            assert_eq!(c.primary_id(view), (view % n as u64) as usize);
            assert_eq!(c.primary_id(view), c.primary_id(view));
        }
    }
}

#[test]
fn port_reads_like_u16() {
    let a = ip(10, 0, 0, 1);
    assert_eq!(parse_address("10.0.0.1:+80"), Ok(Address { ip: a, port: 80 }));
    assert_eq!(parse_address("10.0.0.1:000080"), Ok(Address { ip: a, port: 80 }));
    assert_eq!(parse_address("10.0.0.1:0000065535"), Ok(Address { ip: a, port: 65535 }));
    for bad in ["10.0.0.1:+", "10.0.0.1:-1", "10.0.0.1:++1", "10.0.0.1:00000065536", "10.0.0.1:8 0"] {
        assert_eq!(parse_address(bad), Err(ConfigError::ConfigurationError), "{}", bad);
    }
}
