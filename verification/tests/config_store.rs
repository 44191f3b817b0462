use gridrock::config_store::{
    get_config_store, hashing_function, init_config_store, try_init_config_store, Config, ConfigStore, ConfigVal,
};
use xxhash_rust::xxh3::xxh3_64;

fn val(tick: u64, address: &str) -> ConfigVal {
    ConfigVal { tick_value: tick, address: address.to_string() }
}

fn ticks(config: &Config) -> Vec<(u64, String)> {
    config.get_entries().iter().map(|v| (v.tick_value, v.address.clone())).collect()
}

#[test]
fn hashing_function_is_xxh3_of_the_bytes() {
    assert_eq!(hashing_function("192.168.1.1".to_string()), xxh3_64(b"192.168.1.1"));
    assert_eq!(hashing_function(String::new()), 0x2D06800538D394C2);
    assert_ne!(hashing_function("a".to_string()), hashing_function("b".to_string()));
}

#[test]
fn config_val_new_hashes_the_address() {
    let v = ConfigVal::new("10.0.0.25:8080".to_string());
    assert_eq!(v.address, "10.0.0.25:8080");
    assert_eq!(v.tick_value, xxh3_64(b"10.0.0.25:8080"));
}

#[test]
fn new_sorts_by_tick_keeping_equal_ticks_in_order() {
    let config = Config::new(vec![val(30, "c"), val(10, "a"), val(20, "b1"), val(20, "b2"), val(5, "z")]);
    assert_eq!(
        ticks(&config),
        vec![
            (5, "z".to_string()),
            (10, "a".to_string()),
            (20, "b1".to_string()),
            (20, "b2".to_string()),
            (30, "c".to_string())
        ]
    );
}

#[test]
fn find_nearest_picks_first_tick_at_least_key_and_wraps() {
    let config = Config::new(vec![val(100, "s1"), val(200, "s2"), val(300, "s3")]);
    assert_eq!(config.find_nearest(0), Some("s1"));
    assert_eq!(config.find_nearest(100), Some("s1"));
    assert_eq!(config.find_nearest(101), Some("s2"));
    assert_eq!(config.find_nearest(300), Some("s3"));
    assert_eq!(config.find_nearest(301), Some("s1"));
    assert_eq!(config.find_nearest(u64::MAX), Some("s1"));
}

#[test]
fn find_nearest_on_empty_ring_is_none() {
    let config = Config::new(Vec::new());
    assert_eq!(config.find_nearest(42), None);
}

#[test]
fn add_entry_inserts_in_order_before_equal_ticks() {
    let mut config = Config::new(vec![val(100, "s1"), val(300, "s3")]);
    config.add_entry(val(200, "s2"));
    config.add_entry(val(300, "s0"));
    assert_eq!(
        ticks(&config),
        vec![(100, "s1".to_string()), (200, "s2".to_string()), (300, "s0".to_string()), (300, "s3".to_string())]
    );
}

#[test]
fn adding_a_server_moves_keys_only_to_it() {
    let mut config = Config::new(vec![val(100, "s1"), val(300, "s3")]);
    let keys = [0u64, 50, 100, 150, 250, 300, 350];
    let before: Vec<String> = keys.iter().map(|k| config.find_nearest(*k).unwrap().to_string()).collect();
    config.add_entry(val(200, "new"));
    for (i, k) in keys.iter().enumerate() {
        let now = config.find_nearest(*k).unwrap();
        assert!(now == before[i] || now == "new");
    }
    assert_eq!(config.find_nearest(150), Some("new"));
    assert_eq!(config.find_nearest(250), Some("s3"));
}

#[test]
fn update_config_extends_and_resorts() {
    let mut config = Config::new(vec![val(100, "a"), val(300, "c")]);
    config.update_config(vec![val(200, "b"), val(100, "a2"), val(50, "z")]);
    assert_eq!(
        ticks(&config),
        vec![
            (50, "z".to_string()),
            (100, "a".to_string()),
            (100, "a2".to_string()),
            (200, "b".to_string()),
            (300, "c".to_string())
        ]
    );
}

#[test]
fn from_addresses_hashes_and_sorts() {
    let addresses = vec!["192.168.1.1".to_string(), "10.0.0.25".to_string(), "8.8.8.8".to_string()];
    let config = Config::from_addresses(addresses.clone());
    let mut expected: Vec<(u64, String)> = addresses.iter().map(|a| (xxh3_64(a.as_bytes()), a.clone())).collect();
    expected.sort_by_key(|e| e.0);
    assert_eq!(ticks(&config), expected);
}

#[test]
fn remove_entry_drops_every_point_of_the_address() {
    let mut config = Config::new(vec![val(100, "a"), val(200, "b"), val(300, "a"), val(400, "c")]);
    assert!(config.remove_entry(&"a".to_string()));
    assert_eq!(ticks(&config), vec![(200, "b".to_string()), (400, "c".to_string())]);
    assert!(!config.remove_entry(&"a".to_string()));
    assert_eq!(ticks(&config), vec![(200, "b".to_string()), (400, "c".to_string())]);
}

#[test]
fn removing_a_server_keeps_other_servers_keys() {
    let mut config = Config::new(vec![val(100, "a"), val(200, "b"), val(300, "c")]);
    assert_eq!(config.find_nearest(250), Some("c"));
    assert_eq!(config.find_nearest(150), Some("b"));
    config.remove_entry(&"b".to_string());
    assert_eq!(config.find_nearest(250), Some("c"));
    assert_eq!(config.find_nearest(150), Some("c"));
    assert_eq!(config.find_nearest(350), Some("a"));
}

#[test]
fn unique_addresses_in_ring_order() {
    let config = Config::new(vec![val(100, "a"), val(200, "b"), val(300, "a"), val(400, "c"), val(500, "b")]);
    assert_eq!(config.get_unique_addresses(), vec!["a".to_string(), "b".to_string(), "c".to_string()]);
}

#[test]
fn config_store_starts_empty_and_keeps_the_ring() {
    let mut store = ConfigStore::new();
    assert!(!store.is_initialized());
    assert!(get_config_store(&store).is_none());
    init_config_store(&mut store, vec!["h1:1".to_string(), "h2:2".to_string()]);
    assert!(store.is_initialized());
    let config = get_config_store(&store).unwrap();
    assert_eq!(config.get_entries().len(), 2);
    let t1 = xxh3_64(b"h1:1");
    assert!(config.get_entries().iter().any(|v| v.tick_value == t1 && v.address == "h1:1"));
}

#[test]
fn a_second_initialisation_keeps_the_first_ring() {
    let mut store = ConfigStore::new();
    assert!(try_init_config_store(&mut store, vec!["a:1".to_string()]));
    assert!(!try_init_config_store(&mut store, vec!["b:2".to_string(), "c:3".to_string()]));
    let config = get_config_store(&store).unwrap();
    assert_eq!(config.get_entries().len(), 1);
    assert_eq!(config.get_entries()[0].address, "a:1");
}
