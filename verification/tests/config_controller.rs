use gridrock::config_controller::{
    check_remove_request, config_to_proto, format_server_address, split_server_address, AddServerRequest, ConfigController,
    GetFullConfigRequest, GetServersRequest, RemoveServerRequest, ServerInfo,
};
use gridrock::config_store::{init_config_store, ConfigStore, ConfigVal};
use gridrock::errors::StatusCode;
use xxhash_rust::xxh3::xxh3_64;

fn initialized_store(addresses: &[&str]) -> ConfigStore {
    let mut store = ConfigStore::new();
    init_config_store(&mut store, addresses.iter().map(|a| a.to_string()).collect());
    store
}

fn server(address: &str, port: u32) -> ServerInfo {
    ServerInfo { server_id: String::new(), address: address.to_string(), port }
}

#[test]
fn format_and_split_server_address() {
    assert_eq!(format_server_address(&"10.0.0.1".to_string(), 50051), "10.0.0.1:50051");
    assert_eq!(split_server_address(&"10.0.0.1:50051".to_string()), ("10.0.0.1".to_string(), 50051));
    assert_eq!(split_server_address(&"[::1]:7".to_string()), ("[::1]".to_string(), 7));
    assert_eq!(split_server_address(&"host:notaport".to_string()), ("host".to_string(), 0));
    assert_eq!(split_server_address(&"host:99999999999".to_string()), ("host".to_string(), 0));
    assert_eq!(split_server_address(&"host:+12".to_string()), ("host".to_string(), 12));
    assert_eq!(split_server_address(&"noport".to_string()), ("noport".to_string(), 0));
    assert_eq!(split_server_address(&"host:".to_string()), ("host".to_string(), 0));
}

#[test]
fn config_to_proto_copies_entries() {
    let entries = vec![
        ConfigVal { tick_value: 3, address: "a".to_string() },
        ConfigVal { tick_value: 9, address: "b".to_string() },
    ];
    let proto = config_to_proto(&entries);
    assert_eq!(proto.len(), 2);
    assert_eq!((proto[0].tick_value, proto[0].address.as_str()), (3, "a"));
    assert_eq!((proto[1].tick_value, proto[1].address.as_str()), (9, "b"));
}

#[test]
fn add_server_adds_host_port_to_the_ring() {
    let mut store = initialized_store(&["a:1"]);
    let response = ConfigController
        .add_server(&mut store, AddServerRequest { server: Some(server("10.1.1.1", 9000)) })
        .ok()
        .unwrap();
    assert!(response.success);
    assert_eq!(response.message, "server added successfully");
    assert_eq!(response.config.len(), 2);
    let tick = xxh3_64(b"10.1.1.1:9000");
    assert!(response.config.iter().any(|c| c.tick_value == tick && c.address == "10.1.1.1:9000"));
    assert!(response.config.windows(2).all(|w| w[0].tick_value <= w[1].tick_value));
}

#[test]
fn add_server_without_server_is_invalid() {
    let mut store = initialized_store(&["a:1"]);
    let status = ConfigController.add_server(&mut store, AddServerRequest { server: None }).err().unwrap();
    assert_eq!(status.code, StatusCode::InvalidArgument);
    assert_eq!(status.message, "missing server field");
}

#[test]
fn handlers_need_an_initialized_store() {
    let mut store = ConfigStore::new();
    let status = ConfigController
        .add_server(&mut store, AddServerRequest { server: Some(server("h", 1)) })
        .err()
        .unwrap();
    assert_eq!(status.code, StatusCode::Internal);
    assert_eq!(status.message, "config store not initialized");
    let status = ConfigController
        .remove_server(&mut store, RemoveServerRequest { server_id: "h:1".to_string() })
        .err()
        .unwrap();
    assert_eq!(status.code, StatusCode::Internal);
    let status = ConfigController.get_full_config(&store, GetFullConfigRequest {}).err().unwrap();
    assert_eq!(status.message, "config store not initialized");
    let status = ConfigController.get_servers(&store, GetServersRequest {}).err().unwrap();
    assert_eq!(status.code, StatusCode::Internal);
}

#[test]
fn remove_server_cases() {
    let mut store = initialized_store(&["a:1", "b:2"]);
    let status = ConfigController
        .remove_server(&mut store, RemoveServerRequest { server_id: String::new() })
        .err()
        .unwrap();
    assert_eq!(status.code, StatusCode::InvalidArgument);
    assert_eq!(status.message, "server_id must not be empty");
    let status = ConfigController
        .remove_server(&mut store, RemoveServerRequest { server_id: "c:3".to_string() })
        .err()
        .unwrap();
    assert_eq!(status.code, StatusCode::NotFound);
    assert_eq!(status.message, "no server found with id/address 'c:3'");
    let response = ConfigController
        .remove_server(&mut store, RemoveServerRequest { server_id: "a:1".to_string() })
        .ok()
        .unwrap();
    assert!(response.success);
    assert_eq!(response.message, "server 'a:1' removed successfully");
    assert_eq!(response.config.len(), 1);
    assert_eq!(response.config[0].address, "b:2");
}

#[test]
fn get_full_config_reports_the_ring() {
    let store = initialized_store(&["a:1", "b:2", "c:3"]);
    let response = ConfigController.get_full_config(&store, GetFullConfigRequest {}).ok().unwrap();
    assert!(response.success);
    assert_eq!(response.message, "full config retrieved");
    assert_eq!(response.config.len(), 3);
}

#[test]
fn get_servers_splits_addresses() {
    let mut store = initialized_store(&["a:1"]);
    ConfigController
        .add_server(&mut store, AddServerRequest { server: Some(server("::1", 50051)) })
        .ok()
        .unwrap();
    let response = ConfigController.get_servers(&store, GetServersRequest {}).ok().unwrap();
    assert_eq!(response.servers.len(), 2);
    let v6 = response.servers.iter().find(|s| s.server_id == "::1:50051").unwrap();
    assert_eq!(v6.address, "::1");
    assert_eq!(v6.port, 50051);
    let a = response.servers.iter().find(|s| s.server_id == "a:1").unwrap();
    assert_eq!((a.address.as_str(), a.port), ("a", 1));
}

#[test]
fn removal_requests_need_a_server_id() {
    let status = check_remove_request(&RemoveServerRequest { server_id: String::new() }).err().unwrap();
    assert_eq!(status.code, StatusCode::InvalidArgument);
    assert_eq!(status.message, "server_id must not be empty");
    assert!(check_remove_request(&RemoveServerRequest { server_id: "a:1".to_string() }).is_ok());
}
