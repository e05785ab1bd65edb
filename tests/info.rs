use redis_starter_rust::cli::Cli;
use redis_starter_rust::config::Config;
use redis_starter_rust::info::{Info, Replication, DEFAULT_MASTER_REPLID};
use redis_starter_rust::store::Store;

#[test]
fn test_info_default() {
    let info = Info::default();
    assert_eq!(info.self_host, "127.0.0.1");
    assert_eq!(info.self_port, 6379);
    assert_eq!(info.replication.role, "master");
    assert_eq!(info.replication.replication_of_host, None);
    assert_eq!(info.replication.replication_of_port, None);
}

#[test]
fn test_info_new() {
    let info = Info::new("127.0.0.1".to_string(), 6380, Replication::default());
    assert_eq!(info.self_host, "127.0.0.1");
    assert_eq!(info.self_port, 6380);
    assert_eq!(info.replication.role, "master");
    assert_eq!(info.replication.replication_of_host, None);
    assert_eq!(info.replication.replication_of_port, None);
}

#[test]
fn test_info_write() {
    let info = Info {
        self_host: "localhost".to_string(),
        self_port: 1234,
        replication: Replication {
            role: "slave".to_string(),
            master_replid: None,
            master_repl_offset: None,
            replication_of_host: Some("master.host".to_string()),
            replication_of_port: Some(5678),
        },
    };
    let mut store = Store::new();
    info.write(&mut store, 0);

    let saved_info = Info::from_store(&store, 0).unwrap();
    assert!(saved_info == info);
}

#[test]
fn info_from_empty_store_is_a_leader() {
    let store = Store::new();
    let info = Info::from_store(&store, 0).unwrap();
    assert_eq!(info.self_host, "127.0.0.1");
    assert_eq!(info.self_port, 6379);
    assert_eq!(info.replication.role, "master");
    assert_eq!(info.replication.master_replid.as_deref(), Some(DEFAULT_MASTER_REPLID));
    assert_eq!(info.replication.master_repl_offset, Some(0));
    assert!(!info.is_replica());
}

#[test]
fn info_with_bad_port_is_an_error() {
    let mut store = Store::new();
    store.set_with_default_expiry(b"INFO:SELF_PORT".to_vec(), b"70000".to_vec(), 0);
    assert!(Info::from_store(&store, 0).is_err());
}

#[test]
fn info_bind_address() {
    let info = Info::new("localhost".to_string(), 6380, Replication::default());
    assert_eq!(info.bind_address(), "localhost:6380");
}

#[test]
fn master_address_needs_host_and_port() {
    let mut r = Replication::default();
    assert_eq!(r.master_address(), None);
    r.replication_of_host = Some("leader".to_string());
    r.replication_of_port = Some(7000);
    assert_eq!(r.master_address(), Some("leader:7000".to_string()));
}

#[test]
fn info_builder_keeps_given_fields() {
    let info = Info::builder()
        .self_port(Some(7001))
        .self_port(None)
        .replication_role(Some("slave".to_string()))
        .replication_of_host(Some("h".to_string()))
        .replication_of_port(Some(9))
        .build();
    assert_eq!(info.self_host, "127.0.0.1");
    assert_eq!(info.self_port, 7001);
    assert_eq!(info.replication.role, "slave");
    assert_eq!(info.replication.replication_of_host, Some("h".to_string()));
    assert_eq!(info.replication.replication_of_port, Some(9));
    assert!(info.is_replica());
}

#[test]
fn config_bind_address() {
    assert_eq!(Config::default().bind_address(), "127.0.0.1:6379");
}

#[test]
fn test_to_info() {
    let cli = Cli {
        port: 1234,
        replicaof: Some(vec!["host.com".to_string(), "4321".to_string()]),
    };
    let info = cli.to_info();
    assert_eq!(info.self_port, 1234);
    assert_eq!(info.replication.replication_of_host, Some("host.com".to_string()));
    assert_eq!(info.replication.replication_of_port, Some(4321));
    assert_eq!(info.replication.role, "slave");
}
