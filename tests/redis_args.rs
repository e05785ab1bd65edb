use redis_starter_rust::redis_args::RedisArgs;

#[test]
fn without_args() {
    let args = RedisArgs::parse(vec!["self".to_string()]).unwrap();
    assert_eq!(args, RedisArgs::default());
}

#[test]
fn with_port_arg() {
    let args = RedisArgs::parse(vec![
        "self".to_string(),
        "--port".to_string(),
        "1234".to_string(),
    ])
    .unwrap();
    assert_eq!(args.port, Some(1234));
    assert_eq!(args.replicaof, None);
}

#[test]
fn with_replicaof_arg() {
    let args = RedisArgs::parse(vec![
        "self".to_string(),
        "--replicaof".to_string(),
        "host.com".to_string(),
        "1234".to_string(),
    ])
    .unwrap();
    assert_eq!(args.port, None);
    assert_eq!(args.replicaof, Some(("host.com".to_string(), 1234)));
}

#[test]
fn with_port_and_replicaof_args() {
    let args = RedisArgs::parse(vec![
        "self".to_string(),
        "--port".to_string(),
        "1234".to_string(),
        "--replicaof".to_string(),
        "host.com".to_string(),
        "5678".to_string(),
    ])
    .unwrap();
    assert_eq!(args.port, Some(1234));
    assert_eq!(args.replicaof, Some(("host.com".to_string(), 5678)));
}

#[test]
fn with_port_and_replicaof_args_with_invalid_port() {
    let args = RedisArgs::parse(vec![
        "self".to_string(),
        "--port".to_string(),
        "1234".to_string(),
        "--replicaof".to_string(),
        "host.com".to_string(),
        "invalid".to_string(),
    ]);
    assert!(args.is_err());
}

#[test]
fn with_invalid_port_and_replicaof_args_with_valid_replicaof_port() {
    let args = RedisArgs::parse(vec![
        "self".to_string(),
        "--port".to_string(),
        "invalid".to_string(),
        "--replicaof".to_string(),
        "host.com".to_string(),
        "invalid".to_string(),
    ]);
    assert!(args.is_err());
}

#[test]
fn port_without_value_is_an_error() {
    assert!(RedisArgs::parse(vec!["self".to_string(), "--port".to_string()]).is_err());
    assert!(RedisArgs::parse(vec![
        "self".to_string(),
        "--replicaof".to_string(),
        "h".to_string()
    ])
    .is_err());
}

#[test]
fn port_out_of_range_is_an_error() {
    assert!(RedisArgs::parse(vec!["self".to_string(), "--port".to_string(), "65536".to_string()]).is_err());
    let args = RedisArgs::parse(vec!["self".to_string(), "--port".to_string(), "65535".to_string()]).unwrap();
    assert_eq!(args.port, Some(65535));
}

#[test]
fn args_to_info() {
    let leader = RedisArgs::parse(vec!["self".to_string(), "--port".to_string(), "7000".to_string()])
        .unwrap()
        .to_info();
    assert_eq!(leader.self_port, 7000);
    assert_eq!(leader.replication.role, "master");
    assert!(leader.replication.master_replid.is_some());
    let follower = RedisArgs::parse(vec![
        "self".to_string(),
        "--replicaof".to_string(),
        "host.com".to_string(),
        "5678".to_string(),
    ])
    .unwrap()
    .to_info();
    assert_eq!(follower.self_port, 6379);
    assert_eq!(follower.replication.role, "slave");
    assert_eq!(follower.replication.replication_of_port, Some(5678));
}
