use open_db_viewer::manager::{driver_for_id, ActiveConnection, ConnectionManager, DriverChoice};

#[test]
fn test_connection_manager_new() {
    let manager = ConnectionManager::<(), ()>::new();
    assert_eq!(manager.len(), 0);
}

#[test]
fn test_disconnect_not_found() {
    let mut manager = ConnectionManager::<(), ()>::new();
    let result = manager.disconnect("non_existent_id");
    assert!(result.is_err());
    assert_eq!(result.unwrap_err(), "Connection not found");
}

#[test]
fn test_get_relational_not_found() {
    let manager = ConnectionManager::<(), ()>::new();
    let result = manager.get_relational("non_existent_id");
    assert!(result.is_err());
}

#[test]
fn test_get_key_value_not_found() {
    let manager = ConnectionManager::<(), ()>::new();
    let result = manager.get_key_value("non_existent_id");
    assert!(result.is_err());
}

#[test]
fn register_lookup_and_disconnect() {
    let mut m = ConnectionManager::<u32, &str>::new();
    m.register("pg".to_string(), ActiveConnection::Relational(7));
    m.register("kv".to_string(), ActiveConnection::KeyValue("r"));
    assert_eq!(m.len(), 2);
    assert_eq!(m.get_relational("pg"), Ok(&7));
    assert_eq!(m.get_key_value("kv"), Ok(&"r"));
    assert_eq!(m.get_relational("kv").unwrap_err(), "Not a relational connection");
    assert_eq!(m.get_key_value("pg").unwrap_err(), "Not a key-value connection");
    m.register("pg".to_string(), ActiveConnection::Relational(8));
    assert_eq!(m.len(), 2);
    assert_eq!(m.get_relational("pg"), Ok(&8));
    assert_eq!(m.disconnect("pg"), Ok(()));
    assert_eq!(m.get_relational("pg").unwrap_err(), "Connection not found");
    assert_eq!(m.disconnect("pg").unwrap_err(), "Connection not found");
    assert_eq!(m.len(), 1);
}

#[test]
fn driver_ids() {
    assert_eq!(driver_for_id("postgres"), Ok(DriverChoice::Postgres));
    assert_eq!(driver_for_id("redis"), Ok(DriverChoice::Redis));
    assert_eq!(driver_for_id("mysql"), Err("Unsupported driver: mysql".to_string()));
}
