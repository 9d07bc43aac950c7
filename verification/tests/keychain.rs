use open_db_viewer::api::ConnectionConfig;
use open_db_viewer::keychain::{
    delete_db_password, get_db_password, has_db_password, needs_saved_password, resolve_config_password,
    set_db_password,
    PasswordStore,
};

#[test]
fn store_roundtrip() {
    let mut s = PasswordStore::new();
    assert_eq!(get_db_password(&s, "a"), Err("No entry".to_string()));
    assert!(!has_db_password(&s, "a"));
    set_db_password(&mut s, "a", "pw1");
    set_db_password(&mut s, "b", "pw2");
    set_db_password(&mut s, "a", "pw3");
    assert_eq!(get_db_password(&s, "a"), Ok("pw3".to_string()));
    assert!(has_db_password(&s, "b"));
    delete_db_password(&mut s, "a");
    assert_eq!(get_db_password(&s, "a"), Err("No entry".to_string()));
    delete_db_password(&mut s, "a");
    let pairs = s.into_pairs();
    assert_eq!(pairs, vec![("b".to_string(), "pw2".to_string())]);
    let again = PasswordStore::from_pairs(vec![("x".into(), "1".into()), ("x".into(), "2".into())]);
    assert_eq!(get_db_password(&again, "x"), Ok("2".to_string()));
}

fn config(password: Option<&str>) -> ConnectionConfig {
    ConnectionConfig {
        id: "c".into(),
        host: "h".into(),
        port: 1,
        user: None,
        db_name: None,
        password: password.map(|p| p.to_string()),
    }
}

#[test]
fn resolving_passwords() {
    let r = resolve_config_password(config(None), Ok("saved".into()));
    assert_eq!(r.password, Some("saved".to_string()));
    let r = resolve_config_password(config(Some("")), Ok("saved".into()));
    assert_eq!(r.password, Some("saved".to_string()));
    let r = resolve_config_password(config(Some("own")), Ok("saved".into()));
    assert_eq!(r.password, Some("own".to_string()));
    let r = resolve_config_password(config(None), Err("No entry".into()));
    assert_eq!(r.password, None);
}

#[test]
fn saved_password_needed_only_without_own() {
    assert!(needs_saved_password(&config(None)));
    assert!(needs_saved_password(&config(Some(""))));
    assert!(!needs_saved_password(&config(Some("pw"))));
}
