use open_db_viewer::api::{CellValue, ConnectionConfig};
use open_db_viewer::profiles::{
    batch_preamble, csv_header_line, csv_row_line, escape_csv_field, export_epilogue, export_format,
    export_start, json_row_chunk, newest_first, profile_response, remove_profile, remove_snippet,
    split_off_password, upsert_profile, upsert_snippet, ConnectionProfile, ExportFormat, HistoryEntry,
    Snippet,
};

fn profile(id: &str, name: &str) -> ConnectionProfile {
    ConnectionProfile {
        driver_id: "postgres".into(),
        name: name.into(),
        config: ConnectionConfig { id: id.into(), host: "h".into(), port: 5432, user: None, db_name: None, password: None },
    }
}

#[test]
fn profiles_upsert_and_remove() {
    let mut ps = vec![profile("1", "one"), profile("2", "two")];
    upsert_profile(&mut ps, profile("2", "TWO"));
    upsert_profile(&mut ps, profile("3", "three"));
    assert_eq!(ps.iter().map(|p| p.name.as_str()).collect::<Vec<_>>(), vec!["one", "TWO", "three"]);
    let ps = remove_profile(ps, "1");
    assert_eq!(ps.iter().map(|p| p.config.id.as_str()).collect::<Vec<_>>(), vec!["2", "3"]);
    let resp = profile_response(profile("9", "n"), true);
    assert!(resp.has_password_saved);
    assert_eq!(resp.name, "n");
}

#[test]
fn password_split() {
    let mut c = profile("1", "x").config;
    c.password = Some("pw".into());
    let (clean, pw) = split_off_password(c);
    assert_eq!(clean.password, None);
    assert_eq!(pw, Some("pw".to_string()));
    let mut c = profile("1", "x").config;
    c.password = Some(String::new());
    assert_eq!(split_off_password(c).1, None);
}

#[test]
fn snippets() {
    let mut s = vec![Snippet { name: "a".into(), sql: "1".into() }];
    upsert_snippet(&mut s, "b".into(), "2".into());
    upsert_snippet(&mut s, "a".into(), "3".into());
    assert_eq!(s.iter().map(|x| (x.name.as_str(), x.sql.as_str())).collect::<Vec<_>>(), vec![("a", "3"), ("b", "2")]);
    let s = remove_snippet(s, "a");
    assert_eq!(s.len(), 1);
    assert_eq!(s[0].name, "b");
}

#[test]
fn history_order() {
    let e = |t: &str| HistoryEntry { timestamp: t.into(), sql: "s".into(), duration_ms: 1, status: "ok".into() };
    let h = newest_first(vec![e("1"), e("2"), e("3")]);
    assert_eq!(h.iter().map(|x| x.timestamp.as_str()).collect::<Vec<_>>(), vec!["3", "2", "1"]);
    assert!(newest_first(vec![]).is_empty());
}

#[test]
fn csv() {
    assert_eq!(escape_csv_field(&CellValue::Null), "");
    assert_eq!(escape_csv_field(&CellValue::Text("plain".into())), "plain");
    assert_eq!(escape_csv_field(&CellValue::Text("a,b".into())), "\"a,b\"");
    assert_eq!(escape_csv_field(&CellValue::Text("say \"hi\"".into())), "\"say \"\"hi\"\"\"");
    assert_eq!(escape_csv_field(&CellValue::Text("l1\nl2".into())), "\"l1\nl2\"");
    assert_eq!(escape_csv_field(&CellValue::Json("12.5".into())), "12.5");
    assert_eq!(csv_header_line(&vec!["id".into(), "name".into()]), "id,name\n");
    assert_eq!(csv_row_line(&vec![CellValue::Json("1".into()), CellValue::Null, CellValue::Text("x,y".into())]), "1,,\"x,y\"\n");
}

#[test]
fn json_export_framing() {
    let names = vec!["a".to_string()];
    let mut st = export_start();
    let mut out = String::new();
    out += &batch_preamble(&mut st, ExportFormat::Json, &names);
    out += &json_row_chunk(&mut st, "{\"a\":1}");
    out += &batch_preamble(&mut st, ExportFormat::Json, &names);
    out += &json_row_chunk(&mut st, "{\"a\":2}");
    out += &export_epilogue(&st, ExportFormat::Json);
    assert_eq!(out, "[\n{\"a\":1},\n{\"a\":2}\n]\n");

    let empty = export_start();
    assert_eq!(export_epilogue(&empty, ExportFormat::Json), "[\n\n]\n");
    assert_eq!(export_epilogue(&empty, ExportFormat::Csv), "");

    let mut csv = export_start();
    assert_eq!(batch_preamble(&mut csv, ExportFormat::Csv, &names), "a\n");
    assert_eq!(batch_preamble(&mut csv, ExportFormat::Csv, &names), "");
    assert_eq!(export_format("csv"), ExportFormat::Csv);
    assert_eq!(export_format("json"), ExportFormat::Json);
    assert_eq!(export_format("xlsx"), ExportFormat::Other);
}

#[test]
fn saved_profile_is_found_and_ids_stay_unique() {
    let mut ps = vec![profile("1", "one"), profile("2", "two")];
    upsert_profile(&mut ps, profile("1", "ONE"));
    upsert_profile(&mut ps, profile("4", "four"));
    let found = ps.iter().find(|p| p.config.id == "1").unwrap();
    assert_eq!(found.name, "ONE");
    let mut ids: Vec<&str> = ps.iter().map(|p| p.config.id.as_str()).collect();
    ids.sort();
    ids.dedup();
    assert_eq!(ids.len(), ps.len());
    assert_eq!(ps[1].name, "two");
}

#[test]
fn saved_profiles_hold_no_password() {
    let mut ps = vec![profile("1", "one")];
    let mut c = profile("2", "two").config;
    c.password = Some("secret".into());
    let (clean, _) = split_off_password(c);
    upsert_profile(&mut ps, ConnectionProfile { driver_id: "postgres".into(), name: "two".into(), config: clean });
    assert!(ps.iter().all(|p| p.config.password.is_none()));
}

#[test]
fn delete_removes_only_that_connection() {
    let ps = vec![profile("1", "a"), profile("2", "b"), profile("1", "c"), profile("3", "d")];
    let ps = remove_profile(ps, "1");
    assert_eq!(ps.iter().map(|p| p.name.as_str()).collect::<Vec<_>>(), vec!["b", "d"]);
}

#[test]
fn saved_snippet_is_found_and_names_stay_unique() {
    let mut s = vec![Snippet { name: "a".into(), sql: "1".into() }, Snippet { name: "b".into(), sql: "2".into() }];
    upsert_snippet(&mut s, "b".into(), "9".into());
    upsert_snippet(&mut s, "c".into(), "3".into());
    assert_eq!(s.iter().find(|x| x.name == "b").unwrap().sql, "9");
    assert_eq!(s.len(), 3);
}
