use open_db_viewer::query_run::{query_run_start, query_run_step, QueryAction, QueryEvent};
use open_db_viewer::error::{category_for_sql_state, server_error, DatabaseError, ErrorCategory};
use open_db_viewer::keyed::KeyedList;
use open_db_viewer::text::{chars_of, push_decimal, push_signed_decimal, trim_chars};

#[test]
fn database_error() {
    let e = DatabaseError::new("bad".to_string());
    assert_eq!(e.message, "bad");
    assert_eq!(e.category, ErrorCategory::Unknown);
    assert!(e.sql_state.is_none() && e.position.is_none() && e.severity.is_none() && e.detail.is_none());
    assert_eq!(e.to_string(), "bad");
    let f: DatabaseError = String::from("conv").into();
    assert_eq!(f, DatabaseError::new("conv".to_string()));
}

#[test]
fn numerals_and_trimming() {
    let mut s = String::new();
    push_decimal(&mut s, 0);
    s.push(' ');
    push_decimal(&mut s, 18446744073709551615);
    s.push(' ');
    push_signed_decimal(&mut s, i32::MIN);
    assert_eq!(s, "0 18446744073709551615 -2147483648");
    let t: String = trim_chars(&chars_of("\u{3000} \t x y\u{a0}\n")).into_iter().collect();
    assert_eq!(t, "x y");
}

#[test]
fn keyed_list() {
    let mut l: KeyedList<u8> = KeyedList::new();
    l.insert("a".into(), 1);
    l.insert("b".into(), 2);
    l.insert("a".into(), 3);
    assert_eq!(l.len(), 2);
    assert_eq!(l.get("a"), Some(&3));
    assert_eq!(l.take("a"), Some(3));
    assert_eq!(l.take("a"), None);
    assert_eq!(l.len(), 1);
    l.clear();
    assert_eq!(l.get("b"), None);
}

#[test]
fn sql_state_categories() {
    assert_eq!(category_for_sql_state("57014"), ErrorCategory::ExecutionCanceled);
    assert_eq!(category_for_sql_state("57P01"), ErrorCategory::ConnectionLost);
    assert_eq!(category_for_sql_state("25P02"), ErrorCategory::TransactionAborted);
    assert_eq!(category_for_sql_state("42501"), ErrorCategory::PermissionDenied);
    assert_eq!(category_for_sql_state("42601"), ErrorCategory::SyntaxError);
    assert_eq!(category_for_sql_state("23505"), ErrorCategory::UniqueKeyViolation);
    assert_eq!(category_for_sql_state("23503"), ErrorCategory::IntegrityConstraintViolation);
    assert_eq!(category_for_sql_state("28P01"), ErrorCategory::AuthenticationFailed);
    assert_eq!(category_for_sql_state("08006"), ErrorCategory::ConnectionFailure);
    assert_eq!(category_for_sql_state("XX000"), ErrorCategory::Unknown);
    let e = server_error("m".into(), Some("42P01".into()), Some(3), None, None);
    assert_eq!(e.category, ErrorCategory::SyntaxError);
    assert_eq!(e.position, Some(3));
    assert_eq!(server_error("m".into(), None, None, None, None).category, ErrorCategory::Unknown);
}

#[test]
fn query_run_sends_one_final_event_with_the_row_count() {
    let r = query_run_start();
    let (r, a) = query_run_step(r, QueryEvent::Batch(2));
    assert_eq!(a, QueryAction::EmitBatch);
    let (r, a) = query_run_step(r, QueryEvent::Batch(3));
    assert_eq!(a, QueryAction::EmitBatch);
    let (r, a) = query_run_step(r, QueryEvent::StreamEnded);
    assert_eq!(a, QueryAction::EmitDone(5));
    assert!(r.finished);
    let (_, a) = query_run_step(r, QueryEvent::Batch(1));
    assert_eq!(a, QueryAction::Nothing);
    let (r, _) = query_run_step(query_run_start(), QueryEvent::Batch(4));
    let (r, a) = query_run_step(r, QueryEvent::EmitFailed);
    assert_eq!(a, QueryAction::EmitDone(4));
    let (_, a) = query_run_step(r, QueryEvent::Failed);
    assert_eq!(a, QueryAction::Nothing);
    let (_, a) = query_run_step(query_run_start(), QueryEvent::Failed);
    assert_eq!(a, QueryAction::EmitError);
}
