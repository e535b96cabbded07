use guploadsync::path::LocalPath;
use guploadsync::state_db::{row_to_file_state, FileState, SqlValue, StateDb, Statement};

fn record(local: &str, remote: &str, md5: &str) -> FileState {
    FileState {
        local_path: LocalPath::new(local),
        drive_id: format!("id-{remote}"),
        virtual_remote_path: remote.to_string(),
        md5_hash: md5.to_string(),
        local_timestamp: 7,
        remote_timestamp: "2024-01-01T00:00:00+00:00".to_string(),
    }
}

fn values(statement: &Statement) -> Vec<rusqlite::types::Value> {
    statement
        .params
        .iter()
        .map(|value| match value {
            SqlValue::Text(text) => rusqlite::types::Value::Text(text.clone()),
            SqlValue::Integer(n) => rusqlite::types::Value::Integer(*n),
        })
        .collect()
}

fn execute(conn: &rusqlite::Connection, statement: Statement) {
    conn.execute(statement.sql, rusqlite::params_from_iter(values(&statement))).unwrap();
}

fn query(conn: &rusqlite::Connection, statement: Statement) -> Vec<FileState> {
    let mut prepared = conn.prepare(statement.sql).unwrap();
    let rows = prepared
        .query_map(rusqlite::params_from_iter(values(&statement)), |row| {
            Ok(row_to_file_state(
                row.get(0)?,
                row.get(1)?,
                row.get(2)?,
                row.get(3)?,
                row.get(4)?,
                row.get(5)?,
            ))
        })
        .unwrap();
    rows.map(|row| row.unwrap()).collect()
}

fn open() -> rusqlite::Connection {
    let conn = rusqlite::Connection::open_in_memory().unwrap();
    conn.execute_batch(StateDb::init_schema()).unwrap();
    conn.execute_batch(StateDb::init_schema()).unwrap();
    conn
}

#[test]
fn records_come_back_from_the_database() {
    let conn = open();
    let a = record("/home/u/a", "docs/a", "1");
    let b = record("/home/u/b", "docs/b", "2");
    execute(&conn, StateDb::upsert(&a));
    execute(&conn, StateDb::upsert(&b));
    assert_eq!(query(&conn, StateDb::get_by_local_path(&a.local_path)), vec![a.clone()]);
    assert_eq!(query(&conn, StateDb::get_by_remote_path("/docs/b/")), vec![b.clone()]);
    assert_eq!(query(&conn, StateDb::list_all()), vec![a, b]);
}

#[test]
fn writing_a_record_replaces_the_one_with_its_path() {
    let conn = open();
    execute(&conn, StateDb::upsert(&record("/a", "x", "1")));
    let newer = record("/a", "y", "2");
    execute(&conn, StateDb::upsert(&newer));
    assert_eq!(query(&conn, StateDb::list_all()), vec![newer]);
}

#[test]
fn remote_paths_are_stored_in_one_form() {
    let conn = open();
    execute(&conn, StateDb::upsert(&record("/a", "/docs\\a/", "1")));
    let found = query(&conn, StateDb::get_by_remote_path("docs\\a"));
    assert_eq!(found.len(), 1);
    assert_eq!(found[0].virtual_remote_path, "docs/a");
}

#[test]
fn prefixes_find_what_lies_below() {
    let conn = open();
    for (local, remote) in [("/d", "r"), ("/d/a", "r/a"), ("/d/a/b", "r/a/b"), ("/dx", "rx")] {
        execute(&conn, StateDb::upsert(&record(local, remote, "1")));
    }
    let local: Vec<String> = query(&conn, StateDb::list_by_local_prefix(&LocalPath::new("/d")))
        .into_iter()
        .map(|r| r.local_path.to_text())
        .collect();
    assert_eq!(local, vec!["/d", "/d/a", "/d/a/b"]);
    let remote: Vec<String> = query(&conn, StateDb::list_by_remote_prefix("/r/a/"))
        .into_iter()
        .map(|r| r.virtual_remote_path)
        .collect();
    assert_eq!(remote, vec!["r/a", "r/a/b"]);
}

#[test]
fn records_are_removed_and_touched() {
    let conn = open();
    for (local, remote) in [("/a", "x"), ("/b", "y"), ("/c", "z")] {
        execute(&conn, StateDb::upsert(&record(local, remote, "1")));
    }
    execute(&conn, StateDb::remove_by_local_path(&LocalPath::new("/a")));
    execute(&conn, StateDb::remove_by_remote_path("/y"));
    execute(&conn, StateDb::update_local_timestamp(&LocalPath::new("/c"), -3));
    let left = query(&conn, StateDb::list_all());
    assert_eq!(left.len(), 1);
    assert_eq!(left[0].local_path, LocalPath::new("/c"));
    assert_eq!(left[0].local_timestamp, -3);
}

#[test]
fn statements_bind_their_values_in_order() {
    let statement = StateDb::list_by_local_prefix(&LocalPath::new("/d/"));
    assert_eq!(
        statement.params,
        vec![SqlValue::Text("/d/".to_string()), SqlValue::Text("/d/%".to_string())]
    );
    let touched = StateDb::update_local_timestamp(&LocalPath::new("/c"), 9);
    assert_eq!(touched.params, vec![SqlValue::Text("/c".to_string()), SqlValue::Integer(9)]);
}

#[test]
fn paths_that_are_not_text_are_stored_with_replacements() {
    let path = LocalPath::from_bytes(vec![b'/', 0xff]);
    let statement = StateDb::get_by_local_path(&path);
    assert_eq!(statement.params, vec![SqlValue::Text("/\u{fffd}".to_string())]);
}

fn text(conn: &rusqlite::Connection, statement: Statement) -> Vec<String> {
    let mut prepared = conn.prepare(statement.sql).unwrap();
    let rows = prepared
        .query_map(rusqlite::params_from_iter(values(&statement)), |row| row.get(0))
        .unwrap();
    rows.map(|row| row.unwrap()).collect()
}

#[test]
fn records_are_found_by_identifier() {
    let conn = open();
    let a = record("/a", "x", "1");
    let b = record("/b", "docs/y", "2");
    execute(&conn, StateDb::upsert(&a));
    execute(&conn, StateDb::upsert(&b));
    assert_eq!(query(&conn, StateDb::get_by_drive_id("id-docs/y")), vec![b]);
    assert!(query(&conn, StateDb::get_by_drive_id("id-z")).is_empty());
}

#[test]
fn kept_values_are_replaced_under_their_key() {
    let conn = open();
    conn.execute_batch(StateDb::init_meta_schema()).unwrap();
    conn.execute_batch(StateDb::init_meta_schema()).unwrap();
    assert!(text(&conn, StateDb::get_meta("token")).is_empty());
    execute(&conn, StateDb::set_meta("token", "1"));
    execute(&conn, StateDb::set_meta("other", "9"));
    execute(&conn, StateDb::set_meta("token", "2"));
    assert_eq!(text(&conn, StateDb::get_meta("token")), vec!["2"]);
    assert_eq!(text(&conn, StateDb::get_meta("other")), vec!["9"]);
}
