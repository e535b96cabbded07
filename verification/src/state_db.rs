//! What the state database keeps of each synced file, and the statements that
//! read and write it.
use vstd::prelude::*;
use vstd::utf8::{decode_utf8_encode_utf8, encode_utf8, valid_utf8};

use crate::path::LocalPath;
use crate::text::{
    from_chars, lossy_text, replace, replaced, to_chars, trim, trim_end, trimmed, trimmed_end,
    CharClass,
};

verus! {

/// The baseline of one synced file.
#[derive(Debug, PartialEq, Eq)]
pub struct FileState {
    pub local_path: LocalPath,
    pub drive_id: String,
    pub virtual_remote_path: String,
    pub md5_hash: String,
    pub local_timestamp: i64,
    pub remote_timestamp: String,
}

/// The view of a [`FileState`].
pub struct FileStateView {
    pub local_path: Seq<u8>,
    pub drive_id: Seq<char>,
    pub virtual_remote_path: Seq<char>,
    pub md5_hash: Seq<char>,
    pub local_timestamp: i64,
    pub remote_timestamp: Seq<char>,
}

impl View for FileState {
    type V = FileStateView;

    open spec fn view(&self) -> FileStateView {
        FileStateView {
            local_path: self.local_path@,
            drive_id: self.drive_id@,
            virtual_remote_path: self.virtual_remote_path@,
            md5_hash: self.md5_hash@,
            local_timestamp: self.local_timestamp,
            remote_timestamp: self.remote_timestamp@,
        }
    }
}

impl Clone for FileState {
    fn clone(&self) -> (r: Self)
        ensures
            r@ == self@,
    {
        FileState {
            local_path: self.local_path.clone(),
            drive_id: self.drive_id.clone(),
            virtual_remote_path: self.virtual_remote_path.clone(),
            md5_hash: self.md5_hash.clone(),
            local_timestamp: self.local_timestamp,
            remote_timestamp: self.remote_timestamp.clone(),
        }
    }
}

/// The views of a list of records.
pub open spec fn record_views(list: Seq<FileState>) -> Seq<FileStateView> {
    list.map_values(|record: FileState| record@)
}

/// A value that a statement binds or a row holds.
#[derive(Debug, Clone, PartialEq, Eq)]
pub enum SqlValue {
    Text(String),
    Integer(i64),
}

/// The view of an [`SqlValue`].
pub enum SqlValueView {
    Text(Seq<char>),
    Integer(i64),
}

impl View for SqlValue {
    type V = SqlValueView;

    open spec fn view(&self) -> SqlValueView {
        match self {
            SqlValue::Text(text) => SqlValueView::Text(text@),
            SqlValue::Integer(n) => SqlValueView::Integer(*n),
        }
    }
}

/// The views of a list of values.
pub open spec fn value_views(list: Seq<SqlValue>) -> Seq<SqlValueView> {
    list.map_values(|value: SqlValue| value@)
}

/// A statement with the values bound to its parameters, in order.
#[derive(Debug, Clone, PartialEq, Eq)]
pub struct Statement {
    pub sql: &'static str,
    pub params: Vec<SqlValue>,
}

impl Statement {
    /// Whether this is the statement `sql` with the given values.
    pub open spec fn is(&self, sql: &str, params: Seq<SqlValueView>) -> bool {
        self.sql@ == sql@ && value_views(self.params@) == params
    }
}

/// Creates the table and its indexes where they are missing.
pub const SCHEMA: &'static str =
    "CREATE TABLE IF NOT EXISTS file_state (local_path TEXT PRIMARY KEY, drive_id TEXT NOT NULL, virtual_remote_path TEXT NOT NULL, md5_hash TEXT NOT NULL, local_timestamp INTEGER NOT NULL, remote_timestamp TEXT NOT NULL); CREATE UNIQUE INDEX IF NOT EXISTS idx_file_state_remote ON file_state(virtual_remote_path); CREATE INDEX IF NOT EXISTS idx_file_state_md5 ON file_state(md5_hash);";

/// Writes a record, in the place of the one with the same local path.
pub const UPSERT: &'static str =
    "INSERT INTO file_state (local_path, drive_id, virtual_remote_path, md5_hash, local_timestamp, remote_timestamp) VALUES (?1, ?2, ?3, ?4, ?5, ?6) ON CONFLICT(local_path) DO UPDATE SET drive_id = excluded.drive_id, virtual_remote_path = excluded.virtual_remote_path, md5_hash = excluded.md5_hash, local_timestamp = excluded.local_timestamp, remote_timestamp = excluded.remote_timestamp";

/// Reads the record of a local path.
pub const SELECT_BY_LOCAL: &'static str =
    "SELECT local_path, drive_id, virtual_remote_path, md5_hash, local_timestamp, remote_timestamp FROM file_state WHERE local_path = ?1";

/// Reads the record of a remote path.
pub const SELECT_BY_REMOTE: &'static str =
    "SELECT local_path, drive_id, virtual_remote_path, md5_hash, local_timestamp, remote_timestamp FROM file_state WHERE virtual_remote_path = ?1";

/// Reads every record.
pub const SELECT_ALL: &'static str =
    "SELECT local_path, drive_id, virtual_remote_path, md5_hash, local_timestamp, remote_timestamp FROM file_state";

/// Reads the records at or below a local path.
pub const SELECT_BY_LOCAL_PREFIX: &'static str =
    "SELECT local_path, drive_id, virtual_remote_path, md5_hash, local_timestamp, remote_timestamp FROM file_state WHERE local_path = ?1 OR local_path LIKE ?2";

/// Reads the records at or below a remote path.
pub const SELECT_BY_REMOTE_PREFIX: &'static str =
    "SELECT local_path, drive_id, virtual_remote_path, md5_hash, local_timestamp, remote_timestamp FROM file_state WHERE virtual_remote_path = ?1 OR virtual_remote_path LIKE ?2";

/// Removes the record of a local path.
pub const DELETE_BY_LOCAL: &'static str = "DELETE FROM file_state WHERE local_path = ?1";

/// Removes the record of a remote path.
pub const DELETE_BY_REMOTE: &'static str = "DELETE FROM file_state WHERE virtual_remote_path = ?1";

/// Sets the local timestamp in the record of a local path.
pub const UPDATE_LOCAL_TIMESTAMP: &'static str =
    "UPDATE file_state SET local_timestamp = ?2 WHERE local_path = ?1";

/// Reads the record with an identifier.
pub const SELECT_BY_DRIVE_ID: &'static str =
    "SELECT local_path, drive_id, virtual_remote_path, md5_hash, local_timestamp, remote_timestamp FROM file_state WHERE drive_id = ?1";

/// Creates the table of kept values where it is missing.
pub const META_SCHEMA: &'static str =
    "CREATE TABLE IF NOT EXISTS app_meta (key TEXT PRIMARY KEY, value TEXT NOT NULL)";

/// Reads the value that is kept under a key.
pub const SELECT_META: &'static str = "SELECT value FROM app_meta WHERE key = ?1";

/// Keeps a value, in the place of the one under the same key.
pub const UPSERT_META: &'static str =
    "INSERT INTO app_meta (key, value) VALUES (?1, ?2) ON CONFLICT(key) DO UPDATE SET value = excluded.value";

/// The form in which a remote path is stored.
pub open spec fn stored_remote(path: Seq<char>) -> Seq<char> {
    replaced(trimmed(path, CharClass::One('/')), '\\', '/')
}

/// The pattern for everything below a stored path.
pub open spec fn below_pattern(path: Seq<char>) -> Seq<char> {
    trimmed_end(path, CharClass::One('/')) + seq!['/', '%']
}

/// The columns of a record, in the order of the table.
pub open spec fn columns(record: FileStateView) -> Seq<SqlValueView> {
    seq![
        SqlValueView::Text(lossy_text(record.local_path)),
        SqlValueView::Text(record.drive_id),
        SqlValueView::Text(stored_remote(record.virtual_remote_path)),
        SqlValueView::Text(record.md5_hash),
        SqlValueView::Integer(record.local_timestamp),
        SqlValueView::Text(record.remote_timestamp),
    ]
}

/// The key that a local path is stored under.
pub open spec fn local_key(path: Seq<u8>) -> SqlValueView {
    SqlValueView::Text(lossy_text(path))
}

/// The key that a remote path is stored under.
pub open spec fn remote_key(path: Seq<char>) -> SqlValueView {
    SqlValueView::Text(stored_remote(path))
}

/// The record that the columns of a row stand for.
pub open spec fn record_of(
    local_path: Seq<char>,
    drive_id: Seq<char>,
    virtual_remote_path: Seq<char>,
    md5_hash: Seq<char>,
    local_timestamp: i64,
    remote_timestamp: Seq<char>,
) -> FileStateView {
    FileStateView {
        local_path: encode_utf8(local_path),
        drive_id,
        virtual_remote_path,
        md5_hash,
        local_timestamp,
        remote_timestamp,
    }
}

/// The text under which a local path is stored.
pub fn normalize_local_path(path: &LocalPath) -> (s: String)
    ensures
        s@ == lossy_text(path@),
{
    path.to_text()
}

/// The text under which a remote path is stored.
pub fn normalize_remote_path(path: &str) -> (s: String)
    ensures
        s@ == stored_remote(path@),
{
    let chars = to_chars(path);
    from_chars(replace(trim(chars.as_slice(), CharClass::One('/')), '\\', '/').as_slice())
}

/// The pattern for everything below a stored path.
fn pattern_below(path: &str) -> (s: String)
    ensures
        s@ == below_pattern(path@),
{
    let chars = to_chars(path);
    let mut s = from_chars(trim_end(chars.as_slice(), CharClass::One('/')));
    s.push('/');
    s.push('%');
    assert(s@ == below_pattern(path@));
    s
}

/// The record that the columns of a row stand for.
pub fn row_to_file_state(
    local_path: String,
    drive_id: String,
    virtual_remote_path: String,
    md5_hash: String,
    local_timestamp: i64,
    remote_timestamp: String,
) -> (record: FileState)
    ensures
        record@ == record_of(
            local_path@,
            drive_id@,
            virtual_remote_path@,
            md5_hash@,
            local_timestamp,
            remote_timestamp@,
        ),
{
    FileState {
        local_path: LocalPath::new(local_path.as_str()),
        drive_id,
        virtual_remote_path,
        md5_hash,
        local_timestamp,
        remote_timestamp,
    }
}

/// The state database, as the statements that it answers.
pub struct StateDb {}

impl StateDb {
    /// Creates what the other statements need.
    pub fn init_schema() -> (sql: &'static str)
        ensures
            sql@ == SCHEMA@,
    {
        SCHEMA
    }

    /// Writes a record, in the place of the one with the same local path.
    pub fn upsert(record: &FileState) -> (r: Statement)
        ensures
            r.is(UPSERT, columns(record@)),
    {
        let mut params: Vec<SqlValue> = Vec::new();
        params.push(SqlValue::Text(normalize_local_path(&record.local_path)));
        params.push(SqlValue::Text(record.drive_id.clone()));
        params.push(SqlValue::Text(normalize_remote_path(record.virtual_remote_path.as_str())));
        params.push(SqlValue::Text(record.md5_hash.clone()));
        params.push(SqlValue::Integer(record.local_timestamp));
        params.push(SqlValue::Text(record.remote_timestamp.clone()));
        assert(value_views(params@) == columns(record@));
        Statement { sql: UPSERT, params }
    }

    /// Reads the record of a local path.
    pub fn get_by_local_path(local_path: &LocalPath) -> (r: Statement)
        ensures
            r.is(SELECT_BY_LOCAL, seq![local_key(local_path@)]),
    {
        let mut params: Vec<SqlValue> = Vec::new();
        params.push(SqlValue::Text(normalize_local_path(local_path)));
        assert(value_views(params@) == seq![local_key(local_path@)]);
        Statement { sql: SELECT_BY_LOCAL, params }
    }

    /// Reads the record of a remote path.
    pub fn get_by_remote_path(virtual_remote_path: &str) -> (r: Statement)
        ensures
            r.is(SELECT_BY_REMOTE, seq![remote_key(virtual_remote_path@)]),
    {
        let mut params: Vec<SqlValue> = Vec::new();
        params.push(SqlValue::Text(normalize_remote_path(virtual_remote_path)));
        assert(value_views(params@) == seq![remote_key(virtual_remote_path@)]);
        Statement { sql: SELECT_BY_REMOTE, params }
    }

    /// Reads every record.
    pub fn list_all() -> (r: Statement)
        ensures
            r.is(SELECT_ALL, Seq::empty()),
    {
        let params: Vec<SqlValue> = Vec::new();
        assert(value_views(params@) == Seq::<SqlValueView>::empty());
        Statement { sql: SELECT_ALL, params }
    }

    /// Reads the records at or below a local path.
    pub fn list_by_local_prefix(prefix: &LocalPath) -> (r: Statement)
        ensures
            r.is(
                SELECT_BY_LOCAL_PREFIX,
                seq![
                    local_key(prefix@),
                    SqlValueView::Text(below_pattern(lossy_text(prefix@))),
                ],
            ),
    {
        let normalized = normalize_local_path(prefix);
        let like = pattern_below(normalized.as_str());
        let mut params: Vec<SqlValue> = Vec::new();
        params.push(SqlValue::Text(normalized));
        params.push(SqlValue::Text(like));
        assert(value_views(params@) == seq![
            local_key(prefix@),
            SqlValueView::Text(below_pattern(lossy_text(prefix@))),
        ]);
        Statement { sql: SELECT_BY_LOCAL_PREFIX, params }
    }

    /// Reads the records at or below a remote path.
    pub fn list_by_remote_prefix(prefix: &str) -> (r: Statement)
        ensures
            r.is(
                SELECT_BY_REMOTE_PREFIX,
                seq![
                    remote_key(prefix@),
                    SqlValueView::Text(below_pattern(stored_remote(prefix@))),
                ],
            ),
    {
        let normalized = normalize_remote_path(prefix);
        let like = pattern_below(normalized.as_str());
        let mut params: Vec<SqlValue> = Vec::new();
        params.push(SqlValue::Text(normalized));
        params.push(SqlValue::Text(like));
        assert(value_views(params@) == seq![
            remote_key(prefix@),
            SqlValueView::Text(below_pattern(stored_remote(prefix@))),
        ]);
        Statement { sql: SELECT_BY_REMOTE_PREFIX, params }
    }

    /// Removes the record of a local path.
    pub fn remove_by_local_path(local_path: &LocalPath) -> (r: Statement)
        ensures
            r.is(DELETE_BY_LOCAL, seq![local_key(local_path@)]),
    {
        let mut params: Vec<SqlValue> = Vec::new();
        params.push(SqlValue::Text(normalize_local_path(local_path)));
        assert(value_views(params@) == seq![local_key(local_path@)]);
        Statement { sql: DELETE_BY_LOCAL, params }
    }

    /// Removes the record of a remote path.
    pub fn remove_by_remote_path(remote_path: &str) -> (r: Statement)
        ensures
            r.is(DELETE_BY_REMOTE, seq![remote_key(remote_path@)]),
    {
        let mut params: Vec<SqlValue> = Vec::new();
        params.push(SqlValue::Text(normalize_remote_path(remote_path)));
        assert(value_views(params@) == seq![remote_key(remote_path@)]);
        Statement { sql: DELETE_BY_REMOTE, params }
    }

    /// Sets the local timestamp in the record of a local path.
    pub fn update_local_timestamp(local_path: &LocalPath, local_timestamp: i64) -> (r: Statement)
        ensures
            r.is(
                UPDATE_LOCAL_TIMESTAMP,
                seq![local_key(local_path@), SqlValueView::Integer(local_timestamp)],
            ),
    {
        let mut params: Vec<SqlValue> = Vec::new();
        params.push(SqlValue::Text(normalize_local_path(local_path)));
        params.push(SqlValue::Integer(local_timestamp));
        assert(value_views(params@) == seq![
            local_key(local_path@),
            SqlValueView::Integer(local_timestamp),
        ]);
        Statement { sql: UPDATE_LOCAL_TIMESTAMP, params }
    }

    /// Reads the record with an identifier.
    pub fn get_by_drive_id(drive_id: &str) -> (r: Statement)
        ensures
            r.is(SELECT_BY_DRIVE_ID, seq![SqlValueView::Text(drive_id@)]),
    {
        let mut params: Vec<SqlValue> = Vec::new();
        params.push(SqlValue::Text(drive_id.to_owned()));
        assert(value_views(params@) == seq![SqlValueView::Text(drive_id@)]);
        Statement { sql: SELECT_BY_DRIVE_ID, params }
    }

    /// Creates what kept values need.
    pub fn init_meta_schema() -> (sql: &'static str)
        ensures
            sql@ == META_SCHEMA@,
    {
        META_SCHEMA
    }

    /// Reads the value that is kept under a key.
    pub fn get_meta(key: &str) -> (r: Statement)
        ensures
            r.is(SELECT_META, seq![SqlValueView::Text(key@)]),
    {
        let mut params: Vec<SqlValue> = Vec::new();
        params.push(SqlValue::Text(key.to_owned()));
        assert(value_views(params@) == seq![SqlValueView::Text(key@)]);
        Statement { sql: SELECT_META, params }
    }

    /// Keeps a value, in the place of the one under the same key.
    pub fn set_meta(key: &str, value: &str) -> (r: Statement)
        ensures
            r.is(UPSERT_META, seq![SqlValueView::Text(key@), SqlValueView::Text(value@)]),
    {
        let mut params: Vec<SqlValue> = Vec::new();
        params.push(SqlValue::Text(key.to_owned()));
        params.push(SqlValue::Text(value.to_owned()));
        assert(value_views(params@) == seq![
            SqlValueView::Text(key@),
            SqlValueView::Text(value@),
        ]);
        Statement { sql: UPSERT_META, params }
    }
}

/// A record is stored under the very keys that its local and its remote path
/// are looked up, updated and removed by.
pub proof fn law_record_is_found_by_its_paths(record: FileStateView)
    ensures
        columns(record)[0] == local_key(record.local_path),
        columns(record)[2] == remote_key(record.virtual_remote_path),
{
}

/// What a row gives back is the record that was written to it, with its remote
/// path in stored form. A path that is not valid UTF-8 comes back with
/// replacement characters.
pub proof fn law_row_gives_back_the_record(record: FileStateView)
    requires
        valid_utf8(record.local_path),
    ensures
        record_of(
            columns(record)[0]->Text_0,
            columns(record)[1]->Text_0,
            columns(record)[2]->Text_0,
            columns(record)[3]->Text_0,
            columns(record)[4]->Integer_0,
            columns(record)[5]->Text_0,
        ) == (FileStateView {
            virtual_remote_path: stored_remote(record.virtual_remote_path),
            ..record
        }),
{
    decode_utf8_encode_utf8(record.local_path);
}

/// The columns of the table, in its order.
pub open spec fn column_list() -> Seq<char> {
    "local_path, drive_id, virtual_remote_path, md5_hash, local_timestamp, remote_timestamp"@
}

/// The statement that reads the records that a condition holds of.
pub open spec fn select_where(condition: Seq<char>) -> Seq<char> {
    "SELECT "@ + column_list() + " FROM file_state"@ + condition
}

/// Every statement that reads records reads the same columns, in the order in which a row
/// is taken apart and a record is written, and picks its records by the column of the key
/// that is bound to it, or by that and what lies below it.
pub proof fn law_statements_read_the_same_columns()
    ensures
        SELECT_ALL@ == select_where(Seq::empty()),
        SELECT_BY_LOCAL@ == select_where(" WHERE local_path = ?1"@),
        SELECT_BY_REMOTE@ == select_where(" WHERE virtual_remote_path = ?1"@),
        SELECT_BY_DRIVE_ID@ == select_where(" WHERE drive_id = ?1"@),
        SELECT_BY_LOCAL_PREFIX@ == select_where(" WHERE local_path = ?1 OR local_path LIKE ?2"@),
        SELECT_BY_REMOTE_PREFIX@ == select_where(
            " WHERE virtual_remote_path = ?1 OR virtual_remote_path LIKE ?2"@,
        ),
{
    reveal_strlit("SELECT ");
    reveal_strlit(" FROM file_state");
    reveal_strlit(
        "local_path, drive_id, virtual_remote_path, md5_hash, local_timestamp, remote_timestamp",
    );
    reveal_strlit(" WHERE local_path = ?1");
    reveal_strlit(" WHERE virtual_remote_path = ?1");
    reveal_strlit(" WHERE drive_id = ?1");
    reveal_strlit(" WHERE local_path = ?1 OR local_path LIKE ?2");
    reveal_strlit(" WHERE virtual_remote_path = ?1 OR virtual_remote_path LIKE ?2");
    reveal_strlit(
        "SELECT local_path, drive_id, virtual_remote_path, md5_hash, local_timestamp, remote_timestamp FROM file_state",
    );
    reveal_strlit(
        "SELECT local_path, drive_id, virtual_remote_path, md5_hash, local_timestamp, remote_timestamp FROM file_state WHERE local_path = ?1",
    );
    reveal_strlit(
        "SELECT local_path, drive_id, virtual_remote_path, md5_hash, local_timestamp, remote_timestamp FROM file_state WHERE virtual_remote_path = ?1",
    );
    reveal_strlit(
        "SELECT local_path, drive_id, virtual_remote_path, md5_hash, local_timestamp, remote_timestamp FROM file_state WHERE drive_id = ?1",
    );
    reveal_strlit(
        "SELECT local_path, drive_id, virtual_remote_path, md5_hash, local_timestamp, remote_timestamp FROM file_state WHERE local_path = ?1 OR local_path LIKE ?2",
    );
    reveal_strlit(
        "SELECT local_path, drive_id, virtual_remote_path, md5_hash, local_timestamp, remote_timestamp FROM file_state WHERE virtual_remote_path = ?1 OR virtual_remote_path LIKE ?2",
    );
    assert(SELECT_ALL@ =~= select_where(Seq::empty()));
    assert(SELECT_BY_LOCAL@ =~= select_where(" WHERE local_path = ?1"@));
    assert(SELECT_BY_REMOTE@ =~= select_where(" WHERE virtual_remote_path = ?1"@));
    assert(SELECT_BY_DRIVE_ID@ =~= select_where(" WHERE drive_id = ?1"@));
    assert(SELECT_BY_LOCAL_PREFIX@ =~= select_where(" WHERE local_path = ?1 OR local_path LIKE ?2"@));
    assert(SELECT_BY_REMOTE_PREFIX@ =~= select_where(
            " WHERE virtual_remote_path = ?1 OR virtual_remote_path LIKE ?2"@,
        ));
}

/// A record is written with the same columns, a value for each in their order, and over the
/// one with the same local path it sets every other column anew. Records are updated and
/// removed by the same conditions that they are read by.
pub proof fn law_statements_write_the_same_columns()
    ensures
        UPSERT@ == "INSERT INTO file_state ("@ + column_list()
            + ") VALUES (?1, ?2, ?3, ?4, ?5, ?6) ON CONFLICT(local_path) DO UPDATE SET "@
            + "drive_id = excluded.drive_id, virtual_remote_path = excluded.virtual_remote_path, md5_hash = excluded.md5_hash, local_timestamp = excluded.local_timestamp, remote_timestamp = excluded.remote_timestamp"@,
        UPDATE_LOCAL_TIMESTAMP@ == "UPDATE file_state SET local_timestamp = ?2"@
            + " WHERE local_path = ?1"@,
        DELETE_BY_LOCAL@ == "DELETE FROM file_state"@ + " WHERE local_path = ?1"@,
        DELETE_BY_REMOTE@ == "DELETE FROM file_state"@ + " WHERE virtual_remote_path = ?1"@,
{
    reveal_strlit("INSERT INTO file_state (");
    reveal_strlit(
        "local_path, drive_id, virtual_remote_path, md5_hash, local_timestamp, remote_timestamp",
    );
    reveal_strlit(
        ") VALUES (?1, ?2, ?3, ?4, ?5, ?6) ON CONFLICT(local_path) DO UPDATE SET ",
    );
    reveal_strlit(
        "drive_id = excluded.drive_id, virtual_remote_path = excluded.virtual_remote_path, md5_hash = excluded.md5_hash, local_timestamp = excluded.local_timestamp, remote_timestamp = excluded.remote_timestamp",
    );
    reveal_strlit("UPDATE file_state SET local_timestamp = ?2");
    reveal_strlit(" WHERE local_path = ?1");
    reveal_strlit("DELETE FROM file_state");
    reveal_strlit(" WHERE virtual_remote_path = ?1");
    reveal_strlit(
        "INSERT INTO file_state (local_path, drive_id, virtual_remote_path, md5_hash, local_timestamp, remote_timestamp) VALUES (?1, ?2, ?3, ?4, ?5, ?6) ON CONFLICT(local_path) DO UPDATE SET drive_id = excluded.drive_id, virtual_remote_path = excluded.virtual_remote_path, md5_hash = excluded.md5_hash, local_timestamp = excluded.local_timestamp, remote_timestamp = excluded.remote_timestamp",
    );
    reveal_strlit("UPDATE file_state SET local_timestamp = ?2 WHERE local_path = ?1");
    reveal_strlit("DELETE FROM file_state WHERE local_path = ?1");
    reveal_strlit("DELETE FROM file_state WHERE virtual_remote_path = ?1");
    assert(UPSERT@ =~= "INSERT INTO file_state ("@ + column_list()
            + ") VALUES (?1, ?2, ?3, ?4, ?5, ?6) ON CONFLICT(local_path) DO UPDATE SET "@
            + "drive_id = excluded.drive_id, virtual_remote_path = excluded.virtual_remote_path, md5_hash = excluded.md5_hash, local_timestamp = excluded.local_timestamp, remote_timestamp = excluded.remote_timestamp"@);
    assert(UPDATE_LOCAL_TIMESTAMP@ =~= "UPDATE file_state SET local_timestamp = ?2"@
            + " WHERE local_path = ?1"@);
    assert(DELETE_BY_LOCAL@ =~= "DELETE FROM file_state"@ + " WHERE local_path = ?1"@);
    assert(DELETE_BY_REMOTE@ =~= "DELETE FROM file_state"@ + " WHERE virtual_remote_path = ?1"@);
}

} // verus!
