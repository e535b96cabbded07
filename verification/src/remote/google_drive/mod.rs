//! A remote store in a folder of Google Drive: what is asked of Drive for each
//! request, and what is made of the answers.
use vstd::prelude::*;

use crate::events::{RemoteFileMeta, RemoteFileMetaView};
use crate::failure::Failure;
use crate::hash_utils::{modified_rfc3339, rfc3339_text};
use crate::text::{
    char_lists, clone_text, from_chars, replace, replaced, same_text, text_view, texts, to_chars,
    trim, trimmed, CharClass,
};
use crate::virtual_path::{name_segments, segments};

pub mod chains;
pub mod changes;
pub mod folders;
pub mod laws;
pub mod machines;
pub mod protocol;
pub mod store_laws;
pub mod transfers;
pub mod uploads;
pub mod work;

verus! {

/// The MIME type of folders.
pub const FOLDER_MIME_TYPE: &'static str = "application/vnd.google-apps.folder";

/// What is asked of a file.
pub const DRIVE_FILE_FIELDS: &'static str =
    "id,name,parents,mimeType,md5Checksum,modifiedTime,trashed";

/// What is asked of the files of a list.
pub const DRIVE_FILE_LIST_FIELDS: &'static str =
    "files(id,name,parents,mimeType,md5Checksum,modifiedTime,trashed)";

/// What is asked of changes.
pub const DRIVE_CHANGE_FIELDS: &'static str =
    "nextPageToken,newStartPageToken,changes(changeType,fileId,removed,file(id,name,parents,mimeType,md5Checksum,modifiedTime,trashed))";

/// The key under which the page token of the last poll is kept.
pub const PAGE_TOKEN_KEY: &'static str = "google_drive_page_token";

/// The name of the sandbox folder where none is given.
pub const DEFAULT_SANDBOX_NAME: &'static str = "guploadsync";

/// The name by which Drive knows its topmost folder.
pub const ROOT_ID: &'static str = "root";

/// A time in UTC: seconds since the Unix epoch, and nanoseconds.
#[derive(Debug, Clone, Copy, PartialEq, Eq, Structural)]
pub struct Timestamp {
    pub secs: i64,
    pub nanos: u32,
}

/// A file or folder of Drive, as far as Drive tells.
#[derive(Debug, PartialEq, Eq)]
pub struct DriveFile {
    pub id: Option<String>,
    pub name: Option<String>,
    pub parents: Vec<String>,
    pub mime_type: Option<String>,
    pub md5_checksum: Option<String>,
    pub modified_time: Option<Timestamp>,
    pub trashed: Option<bool>,
}

/// The view of a [`DriveFile`].
pub struct DriveFileView {
    pub id: Option<Seq<char>>,
    pub name: Option<Seq<char>>,
    pub parents: Seq<Seq<char>>,
    pub mime_type: Option<Seq<char>>,
    pub md5_checksum: Option<Seq<char>>,
    pub modified_time: Option<Timestamp>,
    pub trashed: Option<bool>,
}

impl View for DriveFile {
    type V = DriveFileView;

    open spec fn view(&self) -> DriveFileView {
        DriveFileView {
            id: text_view(self.id),
            name: text_view(self.name),
            parents: texts(self.parents@),
            mime_type: text_view(self.mime_type),
            md5_checksum: text_view(self.md5_checksum),
            modified_time: self.modified_time,
            trashed: self.trashed,
        }
    }
}

/// A list of texts, once more.
pub fn clone_texts(list: &Vec<String>) -> (r: Vec<String>)
    ensures
        texts(r@) == texts(list@),
{
    let mut r: Vec<String> = Vec::new();
    let mut i: usize = 0;
    while i < list.len()
        invariant
            i <= list.len(),
            texts(r@) == texts(list@).take(i as int),
        decreases list.len() - i,
    {
        let ghost before = r@;
        r.push(list[i].clone());
        assert(texts(r@) == texts(before).push(list@[i as int]@));
        assert(texts(list@).take(i + 1) == texts(list@).take(i as int).push(list@[i as int]@));
        i += 1;
    }
    assert(texts(list@).take(i as int) == texts(list@));
    r
}

impl Clone for DriveFile {
    fn clone(&self) -> (r: Self)
        ensures
            r@ == self@,
    {
        DriveFile {
            id: clone_text(&self.id),
            name: clone_text(&self.name),
            parents: clone_texts(&self.parents),
            mime_type: clone_text(&self.mime_type),
            md5_checksum: clone_text(&self.md5_checksum),
            modified_time: self.modified_time,
            trashed: self.trashed,
        }
    }
}

impl DriveFileView {
    /// Whether this is a folder.
    pub open spec fn is_folder(self) -> bool {
        self.mime_type == Some(FOLDER_MIME_TYPE@)
    }

    /// Whether this lies in the trash.
    pub open spec fn is_trashed(self) -> bool {
        self.trashed == Some(true)
    }

    /// The folder that this lies in, if Drive tells.
    pub open spec fn parent(self) -> Option<Seq<char>> {
        if self.parents.len() > 0 {
            Some(self.parents[0])
        } else {
            None
        }
    }
}

impl DriveFile {
    /// Whether this is a folder.
    pub fn is_folder(&self) -> (r: bool)
        ensures
            r == self@.is_folder(),
    {
        match &self.mime_type {
            Some(mime_type) => same_text(mime_type.as_str(), FOLDER_MIME_TYPE),
            None => false,
        }
    }

    /// Whether this lies in the trash.
    pub fn is_trashed(&self) -> (r: bool)
        ensures
            r == self@.is_trashed(),
    {
        match self.trashed {
            Some(trashed) => trashed,
            None => false,
        }
    }

    /// The folder that this lies in, if Drive tells.
    pub fn parent(&self) -> (r: Option<String>)
        ensures
            text_view(r) == self@.parent(),
    {
        if self.parents.len() > 0 {
            assert(self@.parents[0] == self.parents@[0]@);
            Some(self.parents[0].clone())
        } else {
            None
        }
    }
}

/// A change that Drive reports.
#[derive(Debug, PartialEq, Eq)]
pub struct DriveChange {
    pub change_type: Option<String>,
    pub file_id: Option<String>,
    pub removed: Option<bool>,
    pub file: Option<DriveFile>,
}

/// The view of a [`DriveChange`].
pub struct DriveChangeView {
    pub change_type: Option<Seq<char>>,
    pub file_id: Option<Seq<char>>,
    pub removed: Option<bool>,
    pub file: Option<DriveFileView>,
}

/// The view of a file that may be missing.
pub open spec fn file_view(file: Option<DriveFile>) -> Option<DriveFileView> {
    match file {
        Some(file) => Some(file@),
        None => None,
    }
}

impl View for DriveChange {
    type V = DriveChangeView;

    open spec fn view(&self) -> DriveChangeView {
        DriveChangeView {
            change_type: text_view(self.change_type),
            file_id: text_view(self.file_id),
            removed: self.removed,
            file: file_view(self.file),
        }
    }
}

impl Clone for DriveChange {
    fn clone(&self) -> (r: Self)
        ensures
            r@ == self@,
    {
        DriveChange {
            change_type: clone_text(&self.change_type),
            file_id: clone_text(&self.file_id),
            removed: self.removed,
            file: match &self.file {
                Some(file) => Some(file.clone()),
                None => None,
            },
        }
    }
}

/// What kind of failure Drive answers with.
#[derive(Debug, Clone, Copy, PartialEq, Eq, Structural)]
pub enum DriveFailureKind {
    /// An answer with the given HTTP status.
    Status(u16),
    /// A refusal, with the code that its description holds, if any.
    BadRequest(Option<u64>),
    /// Anything else.
    Other,
}

/// The HTTP status that a failure stands for.
pub open spec fn status_code(kind: DriveFailureKind) -> Option<u16> {
    match kind {
        DriveFailureKind::Status(status) => Some(status),
        DriveFailureKind::BadRequest(Some(code)) => Some((code % 0x1_0000) as u16),
        _ => None,
    }
}

/// The HTTP status that a failure stands for, if any. A code in a description
/// counts with its lowest sixteen bits.
pub fn error_status_code(kind: DriveFailureKind) -> (r: Option<u16>)
    ensures
        r == status_code(kind),
{
    match kind {
        DriveFailureKind::Status(status) => Some(status),
        DriveFailureKind::BadRequest(Some(code)) => Some((code % 0x1_0000) as u16),
        _ => None,
    }
}

/// Whether a failure says that there is no such file.
pub fn is_not_found(kind: DriveFailureKind) -> (r: bool)
    ensures
        r == (status_code(kind) == Some(404u16)),
{
    match error_status_code(kind) {
        Some(status) => status == 404,
        None => false,
    }
}

/// Whether a failure says that a page token is no longer known.
pub fn is_gone(kind: DriveFailureKind) -> (r: bool)
    ensures
        r == (status_code(kind) == Some(410u16)),
{
    match error_status_code(kind) {
        Some(status) => status == 410,
        None => false,
    }
}

/// The sandbox folder's name for a raw one: trimmed, with underscores for
/// slashes and backslashes.
pub open spec fn sandbox_folder(raw: Seq<char>) -> Seq<char> {
    let name = replaced(
        replaced(trimmed(trimmed(raw, CharClass::WhiteSpace), CharClass::One('/')), '/', '_'),
        '\\',
        '_',
    );
    if name.len() == 0 {
        DEFAULT_SANDBOX_NAME@
    } else {
        name
    }
}

/// Brings the sandbox folder's name into a form that names one folder.
pub fn normalize_sandbox_name(raw: &str) -> (s: String)
    ensures
        s@ == sandbox_folder(raw@),
{
    let chars = to_chars(raw);
    let inner = trim(trim(chars.as_slice(), CharClass::WhiteSpace), CharClass::One('/'));
    let name = replace(replace(inner, '/', '_').as_slice(), '\\', '_');
    if name.len() == 0 {
        DEFAULT_SANDBOX_NAME.to_owned()
    } else {
        from_chars(name.as_slice())
    }
}

/// The name `..`.
pub open spec fn dot_dot() -> Seq<char> {
    seq!['.', '.']
}

/// The names that a remote path goes through, or what is wrong with it.
pub open spec fn path_segments(raw: Seq<char>) -> Result<Seq<Seq<char>>, Seq<char>> {
    if name_segments(raw).len() == 0 {
        Err("remote path cannot be empty"@)
    } else if name_segments(raw).contains(dot_dot()) {
        Err("invalid remote path segment '..' in "@ + raw)
    } else {
        Ok(name_segments(raw))
    }
}

/// Splits a remote path into names. A path that names nothing, or that goes
/// upwards, is refused.
pub fn split_virtual_path(raw: &str) -> (r: Result<Vec<String>, Failure>)
    ensures
        match path_segments(raw@) {
            Ok(parts) => r is Ok && texts(r->Ok_0@) == parts,
            Err(why) => r is Err && r->Err_0@ == why,
        },
{
    let list = segments(raw);
    let ghost all = name_segments(raw@);
    assert(list@.len() == all.len());
    if list.len() == 0 {
        return Err(Failure::new("remote path cannot be empty"));
    }
    let mut parts: Vec<String> = Vec::new();
    let mut i: usize = 0;
    while i < list.len()
        invariant
            i <= list.len(),
            all == name_segments(raw@),
            all == char_lists(list@),
            all.len() > 0,
            texts(parts@) == all.take(i as int),
            !all.take(i as int).contains(dot_dot()),
        decreases list.len() - i,
    {
        let part = &list[i];
        let ghost before = parts@;
        assert(all[i as int] == part@);
        let upwards: bool = part.len() == 2 && part[0] == '.' && part[1] == '.';
        proof {
            if upwards {
                assert(part@ == dot_dot());
            } else if part@ == dot_dot() {
                assert(part@[0] == '.' && part@[1] == '.');
            }
        }
        if upwards {
            assert(all.contains(dot_dot()));
            let mut message = "invalid remote path segment '..' in ".to_owned();
            message.append(raw);
            return Err(Failure { message });
        }
        let name = from_chars(part.as_slice());
        parts.push(name);
        assert(texts(parts@) == texts(before).push(part@));
        assert(all.take(i + 1) == all.take(i as int).push(part@));
        assert(!all.take(i + 1).contains(dot_dot())) by {
            if all.take(i + 1).contains(dot_dot()) {
                let taken = all.take(i + 1);
                let k = choose|k: int| 0 <= k < taken.len() && taken[k] == dot_dot();
                if k < i {
                    assert(all.take(i as int)[k] == dot_dot());
                }
            }
        }
        i += 1;
    }
    assert(all.take(i as int) == all);
    Ok(parts)
}

/// Splits a remote path into the names of its folders and its file name.
pub fn split_parent_and_file_name(raw: &str) -> (r: Result<(Vec<String>, String), Failure>)
    ensures
        match path_segments(raw@) {
            Ok(parts) => r is Ok && texts(r->Ok_0.0@) == parts.drop_last() && r->Ok_0.1@
                == parts.last(),
            Err(why) => r is Err && r->Err_0@ == why,
        },
{
    match split_virtual_path(raw) {
        Err(why) => Err(why),
        Ok(parts) => {
            let mut folders = parts;
            let ghost all = folders@;
            match folders.pop() {
                Some(name) => {
                    assert(texts(folders@) == texts(all).drop_last());
                    assert(name@ == texts(all).last());
                    Ok((folders, name))
                },
                None => Err(Failure::new("remote path does not contain a file name")),
            }
        },
    }
}

/// What stands for a character in a literal of a Drive query.
pub open spec fn escape_of(c: char) -> Seq<char> {
    if c == '\\' {
        seq!['\\', '\\']
    } else if c == '\'' {
        seq!['\\', '\'']
    } else {
        seq![c]
    }
}

/// A text as it stands in a literal of a Drive query.
pub open spec fn escaped(s: Seq<char>) -> Seq<char>
    decreases s.len(),
{
    if s.len() == 0 {
        Seq::empty()
    } else {
        escape_of(s[0]) + escaped(s.drop_first())
    }
}

/// What a literal of a Drive query says, up to the quote that ends it, and what
/// follows that quote; nothing where none does.
pub open spec fn read_literal(s: Seq<char>) -> Option<(Seq<char>, Seq<char>)>
    decreases s.len(),
{
    if s.len() == 0 {
        None
    } else if s[0] == '\'' {
        Some((Seq::empty(), s.skip(1)))
    } else if s[0] == '\\' {
        if s.len() < 2 {
            None
        } else {
            match read_literal(s.skip(2)) {
                Some((text, rest)) => Some((seq![s[1]] + text, rest)),
                None => None,
            }
        }
    } else {
        match read_literal(s.skip(1)) {
            Some((text, rest)) => Some((seq![s[0]] + text, rest)),
            None => None,
        }
    }
}

/// An escaped text stands for itself: the literal ends at the quote that
/// follows it, and says the text.
pub proof fn law_escaped_text_reads_back(text: Seq<char>, rest: Seq<char>)
    ensures
        read_literal(escaped(text).push('\'') + rest) == Some((text, rest)),
    decreases text.len(),
{
    let whole = escaped(text).push('\'') + rest;
    if text.len() == 0 {
        assert(whole[0] == '\'');
        assert(whole.skip(1) == rest);
    } else {
        let tail = text.drop_first();
        law_escaped_text_reads_back(tail, rest);
        let after = escaped(tail).push('\'') + rest;
        let head = escape_of(text[0]);
        assert(whole == head + after);
        if head.len() == 2 {
            assert(whole[0] == '\\' && whole[1] == text[0]);
            assert(whole.skip(2) == after);
        } else {
            assert(whole[0] == text[0]);
            assert(whole.skip(1) == after);
        }
        assert(seq![text[0]] + tail == text);
    }
}

/// Escapes a text for a literal of a Drive query.
pub fn escape_drive_query_literal(value: &str) -> (s: String)
    ensures
        s@ == escaped(value@),
{
    let chars = to_chars(value);
    let mut s = String::new();
    let mut i: usize = 0;
    assert(chars@.skip(0) == chars@);
    assert(s@ + escaped(chars@.skip(0)) == escaped(chars@));
    while i < chars.len()
        invariant
            i <= chars.len(),
            s@ + escaped(chars@.skip(i as int)) == escaped(chars@),
        decreases chars.len() - i,
    {
        let c = chars[i];
        let ghost before = s@;
        assert(chars@.skip(i as int)[0] == c);
        assert(chars@.skip(i as int).drop_first() == chars@.skip(i + 1));
        if c == '\\' || c == '\'' {
            s.push('\\');
        }
        s.push(c);
        assert(s@ == before + escape_of(c));
        assert(before + (escape_of(c) + escaped(chars@.skip(i + 1))) == s@ + escaped(
            chars@.skip(i + 1),
        ));
        i += 1;
    }
    assert(chars@.skip(i as int).len() == 0);
    assert(s@ + escaped(chars@.skip(i as int)) == s@);
    s
}

/// What kind of children of a folder are looked for.
#[derive(Debug, Clone, Copy, PartialEq, Eq, Structural)]
pub enum ChildKind {
    /// Folders only.
    Folder,
    /// Anything but folders.
    File,
}

/// The query for the children of a folder with a name.
pub open spec fn child_query_text(
    parent_id: Seq<char>,
    name: Seq<char>,
    kind: ChildKind,
) -> Seq<char> {
    "name = '"@ + escaped(name) + "' and '"@ + escaped(parent_id)
        + "' in parents and trashed = false"@ + match kind {
        ChildKind::Folder => " and mimeType = '"@ + escaped(FOLDER_MIME_TYPE@) + "'"@,
        ChildKind::File => " and mimeType != '"@ + escaped(FOLDER_MIME_TYPE@) + "'"@,
    }
}

/// The query for the children of a folder with a name.
pub fn child_query(parent_id: &str, name: &str, kind: ChildKind) -> (s: String)
    ensures
        s@ == child_query_text(parent_id@, name@, kind),
{
    let mut s = "name = '".to_owned();
    s.append(escape_drive_query_literal(name).as_str());
    s.append("' and '");
    s.append(escape_drive_query_literal(parent_id).as_str());
    s.append("' in parents and trashed = false");
    let mut filter = match kind {
        ChildKind::Folder => " and mimeType = '".to_owned(),
        ChildKind::File => " and mimeType != '".to_owned(),
    };
    filter.append(escape_drive_query_literal(FOLDER_MIME_TYPE).as_str());
    filter.append("'");
    s.append(filter.as_str());
    s
}

/// What is said where the children of a folder could not be listed.
pub open spec fn list_failed_text(parent_id: Seq<char>, name: Seq<char>) -> Seq<char> {
    "failed to list Drive children for parent "@ + parent_id + " and name '"@ + name + "'"@
}

/// The child that a look for it found: the first of the list.
pub fn find_child(parent_id: &str, name: &str, listed: Result<Vec<DriveFile>, Failure>) -> (r:
    Result<Option<DriveFile>, Failure>)
    ensures
        match listed {
            Ok(list) => r is Ok && file_view(r->Ok_0) == if list@.len() > 0 {
                Some(list@[0]@)
            } else {
                None
            },
            Err(why) => r is Err && r->Err_0@ == list_failed_text(parent_id@, name@) + ": "@ + why@,
        },
{
    match listed {
        Ok(list) => {
            if list.len() > 0 {
                Ok(Some(list[0].clone()))
            } else {
                Ok(None)
            }
        },
        Err(why) => {
            let mut what = "failed to list Drive children for parent ".to_owned();
            what.append(parent_id);
            what.append(" and name '");
            what.append(name);
            what.append("'");
            Err(why.context(what.as_str()))
        },
    }
}

/// What is said where a folder could not be made.
pub open spec fn create_failed_text(parent_id: Seq<char>, name: Seq<char>) -> Seq<char> {
    "failed to create Drive folder '"@ + name + "' under parent "@ + parent_id
}

/// The folder that was made.
pub fn create_folder(parent_id: &str, name: &str, made: Result<DriveFile, Failure>) -> (r: Result<
    DriveFile,
    Failure,
>)
    ensures
        match made {
            Ok(folder) => r is Ok && r->Ok_0@ == folder@,
            Err(why) => r is Err && r->Err_0@ == create_failed_text(parent_id@, name@) + ": "@
                + why@,
        },
{
    match made {
        Ok(folder) => Ok(folder),
        Err(why) => {
            let mut what = "failed to create Drive folder '".to_owned();
            what.append(name);
            what.append("' under parent ");
            what.append(parent_id);
            Err(why.context(what.as_str()))
        },
    }
}

/// What is said where a file could not be fetched.
pub open spec fn fetch_failed_text(file_id: Seq<char>) -> Seq<char> {
    "failed to fetch Drive file metadata for "@ + file_id
}

/// The file that was fetched by its identifier: none where Drive does not know
/// it.
pub fn get_file_by_id(file_id: &str, fetched: Result<DriveFile, (DriveFailureKind, Failure)>) -> (r:
    Result<Option<DriveFile>, Failure>)
    ensures
        match fetched {
            Ok(file) => r is Ok && file_view(r->Ok_0) == Some(file@),
            Err((kind, why)) => if status_code(kind) == Some(404u16) {
                r is Ok && r->Ok_0 is None
            } else {
                r is Err && r->Err_0@ == fetch_failed_text(file_id@) + ": "@ + why@
            },
        },
{
    match fetched {
        Ok(file) => Ok(Some(file)),
        Err((kind, why)) => {
            if is_not_found(kind) {
                Ok(None)
            } else {
                let mut what = "failed to fetch Drive file metadata for ".to_owned();
                what.append(file_id);
                Err(why.context(what.as_str()))
            }
        },
    }
}

/// The page token from which on changes are reported.
pub fn fetch_start_page_token(fetched: Result<Option<String>, Failure>) -> (r: Result<
    String,
    Failure,
>)
    ensures
        match fetched {
            Ok(Some(token)) => r is Ok && r->Ok_0@ == token@,
            Ok(None) => r is Err && r->Err_0@ == "Drive did not return a startPageToken"@,
            Err(why) => r is Err && r->Err_0@ == "failed to fetch Drive start page token"@ + ": "@
                + why@,
        },
{
    match fetched {
        Ok(Some(token)) => Ok(token),
        Ok(None) => Err(Failure::new("Drive did not return a startPageToken")),
        Err(why) => Err(why.context("failed to fetch Drive start page token")),
    }
}

/// What is known of a remote file, from what Drive tells of it and the time it
/// was modified in words. A file without a fingerprint has an empty one.
pub open spec fn described_file(
    file: DriveFileView,
    virtual_path: Seq<char>,
    modified_time: Option<Seq<char>>,
) -> Result<RemoteFileMetaView, Seq<char>> {
    match (file.id, modified_time) {
        (None, _) => Err("Drive metadata missing file id"@),
        (_, None) => Err("Drive metadata has no valid time"@),
        (Some(drive_id), Some(modified_time)) => Ok(
            RemoteFileMetaView {
                drive_id,
                virtual_path,
                md5_hash: match file.md5_checksum {
                    Some(md5) => md5,
                    None => Seq::empty(),
                },
                modified_time,
            },
        ),
    }
}

/// What is known of a remote file, from what Drive tells of it. One without a
/// time is taken to be modified now.
pub open spec fn drive_meta(file: DriveFileView, virtual_path: Seq<char>, now: Timestamp) -> Result<
    RemoteFileMetaView,
    Seq<char>,
> {
    let time = match file.modified_time {
        Some(time) => time,
        None => now,
    };
    described_file(file, virtual_path, rfc3339_text(time.secs, time.nanos))
}

/// What is known of a remote file, from what Drive tells of it and the time it
/// was modified in words.
pub fn describe_file(file: &DriveFile, virtual_path: String, modified_time: Option<String>) -> (r:
    Result<RemoteFileMeta, Failure>)
    ensures
        match described_file(file@, virtual_path@, text_view(modified_time)) {
            Ok(meta) => r is Ok && r->Ok_0@ == meta,
            Err(why) => r is Err && r->Err_0@ == why,
        },
{
    let drive_id = match &file.id {
        Some(id) => id.clone(),
        None => {
            return Err(Failure::new("Drive metadata missing file id"));
        },
    };
    let md5_hash = match &file.md5_checksum {
        Some(md5) => md5.clone(),
        None => String::new(),
    };
    match modified_time {
        Some(modified_time) => Ok(
            RemoteFileMeta { drive_id, virtual_path, md5_hash, modified_time },
        ),
        None => Err(Failure::new("Drive metadata has no valid time")),
    }
}

/// What is known of a remote file, from what Drive tells of it.
pub fn to_remote_file_meta(file: &DriveFile, virtual_path: String, now: Timestamp) -> (r: Result<
    RemoteFileMeta,
    Failure,
>)
    ensures
        match drive_meta(file@, virtual_path@, now) {
            Ok(meta) => r is Ok && r->Ok_0@ == meta,
            Err(why) => r is Err && r->Err_0@ == why,
        },
{
    let time = match file.modified_time {
        Some(time) => time,
        None => now,
    };
    describe_file(file, virtual_path, modified_rfc3339(time.secs, time.nanos))
}

} // verus!
