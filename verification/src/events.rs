//! What the watcher and the poller tell the sync engine.
use vstd::prelude::*;

use crate::path::LocalPath;

verus! {

/// An event for the sync engine.
#[derive(Debug, Clone, PartialEq, Eq)]
pub enum SyncEvent {
    /// A local file changed.
    Local(LocalFileEvent),
    /// A remote file changed.
    Remote(RemoteChange),
    /// A full synchronization is asked for.
    SyncNow,
    /// The engine is to stop.
    Shutdown,
}

/// A change of a local file.
#[derive(Debug, Clone, PartialEq, Eq)]
pub struct LocalFileEvent {
    pub kind: LocalFileEventKind,
    pub path: LocalPath,
}

/// What happened to a local file.
#[derive(Debug, Clone, Copy, PartialEq, Eq, Structural)]
pub enum LocalFileEventKind {
    Upsert,
    Delete,
}

/// A change of a remote file.
#[derive(Debug, Clone, PartialEq, Eq)]
pub enum RemoteChange {
    Upsert(RemoteFileMeta),
    Delete { virtual_path: String },
}

/// What is known of a remote file.
#[derive(Debug, PartialEq, Eq)]
pub struct RemoteFileMeta {
    pub drive_id: String,
    pub virtual_path: String,
    pub md5_hash: String,
    pub modified_time: String,
}

/// The view of a [`RemoteFileMeta`].
pub struct RemoteFileMetaView {
    pub drive_id: Seq<char>,
    pub virtual_path: Seq<char>,
    pub md5_hash: Seq<char>,
    pub modified_time: Seq<char>,
}

impl View for RemoteFileMeta {
    type V = RemoteFileMetaView;

    open spec fn view(&self) -> RemoteFileMetaView {
        RemoteFileMetaView {
            drive_id: self.drive_id@,
            virtual_path: self.virtual_path@,
            md5_hash: self.md5_hash@,
            modified_time: self.modified_time@,
        }
    }
}

impl Clone for RemoteFileMeta {
    fn clone(&self) -> (r: Self)
        ensures
            r == *self,
    {
        RemoteFileMeta {
            drive_id: self.drive_id.clone(),
            virtual_path: self.virtual_path.clone(),
            md5_hash: self.md5_hash.clone(),
            modified_time: self.modified_time.clone(),
        }
    }
}

/// The view of a [`RemoteChange`].
pub enum RemoteChangeView {
    Upsert(RemoteFileMetaView),
    Delete(Seq<char>),
}

impl View for RemoteChange {
    type V = RemoteChangeView;

    open spec fn view(&self) -> RemoteChangeView {
        match self {
            RemoteChange::Upsert(meta) => RemoteChangeView::Upsert(meta@),
            RemoteChange::Delete { virtual_path } => RemoteChangeView::Delete(virtual_path@),
        }
    }
}

/// The view of a [`SyncEvent`].
pub enum SyncEventView {
    Local(LocalFileEventKind, Seq<u8>),
    Remote(RemoteChangeView),
    SyncNow,
    Shutdown,
}

impl View for SyncEvent {
    type V = SyncEventView;

    open spec fn view(&self) -> SyncEventView {
        match self {
            SyncEvent::Local(event) => SyncEventView::Local(event.kind, event.path@),
            SyncEvent::Remote(change) => SyncEventView::Remote(change@),
            SyncEvent::SyncNow => SyncEventView::SyncNow,
            SyncEvent::Shutdown => SyncEventView::Shutdown,
        }
    }
}

/// The views of a list of events.
pub open spec fn event_views(list: Seq<SyncEvent>) -> Seq<SyncEventView> {
    list.map_values(|event: SyncEvent| event@)
}

/// The views of a list of remote changes.
pub open spec fn change_views(list: Seq<RemoteChange>) -> Seq<RemoteChangeView> {
    list.map_values(|change: RemoteChange| change@)
}

/// The views of a list of remote files.
pub open spec fn meta_views(list: Seq<RemoteFileMeta>) -> Seq<RemoteFileMetaView> {
    list.map_values(|meta: RemoteFileMeta| meta@)
}

/// What the engine is told first, as the program was called: to synchronize
/// everything where a synchronization at once was asked for or the program is
/// to run only once, and in the latter case to stop then.
pub fn startup_events(sync_now: bool, once: bool) -> (r: Vec<SyncEvent>)
    ensures
        event_views(r@) == (if once {
            seq![SyncEventView::SyncNow, SyncEventView::Shutdown]
        } else if sync_now {
            seq![SyncEventView::SyncNow]
        } else {
            Seq::empty()
        }),
{
    let mut r: Vec<SyncEvent> = Vec::new();
    if sync_now || once {
        r.push(SyncEvent::SyncNow);
    }
    if once {
        r.push(SyncEvent::Shutdown);
    }
    assert(event_views(r@) == (if once {
        seq![SyncEventView::SyncNow, SyncEventView::Shutdown]
    } else if sync_now {
        seq![SyncEventView::SyncNow]
    } else {
        Seq::empty()
    }));
    r
}

} // verus!
