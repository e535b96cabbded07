//! The sync engine: what is done about each event. The engine itself touches
//! nothing outside; it asks for one thing after the other, and decides by the
//! replies.
use vstd::prelude::*;

use crate::config::{AppConfig, PathFacts, PathKind};
use crate::events::{LocalFileEvent, LocalFileEventKind, RemoteChange, RemoteFileMeta, SyncEvent};
use crate::failure::Failure;
use crate::keyed::{find, lemma_find_is, lemma_find_none};
use crate::path::LocalPath;
use crate::path_map::PathMap;
use crate::state_db::{record_views, FileState, FileStateView};

pub mod conflict;
pub mod deletes;
pub mod files;
pub mod full_sync;
pub mod grounds;
pub mod laws;
pub mod model;
pub mod repeats;
pub mod runs;
pub mod settled;

use conflict::{make_conflicted_copy_path, no_parent};
use model::{
    after_upsert, all_due, baseline, begin_upsert, copy_failed_text, decide_upsert, delete_record,
    download, enter_entry, expired, fail, finish, flush_next, flush_step, forget_mapped,
    forget_record, full_sync_step, handle, inspect_upsert, job_in_bounds, perform,
    remote_delete_step, remote_step, renamed_from, scheduled, step, sync_record, upsert_step, woken,
    Action, After, Candidate, EngineAction, EngineJob, EngineRequest, EngineView, Flush, FullSync,
    Job, LocalUpsert, PendingDelete, RemoteDelete, RemoteUpsert, Reply, Request, Wake,
    RENAME_WINDOW_NANOS, UNEXPECTED_REPLY,
};

verus! {

/// Keeps the local files and the remote store in step.
#[derive(Debug)]
pub struct SyncEngine {
    config: AppConfig,
    pending_deletes: PathMap<PendingDelete>,
    records: Vec<FileState>,
    job: EngineJob,
    stopping: bool,
}

impl View for SyncEngine {
    type V = EngineView;

    closed spec fn view(&self) -> EngineView {
        EngineView {
            config: self.config@,
            pending: self.pending_deletes@,
            records: record_views(self.records@),
            job: self.job@,
            stopping: self.stopping,
        }
    }
}

impl SyncEngine {
    /// No path has two pending deletes, and the job is in bounds.
    pub closed spec fn wf(&self) -> bool {
        self.pending_deletes.wf() && job_in_bounds(self@)
    }

    /// An engine without work.
    pub fn new(config: AppConfig) -> (r: Self)
        ensures
            r.wf(),
            r@ == (EngineView {
                config: config@,
                pending: Seq::empty(),
                records: Seq::empty(),
                job: Job::Idle,
                stopping: false,
            }),
    {
        let r = SyncEngine {
            config,
            pending_deletes: PathMap::new(),
            records: Vec::new(),
            job: Job::Idle,
            stopping: false,
        };
        assert(r@.records == Seq::<FileStateView>::empty());
        r
    }

    /// Whether the engine has no work.
    pub fn is_idle(&self) -> (r: bool)
        ensures
            r == self@.job is Idle,
    {
        match self.job {
            Job::Idle => true,
            _ => false,
        }
    }

    /// Whether the engine ends when its work is over.
    pub fn is_stopping(&self) -> (r: bool)
        ensures
            r == self@.stopping,
    {
        self.stopping
    }

    /// Waits for the reply to a request.
    fn perform(&mut self, job: EngineJob, request: EngineRequest) -> (r: EngineAction)
        requires
            old(self).pending_deletes.wf(),
            job_in_bounds((EngineView { job: job@, ..old(self)@ })),
        ensures
            final(self).wf(),
            (final(self)@, r@) == perform(old(self)@, job@, request@),
    {
        self.job = job;
        Action::Perform(request)
    }

    /// Ends the work.
    fn finish(&mut self) -> (r: EngineAction)
        requires
            old(self).pending_deletes.wf(),
        ensures
            final(self).wf(),
            (final(self)@, r@) == finish(old(self)@),
    {
        self.job = Job::Idle;
        self.records = Vec::new();
        assert(self@.records == Seq::<FileStateView>::empty());
        Action::Finish(Ok(()))
    }

    /// Ends the work with a failure.
    fn fail(&mut self, why: Failure) -> (r: EngineAction)
        requires
            old(self).pending_deletes.wf(),
        ensures
            final(self).wf(),
            (final(self)@, r@) == fail(old(self)@, why@),
    {
        self.job = Job::Idle;
        self.records = Vec::new();
        assert(self@.records == Seq::<FileStateView>::empty());
        Action::Finish(Err(why))
    }

    /// Goes on with the next delete whose time has come.
    fn flush_next(&mut self, cutoff: u64) -> (r: EngineAction)
        requires
            old(self).pending_deletes.wf(),
        ensures
            final(self).wf(),
            (final(self)@, r@) == flush_next(old(self)@, cutoff),
    {
        let ghost pending = self@.pending;
        let ghost hit = expired(cutoff);
        let mut i: usize = 0;
        while i < self.pending_deletes.len()
            invariant
                i <= self@.pending.len(),
                *self == *old(self),
                pending == self@.pending,
                self.pending_deletes.wf(),
                hit == expired(cutoff),
                forall|j: int| 0 <= j < i ==> !hit(#[trigger] pending[j]),
            decreases self@.pending.len() - i,
        {
            if self.pending_deletes.value(i).expires_at <= cutoff {
                proof {
                    assert(hit(pending[i as int]));
                    lemma_find_is(pending, hit, i as int);
                }
                let (_, entry) = self.pending_deletes.remove_at(i);
                let record = entry.record;
                return self.perform(
                    Job::Flush(Flush::Trash { cutoff, local_path: record.local_path }),
                    Request::TrashRemote(record.virtual_remote_path),
                );
            }
            assert(!hit(pending[i as int]));
            i += 1;
        }
        proof {
            lemma_find_none(pending, hit);
        }
        self.finish()
    }

    /// Carries out the deletes whose time has come.
    fn flush_expired_pending_deletes(&mut self, now: u64) -> (r: EngineAction)
        requires
            old(self).wf(),
        ensures
            final(self).wf(),
            (final(self)@, r@) == flush_next(old(self)@, now),
    {
        self.flush_next(now)
    }

    /// Carries out every delete that waits.
    fn flush_all_pending_deletes(&mut self, now: u64) -> (r: EngineAction)
        requires
            old(self).wf(),
        ensures
            final(self).wf(),
            (final(self)@, r@) == flush_next(
                EngineView { pending: all_due(old(self)@.pending, now), ..old(self)@ },
                now,
            ),
    {
        let ghost before = self@;
        let ghost due = all_due(before.pending, now);
        let mut i: usize = 0;
        while i < self.pending_deletes.len()
            invariant
                i <= self@.pending.len() == before.pending.len(),
                before == old(self)@,
                due == all_due(before.pending, now),
                self.pending_deletes.wf(),
                self@ == (EngineView { pending: self@.pending, ..before }),
                self@.pending == due.take(i as int) + before.pending.skip(i as int),
            decreases self@.pending.len() - i,
        {
            let record = self.pending_deletes.value(i).record.clone();
            let ghost entry = before.pending[i as int];
            assert(self@.pending[i as int] == entry);
            self.pending_deletes.set_at(i, PendingDelete { record, expires_at: now });
            assert(due[i as int] == (entry.0, PendingDelete { record, expires_at: now }@));
            assert(self@.pending == due.take(i + 1) + before.pending.skip(i + 1));
            i += 1;
        }
        assert(self@.pending == due);
        self.flush_next(now)
    }

    /// The pending delete of another path with the given content, if there is
    /// one: its index.
    fn find_pending_delete_with_hash(&self, hash: &String, new_local_path: &LocalPath) -> (r: Option<
        usize,
    >)
        ensures
            match r {
                Some(i) => i < self@.pending.len() && find(
                    self@.pending,
                    renamed_from(hash@, new_local_path@),
                ) == Some(i as int),
                None => find(self@.pending, renamed_from(hash@, new_local_path@)) is None,
            },
    {
        let ghost pending = self@.pending;
        let ghost hit = renamed_from(hash@, new_local_path@);
        let mut i: usize = 0;
        while i < self.pending_deletes.len()
            invariant
                i <= pending.len(),
                pending == self@.pending,
                hit == renamed_from(hash@, new_local_path@),
                forall|j: int| 0 <= j < i ==> !hit(#[trigger] pending[j]),
            decreases pending.len() - i,
        {
            if !self.pending_deletes.path(i).same_as(new_local_path) && self.pending_deletes.value(
                i,
            ).record.md5_hash == *hash {
                proof {
                    assert(hit(pending[i as int]));
                    lemma_find_is(pending, hit, i as int);
                }
                return Some(i);
            }
            assert(!hit(pending[i as int]));
            i += 1;
        }
        proof {
            lemma_find_none(pending, hit);
        }
        None
    }

    /// Goes on with a watch entry in a full synchronization.
    fn enter_entry(&mut self, entry: usize) -> (r: EngineAction)
        requires
            old(self).pending_deletes.wf(),
        ensures
            final(self).wf(),
            (final(self)@, r@) == enter_entry(old(self)@, entry),
    {
        if entry < self.config.watch.len() {
            let path = self.config.watch[entry].local_path.clone();
            assert(path@ == self@.config.watch[entry as int].local_path);
            self.perform(
                Job::FullSync(FullSync::InspectEntry { entry }),
                Request::Inspect(path),
            )
        } else {
            self.perform(Job::FullSync(FullSync::ListRecords), Request::ListAll)
        }
    }

    /// Goes on with a record in a full synchronization.
    fn sync_record(&mut self, next: usize, now: u64) -> (r: EngineAction)
        requires
            old(self).pending_deletes.wf(),
        ensures
            final(self).wf(),
            (final(self)@, r@) == sync_record(old(self)@, next, now),
    {
        if next < self.records.len() {
            let path = self.records[next].local_path.clone();
            assert(path@ == self@.records[next as int].local_path);
            self.perform(
                Job::FullSync(FullSync::InspectRecord { next }),
                Request::Inspect(path),
            )
        } else {
            self.flush_next(now)
        }
    }

    /// Goes on with a record in the work on a deleted remote folder.
    fn delete_record(&mut self, next: usize) -> (r: EngineAction)
        requires
            old(self).pending_deletes.wf(),
        ensures
            final(self).wf(),
            (final(self)@, r@) == delete_record(old(self)@, next),
    {
        if next < self.records.len() {
            let path = self.records[next].local_path.clone();
            assert(path@ == self@.records[next as int].local_path);
            self.perform(
                Job::RemoteDelete(RemoteDelete::InspectRecord { next }),
                Request::Inspect(path),
            )
        } else {
            self.finish()
        }
    }

    /// Ends the work on a local file.
    fn after_upsert(&mut self, after: After) -> (r: EngineAction)
        requires
            old(self).pending_deletes.wf(),
            after_in_bounds(old(self)@, after),
        ensures
            final(self).wf(),
            (final(self)@, r@) == after_upsert(old(self)@, after),
    {
        match after {
            After::Finish => self.finish(),
            After::NextEntry { entry } => {
                let count: usize = self.config.watch.len();
                assert(entry < count);
                self.enter_entry(entry + 1)
            },
            After::Walk { entry } => self.perform(
                Job::FullSync(FullSync::Walk { entry }),
                Request::WalkNext,
            ),
        }
    }

    /// Begins to work on a local file.
    fn begin_upsert(&mut self, path: LocalPath, after: After) -> (r: EngineAction)
        requires
            old(self).pending_deletes.wf(),
            after_in_bounds(old(self)@, after),
        ensures
            final(self).wf(),
            (final(self)@, r@) == begin_upsert(old(self)@, path@, after),
    {
        let asked = path.clone();
        self.perform(
            Job::LocalUpsert(LocalUpsert::Inspect { path }, after),
            Request::Inspect(asked),
        )
    }

    /// Decides by what there is at the path of a local file.
    fn inspect_upsert(&mut self, path: LocalPath, facts: PathFacts, after: After) -> (r:
        EngineAction)
        requires
            old(self).pending_deletes.wf(),
            after_in_bounds(old(self)@, after),
        ensures
            final(self).wf(),
            (final(self)@, r@) == inspect_upsert(old(self)@, path@, facts, after),
    {
        match facts.kind {
            PathKind::Missing => self.after_upsert(after),
            PathKind::Directory => self.after_upsert(after),
            _ => {
                let _ = self.pending_deletes.remove(&path);
                match self.config.local_to_remote(&path, &facts) {
                    None => self.after_upsert(after),
                    Some(virtual_path) => {
                        let asked = path.clone();
                        self.perform(
                            Job::LocalUpsert(LocalUpsert::Hash { path, virtual_path }, after),
                            Request::HashFile(asked),
                        )
                    },
                }
            },
        }
    }

    /// Decides by the content of a local file and its baseline.
    fn decide_upsert(
        &mut self,
        candidate: Candidate<LocalPath, String>,
        existing: Option<FileState>,
        after: After,
    ) -> (r: EngineAction)
        requires
            old(self).pending_deletes.wf(),
            after_in_bounds(old(self)@, after),
        ensures
            final(self).wf(),
            (final(self)@, r@) == decide_upsert(
                old(self)@,
                candidate@,
                match existing {
                    Some(record) => Some(record@),
                    None => None,
                },
                after,
            ),
    {
        match existing {
            None => {
                match self.find_pending_delete_with_hash(&candidate.md5_hash, &candidate.path) {
                    Some(i) => {
                        let old_path = self.pending_deletes.path(i).clone();
                        let from = self.pending_deletes.value(i).record.virtual_remote_path.clone();
                        let to = candidate.virtual_path.clone();
                        return self.perform(
                            Job::LocalUpsert(LocalUpsert::Rename { candidate, old_path }, after),
                            Request::Rename { from, to },
                        );
                    },
                    None => {},
                }
            },
            Some(current) => {
                if current.md5_hash == candidate.md5_hash {
                    return self.perform(
                        Job::LocalUpsert(LocalUpsert::Touch, after),
                        Request::SetLocalTimestamp(candidate.path, candidate.local_timestamp),
                    );
                }
            },
        }
        let request = Request::Upload {
            virtual_path: candidate.virtual_path.clone(),
            local_path: candidate.path.clone(),
        };
        self.perform(Job::LocalUpsert(LocalUpsert::Upload { candidate }, after), request)
    }

    /// Goes on with the work on a local file.
    fn handle_local_upsert(
        &mut self,
        stage: LocalUpsert<LocalPath, String, FileState>,
        after: After,
        reply: Reply,
    ) -> (r: EngineAction)
        requires
            old(self).pending_deletes.wf(),
            after_in_bounds(old(self)@, after),
        ensures
            final(self).wf(),
            (final(self)@, r@) == upsert_step(old(self)@, stage@, after, reply@),
    {
        match (stage, reply) {
            (LocalUpsert::Inspect { path }, Reply::Facts(facts)) => self.inspect_upsert(
                path,
                facts,
                after,
            ),
            (LocalUpsert::Hash { path, virtual_path }, Reply::Hash(Ok(md5_hash))) => {
                let asked = path.clone();
                self.perform(
                    Job::LocalUpsert(LocalUpsert::Modified { path, virtual_path, md5_hash }, after),
                    Request::ReadModified(asked),
                )
            },
            (
                LocalUpsert::Modified { path, virtual_path, md5_hash },
                Reply::Modified(Ok(local_timestamp)),
            ) => {
                let asked = path.clone();
                let candidate = Candidate { path, virtual_path, md5_hash, local_timestamp };
                self.perform(
                    Job::LocalUpsert(LocalUpsert::Find { candidate }, after),
                    Request::FindByLocal(asked),
                )
            },
            (LocalUpsert::Find { candidate }, Reply::Found(Ok(existing))) => self.decide_upsert(
                candidate,
                existing,
                after,
            ),
            (LocalUpsert::Rename { candidate, old_path }, Reply::Stored(Err(_))) => {
                let request = Request::Upload {
                    virtual_path: candidate.virtual_path.clone(),
                    local_path: candidate.path.clone(),
                };
                self.perform(
                    Job::LocalUpsert(LocalUpsert::UploadRenamed { candidate, old_path }, after),
                    request,
                )
            },
            (LocalUpsert::Rename { candidate, old_path }, Reply::Stored(Ok(stored))) => {
                let virtual_remote_path = candidate.virtual_path.clone();
                let record = new_baseline(candidate, virtual_remote_path, stored);
                let asked = old_path.clone();
                self.perform(
                    Job::LocalUpsert(LocalUpsert::Forget { record, old_path }, after),
                    Request::RemoveByLocal(asked),
                )
            },
            (LocalUpsert::UploadRenamed { candidate, old_path }, Reply::Stored(Ok(stored))) => {
                let virtual_remote_path = candidate.virtual_path.clone();
                let record = new_baseline(candidate, virtual_remote_path, stored);
                let asked = old_path.clone();
                self.perform(
                    Job::LocalUpsert(LocalUpsert::Forget { record, old_path }, after),
                    Request::RemoveByLocal(asked),
                )
            },
            (LocalUpsert::Forget { record, old_path }, Reply::Done(Ok(_))) => {
                let _ = self.pending_deletes.remove(&old_path);
                self.perform(Job::LocalUpsert(LocalUpsert::Save, after), Request::Save(record))
            },
            (LocalUpsert::Upload { candidate }, Reply::Stored(Ok(stored))) => {
                let virtual_remote_path = stored.virtual_path.clone();
                let record = new_baseline(candidate, virtual_remote_path, stored);
                self.perform(Job::LocalUpsert(LocalUpsert::Save, after), Request::Save(record))
            },
            (LocalUpsert::Touch, Reply::Done(Ok(_))) => self.after_upsert(after),
            (LocalUpsert::Save, Reply::Done(Ok(_))) => self.after_upsert(after),
            (LocalUpsert::Hash { .. }, Reply::Hash(Err(why))) => self.fail(why),
            (LocalUpsert::Modified { .. }, Reply::Modified(Err(why))) => self.fail(why),
            (LocalUpsert::Find { .. }, Reply::Found(Err(why))) => self.fail(why),
            (LocalUpsert::UploadRenamed { .. }, Reply::Stored(Err(why))) => self.fail(why),
            (LocalUpsert::Forget { .. }, Reply::Done(Err(why))) => self.fail(why),
            (LocalUpsert::Upload { .. }, Reply::Stored(Err(why))) => self.fail(why),
            (LocalUpsert::Touch, Reply::Done(Err(why))) => self.fail(why),
            (LocalUpsert::Save, Reply::Done(Err(why))) => self.fail(why),
            _ => self.fail(Failure::new(UNEXPECTED_REPLY)),
        }
    }

    /// Goes on with the work on a deleted local file or folder: its files are
    /// kept on the remote side for a while.
    fn handle_local_delete(&mut self, reply: Reply, now: u64) -> (r: EngineAction)
        requires
            old(self).pending_deletes.wf(),
            old(self)@.job is LocalDelete,
            now + RENAME_WINDOW_NANOS <= u64::MAX,
        ensures
            final(self).wf(),
            (final(self)@, r@) == step(old(self)@, reply@, now),
    {
        match reply {
            Reply::Records(Ok(list)) => {
                let expires_at: u64 = now + RENAME_WINDOW_NANOS;
                let ghost before = self@;
                let ghost all = record_views(list@);
                let mut i: usize = 0;
                assert(all.take(0) == Seq::<FileStateView>::empty());
                while i < list.len()
                    invariant
                        i <= list.len(),
                        all == record_views(list@),
                        self.pending_deletes.wf(),
                        self@ == (EngineView { pending: self@.pending, ..before }),
                        self@.pending == scheduled(before.pending, all.take(i as int), expires_at),
                    decreases list.len() - i,
                {
                    let record = list[i].clone();
                    let path = record.local_path.clone();
                    assert(all.take(i + 1).drop_last() == all.take(i as int));
                    assert(all.take(i + 1).last() == record@);
                    self.pending_deletes.insert(path, PendingDelete { record, expires_at });
                    i += 1;
                }
                assert(all.take(i as int) == all);
                self.finish()
            },
            Reply::Records(Err(why)) => self.fail(why),
            _ => self.fail(Failure::new(UNEXPECTED_REPLY)),
        }
    }

    /// Fetches the remote version of a file to its local path.
    fn download(&mut self, virtual_path: String, local_path: LocalPath) -> (r: EngineAction)
        requires
            old(self).pending_deletes.wf(),
        ensures
            final(self).wf(),
            (final(self)@, r@) == download(old(self)@, virtual_path@, local_path@),
    {
        let request = Request::Download { virtual_path, local_path: local_path.clone() };
        self.perform(Job::RemoteUpsert(RemoteUpsert::Download { local_path }), request)
    }

    /// Goes on with the work on a remote file.
    fn handle_remote_upsert(
        &mut self,
        stage: RemoteUpsert<LocalPath, String, RemoteFileMeta>,
        reply: Reply,
    ) -> (r: EngineAction)
        requires
            old(self).pending_deletes.wf(),
        ensures
            final(self).wf(),
            (final(self)@, r@) == remote_step(old(self)@, stage@, reply@),
    {
        match (stage, reply) {
            (RemoteUpsert::Metadata { virtual_path, local_path }, Reply::Metadata(Ok(known))) => {
                match known {
                    None => self.finish(),
                    Some(meta) => {
                        let asked = virtual_path.clone();
                        self.perform(
                            Job::RemoteUpsert(
                                RemoteUpsert::Find {
                                    virtual_path,
                                    local_path,
                                    remote_hash: meta.md5_hash,
                                },
                            ),
                            Request::FindByRemote(asked),
                        )
                    },
                }
            },
            (
                RemoteUpsert::Find { virtual_path, local_path, remote_hash },
                Reply::Found(Ok(record)),
            ) => {
                let base_hash = match record {
                    Some(record) => {
                        if record.md5_hash == remote_hash {
                            return self.finish();
                        }
                        Some(record.md5_hash)
                    },
                    None => None,
                };
                let asked = local_path.clone();
                self.perform(
                    Job::RemoteUpsert(RemoteUpsert::Inspect { virtual_path, local_path, base_hash }),
                    Request::Inspect(asked),
                )
            },
            (
                RemoteUpsert::Inspect { virtual_path, local_path, base_hash },
                Reply::Facts(facts),
            ) => {
                match facts.kind {
                    PathKind::File => {
                        let asked = local_path.clone();
                        self.perform(
                            Job::RemoteUpsert(
                                RemoteUpsert::Hash { virtual_path, local_path, base_hash },
                            ),
                            Request::HashFile(asked),
                        )
                    },
                    _ => self.download(virtual_path, local_path),
                }
            },
            (
                RemoteUpsert::Hash { virtual_path, local_path, base_hash },
                Reply::Hash(Ok(md5_hash)),
            ) => {
                let diverged: bool = match &base_hash {
                    Some(base_hash) => *base_hash != md5_hash,
                    None => false,
                };
                if !diverged {
                    return self.download(virtual_path, local_path);
                }
                match local_path.parent() {
                    None => self.fail(no_parent(&local_path)),
                    Some(_) => self.perform(
                        Job::RemoteUpsert(
                            RemoteUpsert::Clock { virtual_path, local_path, md5_hash },
                        ),
                        Request::ReadClock,
                    ),
                }
            },
            (
                RemoteUpsert::Clock { virtual_path, local_path, md5_hash },
                Reply::Clock(millis),
            ) => {
                match make_conflicted_copy_path(&local_path, millis) {
                    Err(why) => self.fail(why),
                    Ok(copy_path) => {
                        let request = Request::Download {
                            virtual_path: virtual_path.clone(),
                            local_path: copy_path.clone(),
                        };
                        self.perform(
                            Job::RemoteUpsert(
                                RemoteUpsert::StoreCopy {
                                    virtual_path,
                                    local_path,
                                    md5_hash,
                                    copy_path,
                                },
                            ),
                            request,
                        )
                    },
                }
            },
            (
                RemoteUpsert::StoreCopy { virtual_path, local_path, md5_hash, copy_path },
                Reply::Stored(Ok(_)),
            ) => {
                let request = Request::Upload { virtual_path, local_path: local_path.clone() };
                self.perform(
                    Job::RemoteUpsert(RemoteUpsert::UploadLocal { local_path, md5_hash }),
                    request,
                )
            },
            (
                RemoteUpsert::StoreCopy { virtual_path, local_path, md5_hash, copy_path },
                Reply::Stored(Err(why)),
            ) => {
                let mut what = "failed to store conflicted copy for ".to_owned();
                what.append(virtual_path.as_str());
                what.append(" at ");
                what.append(copy_path.to_text().as_str());
                assert(what@ == copy_failed_text(virtual_path@, copy_path@));
                self.fail(why.context(what.as_str()))
            },
            (RemoteUpsert::UploadLocal { local_path, md5_hash }, Reply::Stored(Ok(stored))) => {
                let asked = local_path.clone();
                self.perform(
                    Job::RemoteUpsert(RemoteUpsert::Modified { local_path, md5_hash, stored }),
                    Request::ReadModified(asked),
                )
            },
            (RemoteUpsert::Download { local_path }, Reply::Stored(Ok(stored))) => {
                let asked = local_path.clone();
                let md5_hash = stored.md5_hash.clone();
                self.perform(
                    Job::RemoteUpsert(RemoteUpsert::Modified { local_path, md5_hash, stored }),
                    Request::ReadModified(asked),
                )
            },
            (
                RemoteUpsert::Modified { local_path, md5_hash, stored },
                Reply::Modified(Ok(local_timestamp)),
            ) => {
                let record = FileState {
                    local_path,
                    drive_id: stored.drive_id,
                    virtual_remote_path: stored.virtual_path,
                    md5_hash,
                    local_timestamp,
                    remote_timestamp: stored.modified_time,
                };
                self.perform(Job::RemoteUpsert(RemoteUpsert::Save), Request::Save(record))
            },
            (RemoteUpsert::Save, Reply::Done(Ok(_))) => self.finish(),
            (RemoteUpsert::Metadata { .. }, Reply::Metadata(Err(why))) => self.fail(why),
            (RemoteUpsert::Find { .. }, Reply::Found(Err(why))) => self.fail(why),
            (RemoteUpsert::Hash { .. }, Reply::Hash(Err(why))) => self.fail(why),
            (RemoteUpsert::UploadLocal { .. }, Reply::Stored(Err(why))) => self.fail(why),
            (RemoteUpsert::Download { .. }, Reply::Stored(Err(why))) => self.fail(why),
            (RemoteUpsert::Modified { .. }, Reply::Modified(Err(why))) => self.fail(why),
            (RemoteUpsert::Save, Reply::Done(Err(why))) => self.fail(why),
            _ => self.fail(Failure::new(UNEXPECTED_REPLY)),
        }
    }

    /// Removes the record of a remote path.
    fn forget_mapped(&mut self, virtual_path: String) -> (r: EngineAction)
        requires
            old(self).pending_deletes.wf(),
        ensures
            final(self).wf(),
            (final(self)@, r@) == forget_mapped(old(self)@, virtual_path@),
    {
        self.perform(
            Job::RemoteDelete(RemoteDelete::ForgetMapped),
            Request::RemoveByRemote(virtual_path),
        )
    }

    /// Removes the record with the given index.
    fn forget_record(&mut self, next: usize) -> (r: EngineAction)
        requires
            old(self).pending_deletes.wf(),
            next < old(self)@.records.len(),
        ensures
            final(self).wf(),
            (final(self)@, r@) == forget_record(old(self)@, next),
    {
        let path = self.records[next].local_path.clone();
        assert(path@ == self@.records[next as int].local_path);
        self.perform(
            Job::RemoteDelete(RemoteDelete::ForgetRecord { next }),
            Request::RemoveByLocal(path),
        )
    }

    /// Goes on with the work on a deleted remote file or folder.
    fn handle_remote_delete(
        &mut self,
        stage: RemoteDelete<LocalPath, String>,
        reply: Reply,
    ) -> (r: EngineAction)
        requires
            old(self).pending_deletes.wf(),
            job_in_bounds((EngineView { job: Job::RemoteDelete(stage@), ..old(self)@ })),
        ensures
            final(self).wf(),
            (final(self)@, r@) == remote_delete_step(old(self)@, stage@, reply@),
    {
        match (stage, reply) {
            (RemoteDelete::List { virtual_path }, Reply::Records(Ok(list))) => {
                if list.len() > 0 {
                    self.records = list;
                    return self.delete_record(0);
                }
                match self.config.remote_to_local(virtual_path.as_str()) {
                    None => self.forget_mapped(virtual_path),
                    Some(local_path) => {
                        let asked = local_path.clone();
                        self.perform(
                            Job::RemoteDelete(
                                RemoteDelete::InspectMapped { virtual_path, local_path },
                            ),
                            Request::Inspect(asked),
                        )
                    },
                }
            },
            (
                RemoteDelete::InspectMapped { virtual_path, local_path },
                Reply::Facts(facts),
            ) => match facts.kind {
                PathKind::Missing => self.forget_mapped(virtual_path),
                _ => self.perform(
                    Job::RemoteDelete(RemoteDelete::TrashMapped { virtual_path }),
                    Request::TrashLocal(local_path),
                ),
            },
            (RemoteDelete::TrashMapped { virtual_path }, Reply::Done(_)) => self.forget_mapped(
                virtual_path,
            ),
            (RemoteDelete::ForgetMapped, Reply::Done(Ok(_))) => self.finish(),
            (RemoteDelete::InspectRecord { next }, Reply::Facts(facts)) => match facts.kind {
                PathKind::Missing => self.forget_record(next),
                _ => {
                    let path = self.records[next].local_path.clone();
                    assert(path@ == self@.records[next as int].local_path);
                    self.perform(
                        Job::RemoteDelete(RemoteDelete::TrashRecord { next }),
                        Request::TrashLocal(path),
                    )
                },
            },
            (RemoteDelete::TrashRecord { next }, Reply::Done(_)) => self.forget_record(next),
            (RemoteDelete::ForgetRecord { next }, Reply::Done(Ok(_))) => {
                let count: usize = self.records.len();
                assert(next < count);
                self.delete_record(next + 1)
            },
            (RemoteDelete::List { .. }, Reply::Records(Err(why))) => self.fail(why),
            (RemoteDelete::ForgetMapped, Reply::Done(Err(why))) => self.fail(why),
            (RemoteDelete::ForgetRecord { .. }, Reply::Done(Err(why))) => self.fail(why),
            _ => self.fail(Failure::new(UNEXPECTED_REPLY)),
        }
    }

    /// Goes on with a full synchronization.
    fn sync_now(&mut self, stage: FullSync, reply: Reply, now: u64) -> (r: EngineAction)
        requires
            old(self).pending_deletes.wf(),
            job_in_bounds((EngineView { job: Job::FullSync(stage), ..old(self)@ })),
        ensures
            final(self).wf(),
            (final(self)@, r@) == full_sync_step(old(self)@, stage, reply@, now),
    {
        match (stage, reply) {
            (FullSync::InspectEntry { entry }, Reply::Facts(facts)) => {
                let count: usize = self.config.watch.len();
                assert(entry < count);
                let path = self.config.watch[entry].local_path.clone();
                assert(path@ == self@.config.watch[entry as int].local_path);
                match facts.kind {
                    PathKind::Missing => self.enter_entry(entry + 1),
                    PathKind::File => self.begin_upsert(path, After::NextEntry { entry }),
                    _ => self.perform(
                        Job::FullSync(FullSync::Walk { entry }),
                        Request::Walk(path),
                    ),
                }
            },
            (FullSync::Walk { entry }, Reply::Walked(found)) => {
                let count: usize = self.config.watch.len();
                assert(entry < count);
                match found {
                    None => self.enter_entry(entry + 1),
                    Some(found) => {
                        if found.is_file {
                            self.begin_upsert(found.path, After::Walk { entry })
                        } else {
                            self.perform(
                                Job::FullSync(FullSync::Walk { entry }),
                                Request::WalkNext,
                            )
                        }
                    },
                }
            },
            (FullSync::ListRecords, Reply::Records(Ok(list))) => {
                self.records = list;
                self.sync_record(0, now)
            },
            (FullSync::InspectRecord { next }, Reply::Facts(facts)) => {
                match facts.kind {
                    PathKind::Missing => {
                        let record = self.records[next].clone();
                        let path = record.local_path.clone();
                        assert(record@ == self@.records[next as int]);
                        self.pending_deletes.insert(
                            path,
                            PendingDelete { record, expires_at: now },
                        );
                    },
                    _ => {},
                }
                let count: usize = self.records.len();
                assert(next < count);
                self.sync_record(next + 1, now)
            },
            (FullSync::ListRecords, Reply::Records(Err(why))) => self.fail(why),
            _ => self.fail(Failure::new(UNEXPECTED_REPLY)),
        }
    }

    /// Goes on with moving the remote copies of deleted files to the trash.
    fn handle_flush(&mut self, stage: Flush<LocalPath>, reply: Reply) -> (r: EngineAction)
        requires
            old(self).pending_deletes.wf(),
        ensures
            final(self).wf(),
            (final(self)@, r@) == flush_step(old(self)@, stage@, reply@),
    {
        match (stage, reply) {
            (Flush::Trash { cutoff, local_path }, Reply::Done(Ok(_))) => self.perform(
                Job::Flush(Flush::Forget { cutoff }),
                Request::RemoveByLocal(local_path),
            ),
            (Flush::Forget { cutoff }, Reply::Done(Ok(_))) => self.flush_next(cutoff),
            (Flush::Trash { .. }, Reply::Done(Err(why))) => self.fail(why),
            (Flush::Forget { .. }, Reply::Done(Err(why))) => self.fail(why),
            _ => self.fail(Failure::new(UNEXPECTED_REPLY)),
        }
    }

    /// Takes the reply to the last request, at the clock reading `now`, and
    /// tells what is to be done next.
    pub fn step(&mut self, reply: Reply, now: u64) -> (r: EngineAction)
        requires
            old(self).wf(),
            now + RENAME_WINDOW_NANOS <= u64::MAX,
        ensures
            final(self).wf(),
            (final(self)@, r@) == step(old(self)@, reply@, now),
    {
        match &self.job {
            Job::LocalDelete => {
                return self.handle_local_delete(reply, now);
            },
            _ => {},
        }
        let mut job: EngineJob = Job::Idle;
        std::mem::swap(&mut job, &mut self.job);
        match job {
            Job::LocalUpsert(stage, after) => self.handle_local_upsert(stage, after, reply),
            Job::RemoteUpsert(stage) => self.handle_remote_upsert(stage, reply),
            Job::RemoteDelete(stage) => self.handle_remote_delete(stage, reply),
            Job::FullSync(stage) => self.sync_now(stage, reply, now),
            Job::Flush(stage) => self.handle_flush(stage, reply),
            _ => self.fail(Failure::new(UNEXPECTED_REPLY)),
        }
    }

    /// Begins to work on a local event.
    fn handle_local_event(&mut self, event: LocalFileEvent) -> (r: EngineAction)
        requires
            old(self).wf(),
        ensures
            final(self).wf(),
            (final(self)@, r@) == handle(old(self)@, SyncEvent::Local(event)@),
    {
        match event.kind {
            LocalFileEventKind::Upsert => self.begin_upsert(event.path, After::Finish),
            LocalFileEventKind::Delete => self.perform(
                Job::LocalDelete,
                Request::ListByLocalPrefix(event.path),
            ),
        }
    }

    /// Begins to work on a remote event.
    fn handle_remote_event(&mut self, event: RemoteChange) -> (r: EngineAction)
        requires
            old(self).wf(),
        ensures
            final(self).wf(),
            (final(self)@, r@) == handle(old(self)@, SyncEvent::Remote(event)@),
    {
        match event {
            RemoteChange::Upsert(meta) => {
                let virtual_path = meta.virtual_path;
                match self.config.remote_to_local(virtual_path.as_str()) {
                    None => self.finish(),
                    Some(local_path) => {
                        let asked = virtual_path.clone();
                        self.perform(
                            Job::RemoteUpsert(
                                RemoteUpsert::Metadata { virtual_path, local_path },
                            ),
                            Request::GetMetadata(asked),
                        )
                    },
                }
            },
            RemoteChange::Delete { virtual_path } => {
                let asked = virtual_path.clone();
                self.perform(
                    Job::RemoteDelete(RemoteDelete::List { virtual_path }),
                    Request::ListByRemotePrefix(asked),
                )
            },
        }
    }

    /// Begins to work on an event.
    pub fn handle_event(&mut self, event: SyncEvent) -> (r: EngineAction)
        requires
            old(self).wf(),
            old(self)@.job is Idle,
        ensures
            final(self).wf(),
            (final(self)@, r@) == handle(old(self)@, event@),
    {
        match event {
            SyncEvent::Local(event) => self.handle_local_event(event),
            SyncEvent::Remote(event) => self.handle_remote_event(event),
            SyncEvent::SyncNow => self.enter_entry(0),
            SyncEvent::Shutdown => self.finish(),
        }
    }

    /// Begins to work when woken up at the clock reading `now`, and tells what
    /// is to be done first.
    pub fn wake(&mut self, wake: Wake, now: u64) -> (r: EngineAction)
        requires
            old(self).wf(),
            old(self)@.job is Idle,
        ensures
            final(self).wf(),
            (final(self)@, r@) == woken(old(self)@, wake, now),
    {
        match wake {
            Wake::Tick => self.flush_expired_pending_deletes(now),
            Wake::Event(SyncEvent::Shutdown) => {
                self.stopping = true;
                self.flush_all_pending_deletes(now)
            },
            Wake::Closed => {
                self.stopping = true;
                self.flush_all_pending_deletes(now)
            },
            Wake::Event(event) => self.handle_event(event),
        }
    }
}

/// Whether the place where the work goes on is in bounds.
pub open spec fn after_in_bounds(s: EngineView, after: After) -> bool {
    match after {
        After::Finish => true,
        After::NextEntry { entry } => entry < s.config.watch.len(),
        After::Walk { entry } => entry < s.config.watch.len(),
    }
}

/// The baseline of a file that was stored under a remote path.
fn new_baseline(
    candidate: Candidate<LocalPath, String>,
    virtual_remote_path: String,
    stored: RemoteFileMeta,
) -> (r: FileState)
    ensures
        r@ == baseline(candidate@, virtual_remote_path@, stored@),
{
    FileState {
        local_path: candidate.path,
        drive_id: stored.drive_id,
        virtual_remote_path,
        md5_hash: candidate.md5_hash,
        local_timestamp: candidate.local_timestamp,
        remote_timestamp: stored.modified_time,
    }
}

} // verus!
