//! The configuration, and the mapping between local and remote paths that its
//! watch entries make.
use vstd::prelude::*;
use vstd::slice::slice_subrange;
use vstd::utf8::encode_utf8;

use crate::path::{
    absolute, byte_lists, component_view, component_views, components, join_bytes, names, pushed,
    within, Component, LocalPath, SLASH,
};
use crate::text::{
    append, char_lists, from_chars, join, joined, lossy_text, same_chars, split, split_on,
    text_lossy, to_chars,
};
use crate::virtual_path::{normalize, normalized};

verus! {

/// The remote folder to sync into where the configuration names none.
pub const DEFAULT_REMOTE_TARGET_FOLDER: &'static str = "guploadsync";

/// The seconds between two polls where the configuration names none.
pub const DEFAULT_POLL_INTERVAL_SECONDS: u64 = 30;

/// The configuration file that is written where there is none.
pub const DEFAULT_CONFIG_TEMPLATE: &'static str =
    "remote_target_folder = \"guploadsync\"\npoll_interval_seconds = 30\n\n# [[watch]]\n# local_path = \"/home/username/.bashrc\"\n# remote_name = \"dotfiles/bashrc\"\n";

/// The configuration.
#[derive(Debug, Clone, PartialEq, Eq)]
pub struct AppConfig {
    pub remote_target_folder: String,
    pub poll_interval_seconds: u64,
    pub watch: Vec<WatchEntry>,
}

/// A local file or folder and the remote name it is synced under.
#[derive(Debug, Clone, PartialEq, Eq)]
pub struct WatchEntry {
    pub local_path: LocalPath,
    pub remote_name: String,
}

/// The view of a [`WatchEntry`].
pub struct WatchEntryView {
    pub local_path: Seq<u8>,
    pub remote_name: Seq<char>,
}

impl View for WatchEntry {
    type V = WatchEntryView;

    open spec fn view(&self) -> WatchEntryView {
        WatchEntryView { local_path: self.local_path@, remote_name: self.remote_name@ }
    }
}

/// The views of a list of watch entries.
pub open spec fn watch_views(list: Seq<WatchEntry>) -> Seq<WatchEntryView> {
    list.map_values(|entry: WatchEntry| entry@)
}

/// The view of an [`AppConfig`].
pub struct AppConfigView {
    pub remote_target_folder: Seq<char>,
    pub poll_interval_seconds: u64,
    pub watch: Seq<WatchEntryView>,
}

impl View for AppConfig {
    type V = AppConfigView;

    open spec fn view(&self) -> AppConfigView {
        AppConfigView {
            remote_target_folder: self.remote_target_folder@,
            poll_interval_seconds: self.poll_interval_seconds,
            watch: watch_views(self.watch@),
        }
    }
}

/// Why a configuration is refused.
#[derive(Debug, Clone, PartialEq, Eq)]
pub enum ConfigError {
    /// A path begins with `~` and the home directory is not known.
    NoHomeDirectory,
    /// A path is relative and the current directory is not known.
    NoCurrentDirectory,
    /// A watch entry has no remote name.
    EmptyRemoteName { local_path: LocalPath },
}

/// The view of a [`ConfigError`].
pub enum ConfigErrorView {
    NoHomeDirectory,
    NoCurrentDirectory,
    EmptyRemoteName(Seq<u8>),
}

impl View for ConfigError {
    type V = ConfigErrorView;

    open spec fn view(&self) -> ConfigErrorView {
        match self {
            ConfigError::NoHomeDirectory => ConfigErrorView::NoHomeDirectory,
            ConfigError::NoCurrentDirectory => ConfigErrorView::NoCurrentDirectory,
            ConfigError::EmptyRemoteName { local_path } => ConfigErrorView::EmptyRemoteName(
                local_path@,
            ),
        }
    }
}

/// A configuration error in words.
pub open spec fn config_error_text(error: ConfigErrorView) -> Seq<char> {
    match error {
        ConfigErrorView::NoHomeDirectory =>
            "could not determine home directory for ~ expansion"@,
        ConfigErrorView::NoCurrentDirectory => "failed to determine current directory"@,
        ConfigErrorView::EmptyRemoteName(local_path) => "watch entry with local_path="@
            + lossy_text(local_path) + " has empty remote_name"@,
    }
}

impl ConfigError {
    /// The error in words.
    pub fn message(&self) -> (s: String)
        ensures
            s@ == config_error_text(self@),
    {
        match self {
            ConfigError::NoHomeDirectory =>
                "could not determine home directory for ~ expansion".to_owned(),
            ConfigError::NoCurrentDirectory => "failed to determine current directory".to_owned(),
            ConfigError::EmptyRemoteName { local_path } => {
                let mut s = "watch entry with local_path=".to_owned();
                s.append(local_path.to_text().as_str());
                s.append(" has empty remote_name");
                s
            },
        }
    }
}

/// The directories of the running process that relative paths are read by.
#[derive(Debug, Clone, PartialEq, Eq)]
pub struct PathEnv {
    pub home: Option<LocalPath>,
    pub current_dir: Option<LocalPath>,
}

/// What the file system holds at a path.
#[derive(Debug, Clone, Copy, PartialEq, Eq, Structural)]
pub enum PathKind {
    Missing,
    File,
    Directory,
    /// Something else, such as a pipe.
    Other,
}

/// What the file system and the process tell of a path.
#[derive(Debug, Clone, PartialEq, Eq)]
pub struct PathFacts {
    /// What there is at the path.
    pub kind: PathKind,
    /// The path without links, if it could be told.
    pub canonical: Option<LocalPath>,
    /// The current directory, if it could be told.
    pub current_dir: Option<LocalPath>,
}

/// `s` without its leading `~/`, however often it is repeated.
pub open spec fn without_tilde(s: Seq<char>) -> Seq<char>
    decreases s.len(),
{
    if s.len() >= 2 && s[0] == '~' && s[1] == '/' {
        without_tilde(s.skip(2))
    } else {
        s
    }
}

/// The view of a path that may be missing.
pub open spec fn path_view(path: Option<LocalPath>) -> Option<Seq<u8>> {
    match path {
        Some(path) => Some(path@),
        None => None,
    }
}

/// A path with a leading `~` replaced by the home directory.
pub open spec fn tilde_expanded(path: Seq<u8>, home: Option<Seq<u8>>) -> Result<
    Seq<u8>,
    ConfigErrorView,
> {
    let raw = lossy_text(path);
    if raw == seq!['~'] || (raw.len() >= 2 && raw[0] == '~' && raw[1] == '/') {
        match home {
            None => Err(ConfigErrorView::NoHomeDirectory),
            Some(home) => if raw == seq!['~'] {
                Ok(home)
            } else {
                Ok(pushed(home, encode_utf8(without_tilde(raw))))
            },
        }
    } else {
        Ok(path)
    }
}

/// A path as seen from the current directory.
pub open spec fn seen_from(path: Seq<u8>, current_dir: Option<Seq<u8>>) -> Result<
    Seq<u8>,
    ConfigErrorView,
> {
    if absolute(path) {
        Ok(path)
    } else {
        match current_dir {
            None => Err(ConfigErrorView::NoCurrentDirectory),
            Some(dir) => Ok(pushed(dir, path)),
        }
    }
}

/// The absolute path that a watch entry means, before links are resolved.
pub open spec fn watch_path(local_path: Seq<u8>, env: PathEnv) -> Result<Seq<u8>, ConfigErrorView> {
    match tilde_expanded(local_path, path_view(env.home)) {
        Err(error) => Err(error),
        Ok(path) => seen_from(path, path_view(env.current_dir)),
    }
}

/// A watch entry after normalization, and what is wrong with it, if anything.
/// `canonical` is the path that the entry's absolute path resolves to, if there
/// is anything at it.
pub open spec fn normalized_entry(
    entry: WatchEntryView,
    env: PathEnv,
    canonical: Option<Seq<u8>>,
) -> (WatchEntryView, Option<ConfigErrorView>) {
    match watch_path(entry.local_path, env) {
        Err(error) => (entry, Some(error)),
        Ok(path) => {
            let local_path = match canonical {
                Some(resolved) => resolved,
                None => path,
            };
            let remote_name = normalized(entry.remote_name);
            (
                WatchEntryView { local_path, remote_name },
                if remote_name.len() == 0 {
                    Some(ConfigErrorView::EmptyRemoteName(local_path))
                } else {
                    None
                },
            )
        },
    }
}

/// The index of the first of the entries that is refused, or their number if
/// none is.
pub open spec fn first_refused(
    watch: Seq<WatchEntryView>,
    env: PathEnv,
    canonical: Seq<Option<Seq<u8>>>,
) -> int
    decreases watch.len(),
{
    if watch.len() == 0 {
        0
    } else {
        let before = first_refused(watch.drop_last(), env, canonical);
        if before < watch.len() - 1 {
            before
        } else if normalized_entry(watch.last(), env, canonical[watch.len() - 1]).1 is Some {
            watch.len() - 1
        } else {
            watch.len() as int
        }
    }
}

/// The remote target folder after normalization.
pub open spec fn target_folder(raw: Seq<char>) -> Seq<char> {
    if normalized(raw).len() == 0 {
        DEFAULT_REMOTE_TARGET_FOLDER@
    } else {
        normalized(raw)
    }
}

/// The views of a list of paths that may be missing.
pub open spec fn path_views(list: Seq<Option<LocalPath>>) -> Seq<Option<Seq<u8>>> {
    list.map_values(|path: Option<LocalPath>| path_view(path))
}

/// The index of the largest score; of equal ones, the last.
pub open spec fn last_largest(scores: Seq<Option<nat>>) -> Option<int>
    decreases scores.len(),
{
    if scores.len() == 0 {
        None
    } else {
        let before = last_largest(scores.drop_last());
        match scores.last() {
            None => before,
            Some(score) => match before {
                Some(i) if scores[i]->0 > score => before,
                _ => Some(scores.len() - 1),
            },
        }
    }
}

/// How well each watch entry covers a local path: by the length of its path,
/// if it covers it at all.
pub open spec fn local_scores(watch: Seq<WatchEntryView>, local_path: Seq<u8>) -> Seq<Option<nat>> {
    watch.map_values(
        |entry: WatchEntryView|
            if within(local_path, entry.local_path) {
                Some(entry.local_path.len())
            } else {
                None
            },
    )
}

/// Whether a remote path is the remote name or lies below it.
pub open spec fn remote_within(remote_path: Seq<char>, remote_name: Seq<char>) -> bool {
    remote_path == remote_name || remote_name.push('/').is_prefix_of(remote_path)
}

/// How well each watch entry covers a remote path: by the length of its name
/// in bytes, if it covers it at all.
pub open spec fn remote_scores(watch: Seq<WatchEntryView>, remote_path: Seq<char>) -> Seq<
    Option<nat>,
> {
    watch.map_values(
        |entry: WatchEntryView|
            if remote_within(remote_path, entry.remote_name) {
                Some(encode_utf8(entry.remote_name).len())
            } else {
                None
            },
    )
}

/// The names among the components, as text with a slash between each two.
pub open spec fn slash_text(list: Seq<Component<Seq<u8>>>) -> Seq<char> {
    joined(names(list).map_values(|name: Seq<u8>| lossy_text(name)), '/')
}

/// A slash-separated text as a path: what stands between the slashes, without
/// empty parts.
pub open spec fn slash_path(raw: Seq<char>) -> Seq<u8> {
    joined(
        split_on(raw, '/').filter(|part: Seq<char>| part.len() > 0).map_values(
            |part: Seq<char>| encode_utf8(part),
        ),
        SLASH,
    )
}

/// The remote path that a watch entry gives to a local path that it covers.
pub open spec fn entry_to_remote(entry: WatchEntryView, local_path: Seq<u8>) -> Seq<char> {
    let rel = slash_text(components(local_path).skip(components(entry.local_path).len() as int));
    if rel.len() == 0 {
        entry.remote_name
    } else {
        entry.remote_name.push('/') + rel
    }
}

/// The local path that a watch entry gives to a remote path that it covers.
pub open spec fn entry_to_local(entry: WatchEntryView, remote_path: Seq<char>) -> Seq<u8> {
    if remote_path == entry.remote_name {
        entry.local_path
    } else {
        pushed(entry.local_path, slash_path(remote_path.skip(entry.remote_name.len() as int + 1)))
    }
}

/// The remote path of an absolute local path: the one that the entry with the
/// longest covering path gives it.
pub open spec fn remote_of(watch: Seq<WatchEntryView>, local_path: Seq<u8>) -> Option<Seq<char>> {
    match last_largest(local_scores(watch, local_path)) {
        None => None,
        Some(i) => Some(entry_to_remote(watch[i], local_path)),
    }
}

/// The local path of a remote path: the one that the entry with the longest
/// covering name gives it.
pub open spec fn local_of(watch: Seq<WatchEntryView>, remote_path: Seq<char>) -> Option<Seq<u8>> {
    let path = normalized(remote_path);
    match last_largest(remote_scores(watch, path)) {
        None => None,
        Some(i) => Some(entry_to_local(watch[i], path)),
    }
}

/// A path as it stands for a file at run time.
pub open spec fn runtime_path(path: Seq<u8>, facts: PathFacts) -> Seq<u8> {
    if absolute(path) {
        if facts.kind != PathKind::Missing && facts.canonical is Some {
            facts.canonical->0@
        } else {
            path
        }
    } else {
        match facts.current_dir {
            Some(dir) => pushed(dir@, path),
            None => path,
        }
    }
}

/// What a [`last_largest`] score is: none is larger, and none after it as
/// large; without one, there is no score at all.
pub proof fn law_last_largest(scores: Seq<Option<nat>>)
    ensures
        match last_largest(scores) {
            None => forall|j: int| 0 <= j < scores.len() ==> #[trigger] scores[j] is None,
            Some(i) => {
                &&& 0 <= i < scores.len()
                &&& scores[i] is Some
                &&& forall|j: int|
                    0 <= j < scores.len() && #[trigger] scores[j] is Some ==> scores[j]->0
                        <= scores[i]->0 && (j > i ==> scores[j]->0 < scores[i]->0)
            },
        },
    decreases scores.len(),
{
    if scores.len() > 0 {
        let before = scores.drop_last();
        law_last_largest(before);
        assert forall|j: int| 0 <= j < before.len() implies before[j] == #[trigger] scores[j] by {}
    }
}

/// The default remote target folder.
pub fn default_remote_target_folder() -> (s: String)
    ensures
        s@ == DEFAULT_REMOTE_TARGET_FOLDER@,
{
    DEFAULT_REMOTE_TARGET_FOLDER.to_owned()
}

/// The default seconds between two polls.
pub fn default_poll_interval_seconds() -> (n: u64)
    ensures
        n == DEFAULT_POLL_INTERVAL_SECONDS,
{
    DEFAULT_POLL_INTERVAL_SECONDS
}

/// The configuration file that is written where there is none.
pub fn default_config_template() -> (s: String)
    ensures
        s@ == DEFAULT_CONFIG_TEMPLATE@,
{
    DEFAULT_CONFIG_TEMPLATE.to_owned()
}

/// Brings a remote name into the form it is kept in.
pub fn normalize_remote_name(raw: &str) -> (s: String)
    ensures
        s@ == normalized(raw@),
{
    normalize(raw)
}

/// Replaces a leading `~` by the home directory.
pub fn expand_tilde(path: &LocalPath, home: &Option<LocalPath>) -> (r: Result<
    LocalPath,
    ConfigError,
>)
    ensures
        match tilde_expanded(path@, path_view(*home)) {
            Ok(expanded) => r is Ok && r->Ok_0@ == expanded,
            Err(error) => r is Err && r->Err_0@ == error,
        },
{
    let raw = to_chars(path.to_text().as_str());
    let bare: bool = raw.len() == 1 && raw[0] == '~';
    proof {
        if bare {
            assert(raw@ == seq!['~']);
        } else if raw@ == seq!['~'] {
            assert(raw@[0] == '~');
        }
    }
    if bare || (raw.len() >= 2 && raw[0] == '~' && raw[1] == '/') {
        match home {
            None => Err(ConfigError::NoHomeDirectory),
            Some(dir) => {
                if bare {
                    return Ok(dir.clone());
                }
                let mut from: usize = 0;
                assert(raw@.skip(0) == raw@);
                while raw.len() - from >= 2 && raw[from] == '~' && raw[from + 1] == '/'
                    invariant
                        from <= raw.len(),
                        without_tilde(raw@) == without_tilde(raw@.skip(from as int)),
                    decreases raw.len() - from,
                {
                    assert(raw@.skip(from as int).skip(2) == raw@.skip(from + 2));
                    from += 2;
                }
                let suffix = from_chars(slice_subrange(raw.as_slice(), from, raw.len()));
                assert(suffix@ == raw@.skip(from as int));
                Ok(dir.join_text(suffix.as_str()))
            },
        }
    } else {
        Ok(path.clone())
    }
}

/// A path as seen from the current directory.
pub fn to_absolute(path: LocalPath, current_dir: &Option<LocalPath>) -> (r: Result<
    LocalPath,
    ConfigError,
>)
    ensures
        match seen_from(path@, path_view(*current_dir)) {
            Ok(seen) => r is Ok && r->Ok_0@ == seen,
            Err(error) => r is Err && r->Err_0@ == error,
        },
{
    if path.is_absolute() {
        Ok(path)
    } else {
        match current_dir {
            None => Err(ConfigError::NoCurrentDirectory),
            Some(dir) => Ok(dir.join(&path)),
        }
    }
}

/// The path that a file is known by at run time: where it exists, its path
/// without links; a relative one as seen from the current directory.
pub fn absolutize_runtime(path: &LocalPath, facts: &PathFacts) -> (r: LocalPath)
    ensures
        r@ == runtime_path(path@, *facts),
{
    if path.is_absolute() {
        match facts.kind {
            PathKind::Missing => path.clone(),
            _ => match &facts.canonical {
                Some(canonical) => canonical.clone(),
                None => path.clone(),
            },
        }
    } else {
        match &facts.current_dir {
            Some(dir) => dir.join(path),
            None => path.clone(),
        }
    }
}

/// The names among the components from the given one on, as text with a slash
/// between each two.
pub fn path_to_slash_string(list: &Vec<Component<Vec<u8>>>, from: usize) -> (s: String)
    requires
        from <= list@.len(),
    ensures
        s@ == slash_text(component_views(list@).skip(from as int)),
{
    let ghost all = component_views(list@).skip(from as int);
    let ghost lossy = |name: Seq<u8>| lossy_text(name);
    let mut parts: Vec<Vec<char>> = Vec::new();
    let mut i: usize = from;
    assert(names(all.take(0)).map_values(lossy) == char_lists(parts@));
    while i < list.len()
        invariant
            from <= i <= list@.len(),
            all == component_views(list@).skip(from as int),
            lossy == (|name: Seq<u8>| lossy_text(name)),
            char_lists(parts@) == names(all.take(i - from)).map_values(lossy),
        decreases list.len() - i,
    {
        let ghost before = parts@;
        let ghost done = all.take(i + 1 - from);
        assert(done.drop_last() == all.take(i - from));
        assert(done.last() == component_view(list@[i as int]));
        match &list[i] {
            Component::Normal(name) => {
                let text = text_lossy(name.as_slice());
                parts.push(to_chars(text.as_str()));
                assert(char_lists(parts@) == char_lists(before).push(lossy_text(name@)));
                assert(names(done).map_values(lossy) == names(done.drop_last()).map_values(
                    lossy,
                ).push(lossy_text(name@)));
            },
            _ => {},
        }
        i += 1;
    }
    assert(all.take(i - from) == all);
    from_chars(join(&parts, '/').as_slice())
}

/// A slash-separated text as a path.
pub fn slash_string_to_path(raw: &[char]) -> (r: LocalPath)
    ensures
        r@ == slash_path(raw@),
{
    let parts = split(raw, '/');
    let ghost all = char_lists(parts@);
    let ghost keep = |part: Seq<char>| part.len() > 0;
    let ghost encode = |part: Seq<char>| encode_utf8(part);
    let mut out: Vec<Vec<u8>> = Vec::new();
    let mut i: usize = 0;
    proof {
        reveal(Seq::filter);
        assert(byte_lists(out@) == all.take(0).filter(keep).map_values(encode));
    }
    while i < parts.len()
        invariant
            i <= parts.len(),
            all == char_lists(parts@),
            keep == (|part: Seq<char>| part.len() > 0),
            encode == (|part: Seq<char>| encode_utf8(part)),
            byte_lists(out@) == all.take(i as int).filter(keep).map_values(encode),
        decreases parts.len() - i,
    {
        let part = &parts[i];
        let ghost before = out@;
        let ghost kept = all.take(i as int).filter(keep);
        proof {
            reveal(Seq::filter);
            assert(all.take(i + 1).drop_last() == all.take(i as int));
            assert(all.take(i + 1).last() == part@);
        }
        if part.len() > 0 {
            let text = from_chars(part.as_slice());
            let encoded = LocalPath::new(text.as_str());
            out.push(encoded.bytes);
            assert(byte_lists(out@) == byte_lists(before).push(encode_utf8(part@)));
            assert(kept.push(part@).map_values(encode) == kept.map_values(encode).push(
                encode_utf8(part@),
            ));
        }
        i += 1;
    }
    assert(all.take(i as int) == all);
    LocalPath::from_bytes(join_bytes(&out, SLASH))
}

impl AppConfig {
    /// The absolute path that each watch entry means, before links are
    /// resolved.
    pub fn watch_paths(&self, env: &PathEnv) -> (r: Vec<Result<LocalPath, ConfigError>>)
        ensures
            r@.len() == self@.watch.len(),
            forall|i: int|
                0 <= i < r@.len() ==> match watch_path(self@.watch[i].local_path, *env) {
                    Ok(path) => #[trigger] r@[i] is Ok && r@[i]->Ok_0@ == path,
                    Err(error) => r@[i] is Err && r@[i]->Err_0@ == error,
                },
    {
        let mut r: Vec<Result<LocalPath, ConfigError>> = Vec::new();
        let mut i: usize = 0;
        while i < self.watch.len()
            invariant
                i <= self.watch.len(),
                r@.len() == i,
                forall|j: int|
                    0 <= j < i ==> match watch_path(self@.watch[j].local_path, *env) {
                        Ok(path) => #[trigger] r@[j] is Ok && r@[j]->Ok_0@ == path,
                        Err(error) => r@[j] is Err && r@[j]->Err_0@ == error,
                    },
            decreases self.watch.len() - i,
        {
            let found = match expand_tilde(&self.watch[i].local_path, &env.home) {
                Ok(expanded) => to_absolute(expanded, &env.current_dir),
                Err(error) => Err(error),
            };
            r.push(found);
            i += 1;
        }
        r
    }

    /// Fills in defaults and brings every path and name into the form it is
    /// kept in. `canonical` holds, for each watch entry, the path that its
    /// absolute path (see [`AppConfig::watch_paths`]) resolves to, if there is
    /// anything at it. The first entry that is refused ends the work.
    pub fn normalize(&mut self, env: &PathEnv, canonical: &Vec<Option<LocalPath>>) -> (r: Result<
        (),
        ConfigError,
    >)
        requires
            canonical@.len() == old(self)@.watch.len(),
        ensures
            final(self)@.remote_target_folder == target_folder(old(self)@.remote_target_folder),
            final(self)@.poll_interval_seconds == if old(self)@.poll_interval_seconds == 0 {
                DEFAULT_POLL_INTERVAL_SECONDS
            } else {
                old(self)@.poll_interval_seconds
            },
            final(self)@.watch.len() == old(self)@.watch.len(),
            ({
                let before = old(self)@.watch;
                let resolved = path_views(canonical@);
                let k = first_refused(before, *env, resolved);
                &&& 0 <= k <= before.len()
                &&& r is Ok <==> k == before.len()
                &&& r is Err ==> normalized_entry(before[k], *env, resolved[k]).1 == Some(
                    r->Err_0@,
                )
                &&& forall|i: int|
                    0 <= i < before.len() ==> #[trigger] final(self)@.watch[i] == if i <= k {
                        normalized_entry(before[i], *env, resolved[i]).0
                    } else {
                        before[i]
                    }
            }),
    {
        let ghost before = self@.watch;
        let ghost resolved = path_views(canonical@);
        self.remote_target_folder = normalize_remote_name(self.remote_target_folder.as_str());
        if self.remote_target_folder.as_str().is_empty() {
            self.remote_target_folder = default_remote_target_folder();
        }
        if self.poll_interval_seconds == 0 {
            self.poll_interval_seconds = default_poll_interval_seconds();
        }
        let ghost folder = self.remote_target_folder;
        let ghost poll = self.poll_interval_seconds;
        let mut i: usize = 0;
        assert(before.take(0) == Seq::<WatchEntryView>::empty());
        while i < self.watch.len()
            invariant
                i <= self.watch.len(),
                canonical@.len() == before.len(),
                self.watch@.len() == before.len(),
                resolved == path_views(canonical@),
                before == old(self)@.watch,
                self.remote_target_folder == folder,
                folder@ == target_folder(old(self)@.remote_target_folder),
                self.poll_interval_seconds == poll,
                poll == if old(self)@.poll_interval_seconds == 0 {
                    DEFAULT_POLL_INTERVAL_SECONDS
                } else {
                    old(self)@.poll_interval_seconds
                },
                first_refused(before.take(i as int), *env, resolved) == i,
                forall|j: int|
                    0 <= j < before.len() ==> #[trigger] watch_views(self.watch@)[j] == if j < i {
                        normalized_entry(before[j], *env, resolved[j]).0
                    } else {
                        before[j]
                    },
            decreases self.watch.len() - i,
        {
            let ghost entry = before[i as int];
            assert(watch_views(self.watch@)[i as int] == entry);
            assert(before.take(i + 1).drop_last() == before.take(i as int));
            assert(before.take(i + 1).last() == entry);
            assert(resolved[i as int] == path_view(canonical@[i as int]));
            proof {
                lemma_first_refused_prefix(before, i + 1, *env, resolved);
            }
            let expanded = match expand_tilde(&self.watch[i].local_path, &env.home) {
                Ok(expanded) => expanded,
                Err(error) => {
                    return Err(error);
                },
            };
            let absolute_path = match to_absolute(expanded, &env.current_dir) {
                Ok(path) => path,
                Err(error) => {
                    return Err(error);
                },
            };
            let local_path = match &canonical[i] {
                Some(path) => path.clone(),
                None => absolute_path,
            };
            let remote_name = normalize_remote_name(self.watch[i].remote_name.as_str());
            let empty: bool = remote_name.as_str().is_empty();
            let refused = local_path.clone();
            let ghost prev = self.watch@;
            self.watch.set(i, WatchEntry { local_path, remote_name });
            assert(watch_views(self.watch@) == watch_views(prev).update(
                i as int,
                self.watch@[i as int]@,
            ));
            assert(watch_views(self.watch@)[i as int] == normalized_entry(
                entry,
                *env,
                resolved[i as int],
            ).0);
            if empty {
                return Err(ConfigError::EmptyRemoteName { local_path: refused });
            }
            i += 1;
        }
        assert(before.take(i as int) == before);
        Ok(())
    }

    /// The remote path of a local one, if a watch entry covers it.
    pub fn local_to_remote(&self, local_path: &LocalPath, facts: &PathFacts) -> (r: Option<String>)
        ensures
            match remote_of(self@.watch, runtime_path(local_path@, *facts)) {
                Some(remote) => r is Some && r->0@ == remote,
                None => r is None,
            },
    {
        let local_abs = absolutize_runtime(local_path, facts);
        let ghost scores = local_scores(self@.watch, local_abs@);
        let mut best: Option<usize> = None;
        let mut i: usize = 0;
        assert(scores.take(0) == Seq::<Option<nat>>::empty());
        while i < self.watch.len()
            invariant
                i <= self.watch.len(),
                scores == local_scores(self@.watch, local_abs@),
                match best {
                    Some(k) => k < i && last_largest(scores.take(i as int)) == Some(k as int),
                    None => last_largest(scores.take(i as int)) is None,
                },
            decreases self.watch.len() - i,
        {
            proof {
                assert(scores.take(i + 1).drop_last() == scores.take(i as int));
                law_last_largest(scores.take(i as int));
                assert(scores.take(i + 1).last() == scores[i as int]);
                assert(self@.watch[i as int] == self.watch@[i as int]@);
            }
            if local_abs.starts_with(&self.watch[i].local_path) {
                match best {
                    Some(k) => {
                        assert(self@.watch[k as int] == self.watch@[k as int]@);
                        assert(scores.take(i + 1)[k as int] == scores[k as int]);
                        assert(scores.take(i as int)[k as int] == scores[k as int]);
                        if self.watch[i].local_path.bytes.len()
                            >= self.watch[k].local_path.bytes.len() {
                            best = Some(i);
                        }
                    },
                    None => {
                        best = Some(i);
                    },
                }
            }
            i += 1;
        }
        assert(scores.take(i as int) == scores);
        match best {
            None => None,
            Some(k) => {
                proof {
                    law_last_largest(scores);
                    assert(self@.watch[k as int] == self.watch@[k as int]@);
                }
                let entry = &self.watch[k];
                let list = local_abs.components();
                let base = entry.local_path.components();
                assert(base@.len() == components(entry.local_path@).len());
                assert(list@.len() == components(local_abs@).len());
                let rel = path_to_slash_string(&list, base.len());
                let mut remote = entry.remote_name.clone();
                if !rel.as_str().is_empty() {
                    remote.push('/');
                    remote.append(rel.as_str());
                }
                Some(remote)
            },
        }
    }

    /// The local path of a remote one, if a watch entry covers it.
    pub fn remote_to_local(&self, remote_path: &str) -> (r: Option<LocalPath>)
        ensures
            match local_of(self@.watch, remote_path@) {
                Some(local) => r is Some && r->0@ == local,
                None => r is None,
            },
    {
        let path = to_chars(normalize_remote_name(remote_path).as_str());
        let ghost scores = remote_scores(self@.watch, path@);
        let mut best: Option<usize> = None;
        let mut i: usize = 0;
        assert(scores.take(0) == Seq::<Option<nat>>::empty());
        while i < self.watch.len()
            invariant
                i <= self.watch.len(),
                scores == remote_scores(self@.watch, path@),
                match best {
                    Some(k) => k < i && last_largest(scores.take(i as int)) == Some(k as int),
                    None => last_largest(scores.take(i as int)) is None,
                },
            decreases self.watch.len() - i,
        {
            proof {
                assert(scores.take(i + 1).drop_last() == scores.take(i as int));
                law_last_largest(scores.take(i as int));
                assert(scores.take(i + 1).last() == scores[i as int]);
                assert(self@.watch[i as int] == self.watch@[i as int]@);
            }
            if covers_remote(self.watch[i].remote_name.as_str(), path.as_slice()) {
                match best {
                    Some(k) => {
                        assert(self@.watch[k as int] == self.watch@[k as int]@);
                        assert(scores.take(i + 1)[k as int] == scores[k as int]);
                        assert(scores.take(i as int)[k as int] == scores[k as int]);
                        if self.watch[i].remote_name.as_str().as_bytes().len()
                            >= self.watch[k].remote_name.as_str().as_bytes().len() {
                            best = Some(i);
                        }
                    },
                    None => {
                        best = Some(i);
                    },
                }
            }
            i += 1;
        }
        assert(scores.take(i as int) == scores);
        match best {
            None => None,
            Some(k) => {
                proof {
                    law_last_largest(scores);
                    assert(self@.watch[k as int] == self.watch@[k as int]@);
                }
                let entry = &self.watch[k];
                let name = to_chars(entry.remote_name.as_str());
                if same_chars(path.as_slice(), name.as_slice()) {
                    return Some(entry.local_path.clone());
                }
                assert(remote_within(path@, name@));
                let end: usize = path.len();
                assert(name@.push('/').len() <= path@.len());
                let rel = slice_subrange(path.as_slice(), name.len() + 1, end);
                assert(rel@ == path@.skip(name.len() + 1));
                Some(entry.local_path.join(&slash_string_to_path(rel)))
            },
        }
    }
}

/// Whether a remote path is the remote name or lies below it.
fn covers_remote(remote_name: &str, remote_path: &[char]) -> (r: bool)
    ensures
        r == remote_within(remote_path@, remote_name@),
{
    let name = to_chars(remote_name);
    if same_chars(remote_path, name.as_slice()) {
        return true;
    }
    if remote_path.len() <= name.len() || remote_path[name.len()] != '/' {
        proof {
            if remote_name@.push('/').is_prefix_of(remote_path@) {
                assert(remote_path@[name@.len() as int] == remote_name@.push('/')[name@.len() as int]);
            }
        }
        return false;
    }
    let head = slice_subrange(remote_path, 0, name.len());
    let r = same_chars(head, name.as_slice());
    proof {
        let prefix = remote_name@.push('/');
        if r {
            assert(prefix == remote_path@.take(prefix.len() as int));
        } else if prefix.is_prefix_of(remote_path@) {
            assert(head@ == prefix.drop_last());
            assert(prefix.drop_last() == name@);
        }
    }
    r
}

/// The first refused entry of a list does not depend on what follows it.
proof fn lemma_first_refused_prefix(
    watch: Seq<WatchEntryView>,
    n: int,
    env: PathEnv,
    canonical: Seq<Option<Seq<u8>>>,
)
    requires
        0 <= n <= watch.len(),
    ensures
        0 <= first_refused(watch.take(n), env, canonical) <= n,
        first_refused(watch.take(n), env, canonical) < n ==> first_refused(watch, env, canonical)
            == first_refused(watch.take(n), env, canonical),
    decreases watch.len() - n, n,
{
    if n > 0 {
        assert(watch.take(n).drop_last() == watch.take(n - 1));
        lemma_first_refused_bound(watch.take(n), env, canonical);
    }
    if n < watch.len() {
        lemma_first_refused_prefix(watch, n + 1, env, canonical);
        assert(watch.take(n + 1).drop_last() == watch.take(n));
    } else {
        assert(watch.take(n) == watch);
    }
    lemma_first_refused_bound(watch.take(n), env, canonical);
}

/// The first refused entry is one of the list, or its length.
proof fn lemma_first_refused_bound(
    watch: Seq<WatchEntryView>,
    env: PathEnv,
    canonical: Seq<Option<Seq<u8>>>,
)
    ensures
        0 <= first_refused(watch, env, canonical) <= watch.len(),
    decreases watch.len(),
{
    if watch.len() > 0 {
        lemma_first_refused_bound(watch.drop_last(), env, canonical);
    }
}

} // verus!
