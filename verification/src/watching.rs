//! Which file changes a language server is told of.

use crate::globs::glob_matches;
use crate::json::{
    array_value, json_of, lemma_insert_depth, number_value, object_value, reads_back, text_value,
    whole_and_shallow, whole_number, Json, JsonNumber, Members, DEPTH_LIMIT,
};
use crate::messages::{
    encode, lemma_deeper, lemma_notification_depth, notification, notification_json,
    notifications_have_three_members, on_the_wire, understood,
};
use crate::registration::{kind_mask_of, PatternView, WatchedPattern};
use crate::text::same_bytes;
use crate::uri::{path_to_file_uri, uri_of_path};
use serde_json::Value;
use vstd::prelude::*;
use vstd::string::*;

verus! {

/// A file path: its text, the bytes by which globs match it, and the names of
/// its components from the root on. Behind the first `n` components the rest
/// of the path is `rests[n]`.
#[verifier::ext_equal]
pub struct PathView {
    pub text: Seq<char>,
    pub bytes: Seq<u8>,
    pub names: Seq<Seq<u8>>,
    pub rests: Seq<Seq<u8>>,
}

impl PathView {
    /// Whether two paths have the same components and so name the same place.
    pub open spec fn same_place(self, other: PathView) -> bool {
        self.names == other.names
    }

    /// Whether the path lies in a directory or is that directory.
    pub open spec fn within(self, dir: PathView) -> bool {
        dir.names.is_prefix_of(self.names)
    }

    /// The path relative to a directory that it lies in.
    pub open spec fn relative_to(self, dir: PathView) -> Option<Seq<u8>> {
        if self.within(dir) {
            Some(self.rests[dir.names.len() as int])
        } else {
            None
        }
    }
}

/// A component of a path: its name, and the rest of the path behind it.
pub struct PathPart {
    pub name: Vec<u8>,
    pub rest: Vec<u8>,
}

/// A file path, taken apart into its components.
pub struct FilePath {
    /// The path as text.
    pub text: String,
    /// The bytes by which globs match the path.
    pub bytes: Vec<u8>,
    /// The path before any component is taken off.
    pub start: Vec<u8>,
    /// The components from the root on.
    pub parts: Vec<PathPart>,
}

impl View for FilePath {
    type V = PathView;

    open spec fn view(&self) -> PathView {
        PathView {
            text: self.text@,
            bytes: self.bytes@,
            names: self.parts@.map_values(|part: PathPart| part.name@),
            rests: seq![self.start@] + self.parts@.map_values(|part: PathPart| part.rest@),
        }
    }
}

/// The content of an optional path.
pub open spec fn optional_path(path: Option<FilePath>) -> Option<PathView> {
    match path {
        Some(path) => Some(path@),
        None => None,
    }
}

impl FilePath {
    /// Whether the path lies in a directory or is that directory.
    pub fn is_within(&self, dir: &FilePath) -> (yes: bool)
        ensures
            yes == self@.within(dir@),
    {
        if self.parts.len() < dir.parts.len() {
            return false;
        }
        let mut i: usize = 0;
        while i < dir.parts.len()
            invariant
                i <= dir.parts@.len() <= self.parts@.len(),
                forall|j: int| 0 <= j < i ==> #[trigger] dir@.names[j] == self@.names[j],
            decreases dir.parts@.len() - i,
        {
            if !same_bytes(dir.parts[i].name.as_slice(), self.parts[i].name.as_slice()) {
                assert(dir@.names[i as int] != self@.names.subrange(0, dir@.names.len() as int)[i as int]);
                return false;
            }
            i += 1;
        }
        assert(dir@.names == self@.names.subrange(0, dir@.names.len() as int));
        true
    }

    /// Whether two paths name the same place.
    pub fn is_same_place(&self, other: &FilePath) -> (yes: bool)
        ensures
            yes == self@.same_place(other@),
    {
        let yes: bool = self.parts.len() == other.parts.len() && self.is_within(other);
        proof {
            if yes {
                assert(self@.names.subrange(0, self@.names.len() as int) == self@.names);
            } else if self@.names == other@.names {
                assert(self@.names.subrange(0, self@.names.len() as int) == self@.names);
                assert(self@.names.len() == self.parts@.len());
                assert(other@.names.len() == other.parts@.len());
            }
        }
        yes
    }

    /// The path relative to a directory that it lies in.
    pub fn strip_prefix(&self, dir: &FilePath) -> (rest: Option<&Vec<u8>>)
        ensures
            match rest {
                Some(rest) => self@.relative_to(dir@) == Some(rest@),
                None => self@.relative_to(dir@) is None,
            },
    {
        if !self.is_within(dir) {
            return None;
        }
        let n: usize = dir.parts.len();
        if n == 0 {
            Some(&self.start)
        } else {
            Some(&self.parts[n - 1].rest)
        }
    }
}

/// What happened to a file, as a file watcher tells it.
pub enum ChangeKind {
    Any,
    Access,
    Create,
    Modify,
    Remove,
    Other,
}

/// The number by which LSP names a kind of change; only creation,
/// modification and removal have one.
pub open spec fn lsp_kind(kind: ChangeKind) -> Option<u32> {
    match kind {
        ChangeKind::Create => Some(1),
        ChangeKind::Modify => Some(2),
        ChangeKind::Remove => Some(3),
        _ => None,
    }
}

/// The number by which LSP names a kind of change.
pub fn notify_kind_to_lsp(kind: &ChangeKind) -> (number: Option<u32>)
    ensures
        number == lsp_kind(*kind),
{
    match kind {
        ChangeKind::Create => Some(1),
        ChangeKind::Modify => Some(2),
        ChangeKind::Remove => Some(3),
        _ => None,
    }
}

/// A watched pattern with the directory that it is relative to, where it has
/// one.
#[verifier::ext_equal]
pub struct WatchView {
    pub pattern: PatternView,
    pub base: Option<PathView>,
}

impl WatchView {
    /// The directory that is watched for the pattern: its base, or else the
    /// working directory.
    pub open spec fn dir(self, cwd: PathView) -> PathView {
        match self.base {
            Some(base) => base,
            None => cwd,
        }
    }

    /// Whether the pattern covers a path. One with a base covers the paths in
    /// the base that it matches relative to it. One without a base covers the
    /// paths that it matches as they are, or relative to the working directory
    /// where they lie in it.
    pub open spec fn covers(self, cwd: PathView, path: PathView) -> bool {
        let glob = self.pattern.glob;
        match self.base {
            Some(base) => match path.relative_to(base) {
                Some(rest) => glob_matches(glob.pattern, glob.style, rest),
                None => false,
            },
            None => {
                ||| match path.relative_to(cwd) {
                    Some(rest) => glob_matches(glob.pattern, glob.style, rest),
                    None => false,
                }
                ||| glob_matches(glob.pattern, glob.style, path.bytes)
            },
        }
    }
}

/// A watched pattern with the directory that it is relative to.
pub struct Watch {
    pub pattern: WatchedPattern,
    pub base: Option<FilePath>,
}

impl View for Watch {
    type V = WatchView;

    open spec fn view(&self) -> WatchView {
        WatchView { pattern: self.pattern@, base: optional_path(self.base) }
    }
}

impl Watch {
    /// Whether the pattern covers a path.
    pub fn covers(&self, cwd: &FilePath, path: &FilePath) -> (yes: bool)
        ensures
            yes == self@.covers(cwd@, path@),
    {
        match &self.base {
            Some(base) => match path.strip_prefix(base) {
                Some(rest) => self.pattern.glob_matches(rest.as_slice()),
                None => false,
            },
            None => {
                let relative: &Vec<u8> = match path.strip_prefix(cwd) {
                    Some(rest) => rest,
                    None => &path.bytes,
                };
                self.pattern.glob_matches(relative.as_slice()) || self.pattern.glob_matches(
                    path.bytes.as_slice(),
                )
            },
        }
    }
}

/// What is watched: the working directory, and the patterns in the order in
/// which they were registered.
#[verifier::ext_equal]
pub struct TableView {
    pub cwd: PathView,
    pub watches: Seq<WatchView>,
}

impl TableView {
    /// Whether a pattern is registered for which a directory is watched.
    pub open spec fn knows_dir(self, dir: PathView) -> bool {
        exists|i: int|
            0 <= i < self.watches.len() && (#[trigger] self.watches[i]).dir(self.cwd).same_place(dir)
    }

    /// Whether a change is to be reported for a path, where `kind` is the number
    /// by which LSP names the kind of change: some pattern whose mask has a bit in
    /// common with the number covers the path.
    pub open spec fn reports(self, kind: u32, path: PathView) -> bool {
        exists|i: int|
            0 <= i < self.watches.len() && (#[trigger] self.watches[i]).pattern.kind_mask & kind != 0
                && self.watches[i].covers(self.cwd, path)
    }

    /// Those of several changed paths that are to be reported, in order.
    pub open spec fn reported(self, kind: u32, paths: Seq<PathView>) -> Seq<PathView> {
        paths.filter(|path: PathView| self.reports(kind, path))
    }
}

/// What is left to do when a pattern was registered.
#[derive(Debug, PartialEq, Eq, Structural)]
pub enum Registered {
    /// Its directory is watched already.
    Known,
    /// Its base directory is to be watched from now on.
    WatchBase,
    /// The working directory is to be watched from now on.
    WatchWorkingDir,
}

/// Whether a path is what the base of a pattern was resolved to.
pub open spec fn resolved(pattern: PatternView, base: Option<PathView>) -> bool {
    match base {
        Some(base) => pattern.base == Some(base.text),
        None => pattern.base is None,
    }
}

/// What is watched.
pub struct WatchTable {
    cwd: FilePath,
    watches: Vec<Watch>,
}

impl View for WatchTable {
    type V = TableView;

    closed spec fn view(&self) -> TableView {
        TableView { cwd: self.cwd@, watches: self.watches@.map_values(|watch: Watch| watch@) }
    }
}

impl WatchTable {
    /// A table without patterns.
    pub fn new(cwd: FilePath) -> (table: WatchTable)
        ensures
            table@ == (TableView { cwd: cwd@, watches: Seq::empty() }),
    {
        let table = WatchTable { cwd, watches: Vec::new() };
        assert(table@.watches == Seq::<WatchView>::empty());
        table
    }

    /// Whether a directory is watched already.
    pub fn is_known_dir(&self, dir: &FilePath) -> (yes: bool)
        ensures
            yes == self@.knows_dir(dir@),
    {
        let mut i: usize = 0;
        while i < self.watches.len()
            invariant
                i <= self.watches@.len(),
                forall|j: int|
                    0 <= j < i ==> !(#[trigger] self@.watches[j]).dir(self@.cwd).same_place(dir@),
            decreases self.watches@.len() - i,
        {
            let watched: &FilePath = match &self.watches[i].base {
                Some(base) => base,
                None => &self.cwd,
            };
            assert(self@.watches[i as int].dir(self@.cwd) == watched@);
            if watched.is_same_place(dir) {
                return true;
            }
            i += 1;
        }
        false
    }

    /// Registers a pattern, whose base directory was resolved to `base`, and
    /// tells what is to be watched for it that was not watched before.
    pub fn register(&mut self, pattern: WatchedPattern, base: Option<FilePath>) -> (todo: Registered)
        requires
            resolved(pattern@, optional_path(base)),
        ensures
            final(self)@.cwd == old(self)@.cwd,
            final(self)@.watches == old(self)@.watches.push(
                WatchView { pattern: pattern@, base: optional_path(base) },
            ),
            todo == match optional_path(base) {
                Some(dir) => if old(self)@.knows_dir(dir) {
                    Registered::Known
                } else {
                    Registered::WatchBase
                },
                None => if old(self)@.knows_dir(old(self)@.cwd) {
                    Registered::Known
                } else {
                    Registered::WatchWorkingDir
                },
            },
    {
        let todo: Registered = match &base {
            Some(dir) => if self.is_known_dir(dir) {
                Registered::Known
            } else {
                Registered::WatchBase
            },
            None => if self.is_known_dir(&self.cwd) {
                Registered::Known
            } else {
                Registered::WatchWorkingDir
            },
        };
        let watch = Watch { pattern, base };
        let ghost before = self.watches@;
        self.watches.push(watch);
        assert(self@.watches == before.map_values(|watch: Watch| watch@).push(watch@));
        todo
    }

    /// Whether a change of the given kind is to be reported for a path.
    pub fn is_reported(&self, kind: u32, path: &FilePath) -> (yes: bool)
        ensures
            yes == self@.reports(kind, path@),
    {
        let mut i: usize = 0;
        while i < self.watches.len()
            invariant
                i <= self.watches@.len(),
                forall|j: int|
                    0 <= j < i ==> !((#[trigger] self@.watches[j]).pattern.kind_mask & kind != 0
                        && self@.watches[j].covers(self@.cwd, path@)),
            decreases self.watches@.len() - i,
        {
            let watch: &Watch = &self.watches[i];
            assert(self@.watches[i as int] == watch@);
            if watch.pattern.kind_mask() & kind != 0 && watch.covers(&self.cwd, path) {
                return true;
            }
            i += 1;
        }
        false
    }

    /// Makes the message that tells the server of changed files, which the
    /// server can read. There is none where the kind of change has no number in
    /// LSP, or no path is reported.
    pub fn change_message(&self, kind: &ChangeKind, paths: &Vec<FilePath>) -> (message: Option<
        Vec<u8>,
    >)
        ensures
            match change_notification(self@, *kind, path_views(paths@)) {
                Some(notification) => message is Some && message->Some_0@ == on_the_wire(
                    notification,
                ) && understood(notification),
                None => message is None,
            },
    {
        let number: u32 = match notify_kind_to_lsp(kind) {
            Some(number) => number,
            None => {
                return None;
            },
        };
        let ghost views = path_views(paths@);
        let ghost pred = |path: PathView| self@.reports(number, path);
        let mut changes: Vec<Value> = Vec::new();
        let mut i: usize = 0;
        while i < paths.len()
            invariant
                i <= paths@.len(),
                views == path_views(paths@),
                pred == (|path: PathView| self@.reports(number, path)),
                changes@.map_values(|item: Value| json_of(item)) == change_list(
                    number,
                    views.take(i as int).filter(pred),
                ),
            decreases paths@.len() - i,
        {
            let path: &FilePath = &paths[i];
            assert(views.take(i + 1).drop_last() == views.take(i as int));
            assert(views.take(i + 1).last() == path@);
            reveal(Seq::filter);
            if self.is_reported(number, path) {
                let ghost before = changes@;
                let change: Value = change_entry(number, path);
                changes.push(change);
                assert(changes@.map_values(|item: Value| json_of(item)) == before.map_values(
                    |item: Value| json_of(item),
                ).push(json_of(change)));
                assert(change_list(number, views.take(i as int).filter(pred).push(path@))
                    == change_list(number, views.take(i as int).filter(pred)).push(
                    change_json(number, path@),
                ));
            }
            i += 1;
        }
        assert(views.take(i as int) == views);
        assert(changes@.map_values(|item: Value| json_of(item)).len() == self@.reported(number, views).len());
        if changes.len() == 0 {
            return None;
        }
        proof {
            lemma_change_depth(number, self@.reported(number, views));
        }
        let mut params: serde_json::Map<String, Value> = serde_json::Map::new();
        params.insert(String::from_str("changes"), array_value(changes));
        encode(&notification("workspace/didChangeWatchedFiles", object_value(params)))
    }
}

/// The paths in a list.
pub open spec fn path_views(paths: Seq<FilePath>) -> Seq<PathView> {
    paths.map_values(|path: FilePath| path@)
}

/// A changed file in a notification.
pub open spec fn change_json(kind: u32, path: PathView) -> Json {
    Json::Object(
        Members::empty().insert("uri"@, Json::Text(uri_of_path(path.text))).insert(
            "type"@,
            whole_number(kind as int),
        ),
    )
}

/// The changed files in a notification.
pub open spec fn change_list(kind: u32, paths: Seq<PathView>) -> Seq<Json> {
    paths.map_values(|path: PathView| change_json(kind, path))
}

/// The notification that tells the server of changed files.
pub open spec fn change_notification(
    table: TableView,
    kind: ChangeKind,
    paths: Seq<PathView>,
) -> Option<Json> {
    match lsp_kind(kind) {
        Some(number) => {
            let reported = table.reported(number, paths);
            if reported.len() == 0 {
                None
            } else {
                Some(
                    notification_json(
                        "workspace/didChangeWatchedFiles"@,
                        Json::Object(
                            Members::empty().insert(
                                "changes"@,
                                Json::Array(change_list(number, reported)),
                            ),
                        ),
                    ),
                )
            }
        },
        None => None,
    }
}

/// A notification of changed files can be read back.
proof fn lemma_change_depth(kind: u32, paths: Seq<PathView>)
    ensures
        reads_back(
            notification_json(
                "workspace/didChangeWatchedFiles"@,
                Json::Object(
                    Members::empty().insert("changes"@, Json::Array(change_list(kind, paths))),
                ),
            ),
        ),
{
    let changes = change_list(kind, paths);
    assert forall|i: int| 0 <= i < changes.len() implies whole_and_shallow(
        #[trigger] changes[i],
        1,
    ) by {
        let uri = Json::Text(uri_of_path(paths[i].text));
        lemma_insert_depth(Members::empty(), "uri"@, uri, 0);
        lemma_insert_depth(
            Members::empty().insert("uri"@, uri),
            "type"@,
            whole_number(kind as int),
            0,
        );
    }
    let params = Members::empty().insert("changes"@, Json::Array(changes));
    lemma_insert_depth(Members::empty(), "changes"@, Json::Array(changes), 2);
    lemma_notification_depth("workspace/didChangeWatchedFiles"@, Json::Object(params), 3);
    lemma_deeper(
        notification_json("workspace/didChangeWatchedFiles"@, Json::Object(params)),
        4,
        DEPTH_LIMIT as nat,
    );
}

/// Makes the entry for a changed file.
fn change_entry(kind: u32, path: &FilePath) -> (entry: Value)
    ensures
        json_of(entry) == change_json(kind, path@),
{
    let uri: String = path_to_file_uri(path.text.as_str());
    let mut object: serde_json::Map<String, Value> = serde_json::Map::new();
    object.insert(String::from_str("uri"), text_value(uri.as_str()));
    object.insert(String::from_str("type"), number_value(kind as i64));
    object_value(object)
}

/// The directories that are to be watched for the patterns of a table: those
/// that were not watched yet when their pattern was registered.
pub open spec fn announced_dirs(table: TableView) -> Seq<PathView>
    decreases table.watches.len(),
{
    if table.watches.len() == 0 {
        Seq::empty()
    } else {
        let before = TableView { cwd: table.cwd, watches: table.watches.drop_last() };
        let dir = table.watches.last().dir(table.cwd);
        if before.knows_dir(dir) {
            announced_dirs(before)
        } else {
            announced_dirs(before).push(dir)
        }
    }
}

/// The directory of each pattern is to be watched, and no other.
pub proof fn dirs_are_those_of_patterns(table: TableView, dir: PathView)
    ensures
        table.knows_dir(dir) <==> exists|i: int|
            0 <= i < announced_dirs(table).len() && (#[trigger] announced_dirs(table)[i]).same_place(
                dir,
            ),
    decreases table.watches.len(),
{
    if table.watches.len() > 0 {
        let n = table.watches.len() - 1;
        let before = TableView { cwd: table.cwd, watches: table.watches.drop_last() };
        let last = table.watches[n].dir(table.cwd);
        let dirs = announced_dirs(table);
        let earlier = announced_dirs(before);
        dirs_are_those_of_patterns(before, dir);
        dirs_are_those_of_patterns(before, last);
        if table.knows_dir(dir) {
            let i = choose|i: int|
                0 <= i < table.watches.len() && (#[trigger] table.watches[i]).dir(table.cwd).same_place(
                    dir,
                );
            if i < n {
                assert(before.watches[i] == table.watches[i]);
                assert(before.knows_dir(dir));
                let j = choose|j: int|
                    0 <= j < earlier.len() && (#[trigger] earlier[j]).same_place(dir);
                assert(dirs[j] == earlier[j]);
            } else if before.knows_dir(last) {
                let j = choose|j: int|
                    0 <= j < earlier.len() && (#[trigger] earlier[j]).same_place(last);
                assert(dirs[j].same_place(dir));
            } else {
                assert(dirs[earlier.len() as int] == last);
            }
        }
        if exists|i: int| 0 <= i < dirs.len() && (#[trigger] dirs[i]).same_place(dir) {
            let i = choose|i: int| 0 <= i < dirs.len() && (#[trigger] dirs[i]).same_place(dir);
            if i < earlier.len() {
                assert(earlier[i] == dirs[i]);
                assert(before.knows_dir(dir));
                let j = choose|j: int|
                    0 <= j < before.watches.len() && (#[trigger] before.watches[j]).dir(
                        before.cwd,
                    ).same_place(dir);
                assert(table.watches[j] == before.watches[j]);
            } else {
                assert(table.watches[n].dir(table.cwd).same_place(dir));
            }
        }
    }
}

/// No directory is to be watched twice.
pub proof fn dirs_are_watched_once(table: TableView, i: int, j: int)
    requires
        0 <= i < j < announced_dirs(table).len(),
    ensures
        !announced_dirs(table)[i].same_place(announced_dirs(table)[j]),
    decreases table.watches.len(),
{
    let before = TableView { cwd: table.cwd, watches: table.watches.drop_last() };
    let dir = table.watches.last().dir(table.cwd);
    let earlier = announced_dirs(before);
    dirs_are_those_of_patterns(before, dir);
    if j < earlier.len() {
        dirs_are_watched_once(before, i, j);
    } else {
        assert(earlier[i] == announced_dirs(table)[i]);
    }
}

/// A pattern that is registered takes nothing away: what was reported before
/// is reported still.
pub proof fn registering_keeps_reports(
    table: TableView,
    watch: WatchView,
    kind: u32,
    path: PathView,
)
    requires
        table.reports(kind, path),
    ensures
        (TableView { cwd: table.cwd, watches: table.watches.push(watch) }).reports(kind, path),
{
    let more = TableView { cwd: table.cwd, watches: table.watches.push(watch) };
    let i = choose|i: int|
        0 <= i < table.watches.len() && (#[trigger] table.watches[i]).pattern.kind_mask & kind != 0
            && table.watches[i].covers(table.cwd, path);
    assert(more.watches[i] == table.watches[i]);
}

/// A pattern with a base covers nothing outside its base.
pub proof fn base_bounds_the_pattern(watch: WatchView, cwd: PathView, path: PathView)
    requires
        watch.covers(cwd, path),
        watch.base is Some,
    ensures
        path.within(watch.base->Some_0),
{
}

/// A watcher that does not say which kinds of change it asks for has a mask with
/// a bit in common with the number of every kind that has one in LSP.
pub proof fn default_mask_asks_for_all(kind: ChangeKind)
    requires
        lsp_kind(kind) is Some,
    ensures
        kind_mask_of(Json::Null) & lsp_kind(kind)->Some_0 != 0,
{
    assert(7u32 & 1u32 != 0) by (bit_vector);
    assert(7u32 & 2u32 != 0) by (bit_vector);
    assert(7u32 & 3u32 != 0) by (bit_vector);
}

/// The server is told of a change exactly if it is of a kind that has a number
/// in LSP, and one of the changed paths is to be reported.
pub proof fn told_of_changes(table: TableView, kind: ChangeKind, paths: Seq<PathView>)
    ensures
        change_notification(table, kind, paths) is Some <==> lsp_kind(kind) is Some && exists|i: int|
            0 <= i < paths.len() && table.reports(lsp_kind(kind)->Some_0, #[trigger] paths[i]),
{
    broadcast use vstd::seq_lib::group_filter_ensures;

    if lsp_kind(kind) is Some {
        let number = lsp_kind(kind)->Some_0;
        let pred = |path: PathView| table.reports(number, path);
        let reported = table.reported(number, paths);
        if reported.len() > 0 {
            assert(pred(reported[0]));
            assert(reported.contains(reported[0]));
            paths.lemma_filter_contains_rev(pred, reported[0]);
            let i = choose|i: int| 0 <= i < paths.len() && paths[i] == reported[0];
            assert(table.reports(number, paths[i]));
        }
        if exists|i: int| 0 <= i < paths.len() && table.reports(number, #[trigger] paths[i]) {
            let i = choose|i: int| 0 <= i < paths.len() && table.reports(number, #[trigger] paths[i]);
            assert(pred(paths[i]));
            assert(reported.contains(paths[i]));
        }
    }
}

/// Of the changed paths the server is told of just those that are to be
/// reported.
pub proof fn told_of_reported_paths(
    table: TableView,
    kind: u32,
    paths: Seq<PathView>,
    path: PathView,
)
    ensures
        table.reported(kind, paths).contains(path) <==> paths.contains(path) && table.reports(
            kind,
            path,
        ),
{
    broadcast use vstd::seq_lib::group_filter_ensures;

    let pred = |path: PathView| table.reports(kind, path);
    let reported = table.reported(kind, paths);
    if reported.contains(path) {
        paths.lemma_filter_contains_rev(pred, path);
        let i = choose|i: int| 0 <= i < reported.len() && reported[i] == path;
        assert(pred(reported[i]));
    }
    if paths.contains(path) && table.reports(kind, path) {
        let i = choose|i: int| 0 <= i < paths.len() && paths[i] == path;
        assert(pred(paths[i]));
        assert(reported.contains(paths[i]));
    }
}

/// Once a pattern is registered, the server is told of every change that the
/// pattern covers, if its mask has a bit in common with the number of the kind.
pub proof fn registered_patterns_are_told(
    table: TableView,
    watch: WatchView,
    kind: ChangeKind,
    paths: Seq<PathView>,
    i: int,
)
    requires
        lsp_kind(kind) is Some,
        watch.pattern.kind_mask & lsp_kind(kind)->Some_0 != 0,
        0 <= i < paths.len(),
        watch.covers(table.cwd, paths[i]),
    ensures
        change_notification(
            TableView { cwd: table.cwd, watches: table.watches.push(watch) },
            kind,
            paths,
        ) is Some,
        (TableView { cwd: table.cwd, watches: table.watches.push(watch) }).reported(
            lsp_kind(kind)->Some_0,
            paths,
        ).contains(paths[i]),
{
    let more = TableView { cwd: table.cwd, watches: table.watches.push(watch) };
    let number = lsp_kind(kind)->Some_0;
    assert(more.watches[table.watches.len() as int] == watch);
    assert(more.reports(number, paths[i]));
    told_of_changes(more, kind, paths);
    told_of_reported_paths(more, number, paths, paths[i]);
}

/// Creation is told by the number 1, modification by 2 and removal by 3; nothing
/// else is told.
pub proof fn kinds_have_these_numbers(kind: ChangeKind)
    ensures
        kind is Create ==> lsp_kind(kind) == Some(1u32),
        kind is Modify ==> lsp_kind(kind) == Some(2u32),
        kind is Remove ==> lsp_kind(kind) == Some(3u32),
        !(kind is Create) && !(kind is Modify) && !(kind is Remove) ==> lsp_kind(kind) is None,
{
}

proof fn lemma_change_names_differ()
    ensures
        "uri"@ != "type"@,
{
    reveal_strlit("uri");
    reveal_strlit("type");
    assert("uri"@.len() != "type"@.len());
}

/// The notification lists just the changed paths that are reported, in order.
/// Each entry holds the URI of the path and the number of the kind, and nothing
/// else: 1 for a file that was created, 2 for one that was modified, 3 for one
/// that was removed.
pub proof fn changes_tell_path_and_kind(
    table: TableView,
    kind: ChangeKind,
    paths: Seq<PathView>,
    i: int,
    key: Seq<char>,
)
    requires
        change_notification(table, kind, paths) is Some,
    ensures
        ({
            let notification = change_notification(table, kind, paths)->Some_0;
            let number: u32 = match kind {
                ChangeKind::Create => 1,
                ChangeKind::Modify => 2,
                _ => 3,
            };
            let reported = table.reported(number, paths);
            let items = notification.at("params"@).at("changes"@);
            &&& kind is Create || kind is Modify || kind is Remove
            &&& notification.at("jsonrpc"@) == Json::Text("2.0"@)
            &&& notification.at("method"@) == Json::Text("workspace/didChangeWatchedFiles"@)
            &&& !notification.has("id"@)
            &&& notification.at("params"@).has(key) <==> key == "changes"@
            &&& items is Array
            &&& items->Array_0.len() == reported.len()
            &&& 0 <= i < reported.len() ==> {
                let item = items->Array_0[i];
                &&& item.at("type"@) == Json::Number(JsonNumber::PosInt(number as u64))
                &&& item.at("uri"@) == Json::Text(uri_of_path(reported[i].text))
                &&& item.has(key) <==> key == "uri"@ || key == "type"@
            }
        }),
{
    lemma_change_names_differ();
    reveal_strlit("id");
    reveal_strlit("jsonrpc");
    reveal_strlit("method");
    reveal_strlit("params");
    assert("id"@.len() == 2 && "jsonrpc"@.len() == 7 && "method"@.len() == 6 && "params"@.len()
        == 6);
    let number = lsp_kind(kind)->Some_0;
    let reported = table.reported(number, paths);
    let params = Json::Object(
        Members::empty().insert("changes"@, Json::Array(change_list(number, reported))),
    );
    notifications_have_three_members("workspace/didChangeWatchedFiles"@, params, "id"@);
    if 0 <= i < reported.len() {
        assert(change_list(number, reported)[i] == change_json(number, reported[i]));
    }
}

/// A path that is reported is told: with its URI and the number of the kind it
/// is among the changes. A removed file is told as removed.
pub proof fn reported_paths_are_told_with_their_kind(
    table: TableView,
    kind: ChangeKind,
    paths: Seq<PathView>,
    path: PathView,
    number: u32,
)
    requires
        kind is Create && number == 1 || kind is Modify && number == 2 || kind is Remove && number
            == 3,
        paths.contains(path),
        table.reports(number, path),
    ensures
        change_notification(table, kind, paths) is Some,
        ({
            let items = change_notification(table, kind, paths)->Some_0.at("params"@).at(
                "changes"@,
            )->Array_0;
            exists|i: int|
                0 <= i < items.len() && (#[trigger] items[i]).at("uri"@) == Json::Text(
                    uri_of_path(path.text),
                ) && items[i].at("type"@) == Json::Number(JsonNumber::PosInt(number as u64))
        }),
{
    let reported = table.reported(number, paths);
    told_of_reported_paths(table, number, paths, path);
    let i = choose|i: int| 0 <= i < reported.len() && reported[i] == path;
    changes_tell_path_and_kind(table, kind, paths, i, "uri"@);
    let items = change_notification(table, kind, paths)->Some_0.at("params"@).at(
        "changes"@,
    )->Array_0;
    assert(items[i].at("uri"@) == Json::Text(uri_of_path(path.text)));
}

/// Each changed path is looked at by itself: of two lists the paths of the first
/// and then those of the second are reported.
pub proof fn reports_add_up(
    table: TableView,
    kind: u32,
    first: Seq<PathView>,
    second: Seq<PathView>,
    path: PathView,
)
    ensures
        table.reported(kind, first + second) == table.reported(kind, first) + table.reported(
            kind,
            second,
        ),
        table.reports(kind, path) ==> table.reported(kind, seq![path]) == seq![path],
        !table.reports(kind, path) ==> table.reported(kind, seq![path]).len() == 0,
{
    let pred = |path: PathView| table.reports(kind, path);
    Seq::filter_distributes_over_add(first, second, pred);
    reveal(Seq::filter);
    assert(seq![path].drop_last() == Seq::<PathView>::empty());
    assert(Seq::<PathView>::empty().filter(pred) == Seq::<PathView>::empty());
}

/// A change is reported if and only if there is a registered pattern whose mask
/// has a bit in common with the number of the kind and which covers the path.
pub proof fn reported_is_what_a_pattern_covers(table: TableView, kind: u32, path: PathView)
    ensures
        table.reports(kind, path) <==> exists|i: int|
            0 <= i < table.watches.len() && (#[trigger] table.watches[i]).pattern.kind_mask & kind
                != 0 && table.watches[i].covers(table.cwd, path),
{
}

/// A pattern with a base covers a path if and only if the components of the path
/// begin with those of the base and the glob matches the rest behind them.
pub proof fn patterns_with_a_base_match_behind_it(
    watch: WatchView,
    cwd: PathView,
    path: PathView,
)
    requires
        watch.base is Some,
    ensures
        watch.covers(cwd, path) <==> {
            let names = watch.base->Some_0.names;
            &&& names.len() <= path.names.len()
            &&& forall|i: int| 0 <= i < names.len() ==> #[trigger] names[i] == path.names[i]
            &&& glob_matches(
                watch.pattern.glob.pattern,
                watch.pattern.glob.style,
                path.rests[names.len() as int],
            )
        },
{
    lemma_within(path, watch.base->Some_0);
}

/// A pattern without a base covers a path if and only if the glob matches the
/// path itself, or, where the components of the path begin with those of the
/// working directory, the rest behind them.
pub proof fn patterns_without_a_base_match_the_path(
    watch: WatchView,
    cwd: PathView,
    path: PathView,
)
    requires
        watch.base is None,
    ensures
        watch.covers(cwd, path) <==> {
            ||| glob_matches(watch.pattern.glob.pattern, watch.pattern.glob.style, path.bytes)
            ||| {
                &&& cwd.names.len() <= path.names.len()
                &&& forall|i: int|
                    0 <= i < cwd.names.len() ==> #[trigger] cwd.names[i] == path.names[i]
                &&& glob_matches(
                    watch.pattern.glob.pattern,
                    watch.pattern.glob.style,
                    path.rests[cwd.names.len() as int],
                )
            }
        },
{
    lemma_within(path, cwd);
}

proof fn lemma_within(path: PathView, dir: PathView)
    ensures
        path.within(dir) <==> {
            &&& dir.names.len() <= path.names.len()
            &&& forall|i: int|
                0 <= i < dir.names.len() ==> #[trigger] dir.names[i] == path.names[i]
        },
{
    let n = dir.names.len() as int;
    if path.within(dir) {
        assert forall|i: int| 0 <= i < n implies #[trigger] dir.names[i] == path.names[i] by {
            assert(path.names.subrange(0, n)[i] == path.names[i]);
        }
    }
    if n <= path.names.len() && forall|i: int|
        0 <= i < n ==> #[trigger] dir.names[i] == path.names[i] {
        assert(dir.names == path.names.subrange(0, n));
    }
}

/// A directory is known if and only if it has the same components as the base of
/// a registered pattern, or as the working directory where a registered pattern
/// has no base.
pub proof fn known_dirs_are_bases_or_the_working_dir(table: TableView, dir: PathView)
    ensures
        table.knows_dir(dir) <==> exists|i: int|
            0 <= i < table.watches.len() && (match (#[trigger] table.watches[i]).base {
                Some(base) => base.names == dir.names,
                None => table.cwd.names == dir.names,
            }),
{
    if table.knows_dir(dir) {
        let i = choose|i: int|
            0 <= i < table.watches.len() && (#[trigger] table.watches[i]).dir(table.cwd).same_place(
                dir,
            );
        assert(match table.watches[i].base {
            Some(base) => base.names == dir.names,
            None => table.cwd.names == dir.names,
        });
    }
    if exists|i: int|
        0 <= i < table.watches.len() && (match (#[trigger] table.watches[i]).base {
            Some(base) => base.names == dir.names,
            None => table.cwd.names == dir.names,
        }) {
        let i = choose|i: int|
            0 <= i < table.watches.len() && (match (#[trigger] table.watches[i]).base {
                Some(base) => base.names == dir.names,
                None => table.cwd.names == dir.names,
            });
        assert(table.watches[i].dir(table.cwd).same_place(dir));
    }
}

/// The view of a path shows what its fields hold: the names of the components in
/// order, and what is left of the path behind each.
pub proof fn paths_show_their_fields(path: FilePath, i: int)
    ensures
        path@.text == path.text@,
        path@.bytes == path.bytes@,
        path@.names.len() == path.parts@.len(),
        path@.rests.len() == path.parts@.len() + 1,
        path@.rests[0] == path.start@,
        0 <= i < path.parts@.len() ==> path@.names[i] == path.parts@[i].name@ && path@.rests[i + 1]
            == path.parts@[i].rest@,
{
}

/// The views of a watched pattern and of lists of paths show what they hold.
pub proof fn watches_show_their_fields(watch: Watch, paths: Seq<FilePath>, i: int)
    ensures
        watch@.pattern == watch.pattern@,
        watch.base matches Some(base) ==> watch@.base == Some(base@),
        watch.base is None ==> watch@.base is None,
        path_views(paths).len() == paths.len(),
        0 <= i < paths.len() ==> path_views(paths)[i] == paths[i]@,
        watch.base matches Some(base) ==> optional_path(watch.base) == Some(base@),
        watch.base is None ==> optional_path(watch.base) is None,
{
}

}
