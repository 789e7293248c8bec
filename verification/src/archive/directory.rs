//! Adding the files of a directory tree to an archive.
//!
//! The decisions are made here: which directory to list and which file to read
//! next, and what the archive gets of it.  Whoever drives a [`DirectoryWalk`]
//! lists and reads.

use crate::archive::builder::{archive_path, archive_text, CompressionLevel, ZipBuilder};
use crate::archive::extractor::{models, ArchiveEntry};
use crate::archive::paths::{copy_path, join_path, joined};
use crate::archive::promotion::{paths, PathView};
use crate::buffer::content;
use crate::text::texts;
use bytes::Bytes;
use std::collections::VecDeque;
use vstd::prelude::*;
use vstd::string::*;

verus! {

/// What stands under a name in a directory.
#[derive(Debug, Clone, Copy, PartialEq, Eq, Structural)]
pub enum Found {
    /// A directory.
    Directory,
    /// A regular file.
    File,
    /// Something else, such as a link.
    Other,
}

/// What to do next.  The paths are relative to the directory that is added.
#[derive(Debug)]
pub enum WalkStep {
    /// List a directory.
    List(Vec<String>),
    /// Read a file.
    Read(Vec<String>),
    /// Nothing: everything has been read.
    Finished,
}

/// What to do next, and on which path.
pub enum WalkStepView {
    List(PathView),
    Read(PathView),
    Finished,
}

impl WalkStep {
    /// The step, with its path in characters.
    pub open spec fn model(self) -> WalkStepView {
        match self {
            WalkStep::List(p) => WalkStepView::List(texts(p@)),
            WalkStep::Read(p) => WalkStepView::Read(texts(p@)),
            WalkStep::Finished => WalkStepView::Finished,
        }
    }
}

/// The names of a listing, and what stands under each.
pub open spec fn founds(found: Seq<(String, Found)>) -> Seq<(Seq<char>, Found)> {
    Seq::new(found.len(), |i: int| (found[i].0@, found[i].1))
}

/// The state of a walk.
pub struct WalkView {
    /// What the paths in the archive begin with.
    pub prefix: Seq<char>,
    /// The entries that the archive had before.
    pub base: Seq<(Seq<char>, Seq<u8>)>,
    /// The entries that were added, in order.
    pub added: Seq<(Seq<char>, Seq<u8>)>,
    /// The files to be read, in order.
    pub waiting: Seq<PathView>,
    /// The directories to be listed, the last one first.
    pub stack: Seq<PathView>,
}

/// The state in which a walk starts: only the directory itself is known.
pub open spec fn walk_start(files: Seq<ArchiveEntry>, prefix: Seq<char>) -> WalkView {
    WalkView {
        prefix,
        base: models(files),
        added: Seq::empty(),
        waiting: Seq::empty(),
        stack: seq![Seq::empty()],
    }
}

/// The next step of a walk: files come before directories.
pub open spec fn walk_step(s: WalkView) -> WalkStepView {
    if s.waiting.len() > 0 {
        WalkStepView::Read(s.waiting[0])
    } else if s.stack.len() > 0 {
        WalkStepView::List(s.stack.last())
    } else {
        WalkStepView::Finished
    }
}

/// The paths of what is of one kind in the listing of a directory, in order.
pub open spec fn children(
    dir: PathView,
    found: Seq<(Seq<char>, Found)>,
    kind: Found,
) -> Seq<PathView>
    decreases found.len(),
{
    if found.len() == 0 {
        Seq::empty()
    } else if found.last().1 == kind {
        children(dir, found.drop_last(), kind).push(dir.push(found.last().0))
    } else {
        children(dir, found.drop_last(), kind)
    }
}

/// The state after a directory has been listed.
pub open spec fn walk_listed(s: WalkView, found: Seq<(Seq<char>, Found)>) -> WalkView {
    let dir = s.stack.last();
    WalkView {
        waiting: children(dir, found, Found::File),
        stack: s.stack.drop_last() + children(dir, found, Found::Directory),
        ..s
    }
}

/// The state after a file has been read.
pub open spec fn walk_read(s: WalkView, data: Seq<u8>) -> WalkView {
    WalkView {
        added: s.added.push((archive_text(s.prefix, joined(s.waiting[0])), data)),
        waiting: s.waiting.drop_first(),
        ..s
    }
}

/// A walk through a directory tree that adds its files to an archive.
pub struct DirectoryWalk {
    builder: ZipBuilder,
    prefix: String,
    added: Vec<ArchiveEntry>,
    waiting: VecDeque<Vec<String>>,
    stack: Vec<Vec<String>>,
}

impl DirectoryWalk {
    /// The state of this walk.
    pub closed spec fn state(&self) -> WalkView {
        WalkView {
            prefix: self.prefix@,
            base: models(self.builder.files()),
            added: models(self.added@),
            waiting: paths(self.waiting@),
            stack: paths(self.stack@),
        }
    }

    /// The compression level of the archive.
    pub closed spec fn level(&self) -> CompressionLevel {
        self.builder.level()
    }

    /// The comment of the archive, if one was set.
    pub closed spec fn note(&self) -> Option<Seq<char>> {
        self.builder.note()
    }

    /// Starts a walk that adds files to the given archive.
    pub fn new(builder: ZipBuilder, prefix: &str) -> (w: DirectoryWalk)
        ensures
            w.state() == walk_start(builder.files(), prefix@),
            w.level() == builder.level(),
            w.note() == builder.note(),
    {
        let mut stack: Vec<Vec<String>> = Vec::new();
        stack.push(Vec::new());
        let w = DirectoryWalk {
            builder,
            prefix: prefix.to_owned(),
            added: Vec::new(),
            waiting: VecDeque::new(),
            stack,
        };
        assert(texts(w.stack@[0]@) == Seq::<Seq<char>>::empty());
        assert(paths(w.stack@) =~= seq![Seq::<Seq<char>>::empty()]);
        assert(paths(w.waiting@) =~= Seq::<PathView>::empty());
        assert(models(w.added@) =~= Seq::<(Seq<char>, Seq<u8>)>::empty());
        w
    }

    /// The next step.
    pub fn step(&self) -> (r: WalkStep)
        ensures
            r.model() == walk_step(self.state()),
    {
        if self.waiting.len() > 0 {
            WalkStep::Read(copy_path(&self.waiting[0]))
        } else if self.stack.len() > 0 {
            WalkStep::List(copy_path(&self.stack[self.stack.len() - 1]))
        } else {
            WalkStep::Finished
        }
    }

    /// Takes note of what the directory that was to be listed holds.
    pub fn listed(&mut self, found: Vec<(String, Found)>)
        requires
            walk_step(old(self).state()) is List,
        ensures
            final(self).state() == walk_listed(old(self).state(), founds(found@)),
            final(self).level() == old(self).level(),
            final(self).note() == old(self).note(),
    {
        let ghost s = self.state();
        let ghost all = founds(found@);
        let last = self.stack.pop();
        if let Some(dir) = last {
            let ghost view = texts(dir@);
            let ghost below = paths(self.stack@);
            assert(s.stack.last() == view);
            assert(below =~= s.stack.drop_last());
            self.waiting = VecDeque::new();
            assert(paths(self.waiting@) =~= children(view, all.take(0), Found::File));
            assert(below + children(view, all.take(0), Found::Directory) =~= below);
            for i in 0..found.len()
                invariant
                    view == texts(dir@),
                    all == founds(found@),
                    self.prefix@ == s.prefix,
                    models(self.builder.files()) == s.base,
                    models(self.added@) == s.added,
                    self.builder.level() == old(self).level(),
                    self.builder.note() == old(self).note(),
                    paths(self.waiting@) == children(view, all.take(i as int), Found::File),
                    paths(self.stack@) == below + children(
                        view,
                        all.take(i as int),
                        Found::Directory,
                    ),
            {
                let ghost had = all.take(i as int);
                assert(all.take(i + 1).drop_last() == had);
                assert(all.take(i + 1).last() == all[i as int]);
                let (name, kind) = &found[i];
                let mut path = copy_path(&dir);
                let ghost before = path@;
                path.push(name.clone());
                assert(texts(path@) =~= view.push(all[i as int].0)) by {
                    assert(texts(path@) =~= texts(before).push(name@));
                }
                match kind {
                    Found::Directory => {
                        let ghost before = self.stack@;
                        self.stack.push(path);
                        assert(paths(self.stack@) =~= paths(before).push(texts(path@)));
                    },
                    Found::File => {
                        let ghost before = self.waiting@;
                        self.waiting.push_back(path);
                        assert(paths(self.waiting@) =~= paths(before).push(texts(path@)));
                    },
                    Found::Other => {},
                }
            }
            assert(all.take(all.len() as int) == all);
        }
    }

    /// Takes note of what the file that was to be read holds.
    pub fn read(&mut self, data: Bytes)
        requires
            walk_step(old(self).state()) is Read,
        ensures
            final(self).state() == walk_read(old(self).state(), content(data)),
            final(self).level() == old(self).level(),
            final(self).note() == old(self).note(),
    {
        let ghost s = self.state();
        let next = self.waiting.pop_front();
        if let Some(file) = next {
            let relative = join_path(&file);
            let path = archive_path(self.prefix.as_str(), relative.as_str());
            let entry = ArchiveEntry::new(path, data);
            let ghost before = self.added@;
            self.added.push(entry);
            assert(models(self.added@) =~= models(before).push(entry.model()));
            assert(texts(file@) == s.waiting[0]);
            assert(self.state().waiting =~= s.waiting.drop_first());
        }
    }

    /// The archive with everything that was read added to it.
    pub fn finish(self) -> (r: ZipBuilder)
        requires
            walk_step(self.state()) is Finished,
        ensures
            models(r.files()) == self.state().base + self.state().added,
            r.level() == self.level(),
            r.note() == self.note(),
    {
        let r = self.builder.add_files(self.added);
        assert(models(r.files()) =~= self.state().base + self.state().added);
        r
    }
}

/// What happens to a walk: a directory is listed, or a file is read.
pub enum WalkEvent {
    Listed(Seq<(Seq<char>, Found)>),
    Read(Seq<u8>),
}

/// A walk with everything that has happened to it.
pub struct WalkLog {
    pub state: WalkView,
    /// The directories that were listed, in order.
    pub listed: Seq<PathView>,
    /// The directory itself and those that turned up in listings.
    pub directories: Seq<PathView>,
    /// The files that turned up in listings, in order.
    pub files: Seq<PathView>,
    /// What the files that were read hold, in order.
    pub data: Seq<Seq<u8>>,
}

/// The log of a walk after a number of events.  An event that is not the next
/// step is passed over.
pub open spec fn walk_log(start: WalkView, events: Seq<WalkEvent>) -> WalkLog
    decreases events.len(),
{
    if events.len() == 0 {
        WalkLog {
            state: start,
            listed: Seq::empty(),
            directories: start.stack,
            files: Seq::empty(),
            data: Seq::empty(),
        }
    } else {
        let before = walk_log(start, events.drop_last());
        match (walk_step(before.state), events.last()) {
            (WalkStepView::List(dir), WalkEvent::Listed(found)) => WalkLog {
                state: walk_listed(before.state, found),
                listed: before.listed.push(dir),
                directories: before.directories + children(dir, found, Found::Directory),
                files: before.files + children(dir, found, Found::File),
                ..before
            },
            (WalkStepView::Read(_), WalkEvent::Read(data)) => WalkLog {
                state: walk_read(before.state, data),
                data: before.data.push(data),
                ..before
            },
            _ => before,
        }
    }
}

/// Whether no name occurs twice in a listing.
pub open spec fn distinct_names(found: Seq<(Seq<char>, Found)>) -> bool {
    forall|i: int, j: int|
        0 <= i < j < found.len() ==> (#[trigger] found[i]).0 != (#[trigger] found[j]).0
}

/// Whether no name occurs twice in any of the listings.
pub open spec fn distinct_listings(events: Seq<WalkEvent>) -> bool {
    forall|i: int|
        0 <= i < events.len() ==> ((#[trigger] events[i]) matches WalkEvent::Listed(found)
            ==> distinct_names(found))
}

/// The children of a directory lie right below it and are as different as their
/// names are.
proof fn lemma_children(dir: PathView, found: Seq<(Seq<char>, Found)>, kind: Found)
    ensures
        forall|p: PathView| #[trigger]
            children(dir, found, kind).contains(p) ==> exists|i: int|
                0 <= i < found.len() && p == dir.push((#[trigger] found[i]).0),
        distinct_names(found) ==> children(dir, found, kind).no_duplicates(),
    decreases found.len(),
{
    if found.len() > 0 {
        let init = found.drop_last();
        let had = children(dir, init, kind);
        let has = children(dir, found, kind);
        let name = found.last().0;
        lemma_children(dir, init, kind);
        assert(distinct_names(found) ==> distinct_names(init)) by {
            assert(forall|i: int| 0 <= i < init.len() ==> #[trigger] init[i] == found[i]);
        }
        assert forall|p: PathView| #[trigger] has.contains(p) implies exists|i: int|
            0 <= i < found.len() && p == dir.push((#[trigger] found[i]).0) by {
            let k = has.index_of(p);
            if k < had.len() {
                assert(had[k] == p);
                assert(had.contains(p));
                let i = choose|i: int|
                    0 <= i < init.len() && p == dir.push((#[trigger] init[i]).0);
                assert(found[i] == init[i]);
            } else {
                assert(found[found.len() - 1].0 == name);
            }
        }
        if distinct_names(found) && found.last().1 == kind {
            let path = dir.push(name);
            if had.contains(path) {
                let i = choose|i: int|
                    0 <= i < init.len() && path == dir.push((#[trigger] init[i]).0);
                assert(path.last() == init[i].0);
                assert(found[i].0 == found[found.len() - 1].0);
            }
            assert(has == had.push(path));
        }
    }
}

/// What a log keeps true: no directory has been listed twice or is still to be
/// listed after it was, none is to be listed twice, the directory above each of
/// them has been listed, and each that turned up is one or the other.
pub open spec fn walk_in_order(log: WalkLog) -> bool {
    &&& log.listed.no_duplicates()
    &&& log.state.stack.no_duplicates()
    &&& forall|p: PathView| #[trigger]
        log.state.stack.contains(p) ==> !log.listed.contains(p)
    &&& forall|p: PathView| #[trigger]
        log.directories.contains(p) <==> log.listed.contains(p) || log.state.stack.contains(p)
    &&& forall|p: PathView| #[trigger]
        log.directories.contains(p) && p.len() > 0 ==> log.listed.contains(p.drop_last())
    &&& log.data.len() + log.state.waiting.len() == log.files.len()
    &&& log.state.waiting == log.files.skip(log.data.len() as int)
    &&& log.state.added.len() == log.data.len()
    &&& forall|k: int|
        0 <= k < log.data.len() ==> #[trigger] log.state.added[k] == (
            archive_text(log.state.prefix, joined(log.files[k])),
            log.data[k],
        )
}

proof fn lemma_listing_keeps_order(
    before: WalkLog,
    now: WalkLog,
    dir: PathView,
    found: Seq<(Seq<char>, Found)>,
)
    requires
        walk_in_order(before),
        distinct_names(found),
        walk_step(before.state) == WalkStepView::List(dir),
        now == (WalkLog {
            state: walk_listed(before.state, found),
            listed: before.listed.push(dir),
            directories: before.directories + children(dir, found, Found::Directory),
            files: before.files + children(dir, found, Found::File),
            ..before
        }),
    ensures
        walk_in_order(now),
{
    let more = children(dir, found, Found::Directory);
    let rest = before.state.stack.drop_last();
    lemma_children(dir, found, Found::Directory);
    assert(before.state.stack.contains(dir));
    assert(!before.listed.contains(dir));
    assert(now.state.stack == rest + more);
    // Nothing below a directory turns up before the directory is listed.
    assert forall|p: PathView| #[trigger] more.contains(p) implies !before.directories.contains(p)
        && p != dir && p.len() > 0 && p.drop_last() == dir by {
        let i = choose|i: int| 0 <= i < found.len() && p == dir.push((#[trigger] found[i]).0);
        assert(p.drop_last() == dir);
        assert(p.len() == dir.len() + 1);
    }
    assert forall|p: PathView| #[trigger] rest.contains(p) implies before.state.stack.contains(p)
        && p != dir by {
        let k = rest.index_of(p);
        assert(before.state.stack[k] == p);
    }
    assert forall|p: PathView| before.state.stack.contains(p) && p != dir implies rest.contains(
        p,
    ) by {
        let k = before.state.stack.index_of(p);
        assert(rest[k] == p);
    }
    assert forall|p: PathView| #[trigger] now.listed.contains(p) <==> before.listed.contains(p) || p
        == dir by {
        if before.listed.contains(p) {
            assert(now.listed[before.listed.index_of(p)] == p);
        }
        assert(now.listed[before.listed.len() as int] == dir);
    }
    assert forall|p: PathView| #[trigger] now.state.stack.contains(p) <==> rest.contains(p)
        || more.contains(p) by {
        lemma_sum_contains(rest, more, p);
    }
    assert forall|p: PathView| #[trigger] now.directories.contains(p) <==> before.directories.contains(
        p,
    ) || more.contains(p) by {
        lemma_sum_contains(before.directories, more, p);
    }
    assert(rest.no_duplicates());
    assert(now.state.stack.no_duplicates()) by {
        let stack = now.state.stack;
        assert forall|i: int, j: int| 0 <= i < j < stack.len() implies stack[i] != stack[j] by {
            if i < rest.len() && j >= rest.len() {
                assert(rest.contains(rest[i]));
                assert(more.contains(more[j - rest.len()]));
            }
        }
    }
    assert(now.listed.no_duplicates()) by {
        assert forall|i: int, j: int| 0 <= i < j < now.listed.len() implies now.listed[i]
            != now.listed[j] by {
            assert(before.listed.contains(before.listed[i]));
        }
    }
    assert(before.files.skip(before.data.len() as int) == Seq::<PathView>::empty());
    assert(now.state.waiting == now.files.skip(now.data.len() as int));
}

proof fn lemma_sum_contains(a: Seq<PathView>, b: Seq<PathView>, p: PathView)
    ensures
        (a + b).contains(p) <==> a.contains(p) || b.contains(p),
{
    let sum = a + b;
    if a.contains(p) {
        assert(sum[a.index_of(p)] == p);
    }
    if b.contains(p) {
        assert(sum[a.len() + b.index_of(p)] == p);
    }
    if sum.contains(p) {
        let k = sum.index_of(p);
        if k < a.len() {
            assert(a[k] == p);
        } else {
            assert(b[k - a.len()] == p);
        }
    }
}

proof fn lemma_walk_stays_in_order(
    files: Seq<ArchiveEntry>,
    prefix: Seq<char>,
    events: Seq<WalkEvent>,
)
    requires
        distinct_listings(events),
    ensures
        walk_in_order(walk_log(walk_start(files, prefix), events)),
        walk_log(walk_start(files, prefix), events).state.prefix == prefix,
        walk_log(walk_start(files, prefix), events).state.base == models(files),
        walk_log(walk_start(files, prefix), events).directories.contains(Seq::empty()),
    decreases events.len(),
{
    let start = walk_start(files, prefix);
    let now = walk_log(start, events);
    if events.len() == 0 {
        assert(start.stack[0] == Seq::<Seq<char>>::empty());
        assert(now.directories.contains(Seq::empty()));
        assert(now.state.waiting == now.files.skip(0));
    } else {
        let init = events.drop_last();
        assert(distinct_listings(init)) by {
            assert(forall|i: int| 0 <= i < init.len() ==> #[trigger] init[i] == events[i]);
        }
        lemma_walk_stays_in_order(files, prefix, init);
        let before = walk_log(start, init);
        match (walk_step(before.state), events.last()) {
            (WalkStepView::List(dir), WalkEvent::Listed(found)) => {
                assert(events[events.len() - 1] == events.last());
                lemma_listing_keeps_order(before, now, dir, found);
                lemma_sum_contains(
                    before.directories,
                    children(dir, found, Found::Directory),
                    Seq::empty(),
                );
            },
            (WalkStepView::Read(path), WalkEvent::Read(data)) => {
                assert(path == before.files[before.data.len() as int]);
                assert(now.state.waiting == now.files.skip(now.data.len() as int));
                assert forall|k: int| 0 <= k < now.data.len() implies #[trigger] now.state.added[k]
                    == (archive_text(now.state.prefix, joined(now.files[k])), now.data[k]) by {
                    if k < before.data.len() {
                        assert(now.state.added[k] == before.state.added[k]);
                    }
                }
            },
            _ => {},
        }
    }
}

/// In a walk through a tree none of whose listings has a name twice, no
/// directory is listed twice.  Once the walk has finished, the directories that
/// were listed are the directory itself and all that turned up, and every file
/// that turned up, in order, has been added under its path behind the prefix,
/// with what was read of it.
pub proof fn law_every_directory_is_listed_once(
    files: Seq<ArchiveEntry>,
    prefix: Seq<char>,
    events: Seq<WalkEvent>,
)
    requires
        distinct_listings(events),
    ensures
        ({
            let log = walk_log(walk_start(files, prefix), events);
            &&& log.listed.no_duplicates()
            &&& log.directories.contains(Seq::empty())
            &&& log.state.base == models(files)
            &&& walk_step(log.state) is Finished ==> {
                &&& forall|p: PathView| #[trigger]
                    log.directories.contains(p) <==> log.listed.contains(p)
                &&& log.data.len() == log.files.len()
                &&& log.state.added == Seq::new(
                    log.files.len(),
                    |k: int| (archive_text(prefix, joined(log.files[k])), log.data[k]),
                )
            }
        }),
{
    lemma_walk_stays_in_order(files, prefix, events);
    let log = walk_log(walk_start(files, prefix), events);
    if walk_step(log.state) is Finished {
        assert(log.state.stack == Seq::<PathView>::empty());
        assert(log.state.added == Seq::new(
            log.files.len(),
            |k: int| (archive_text(prefix, joined(log.files[k])), log.data[k]),
        ));
    }
}

/// The children of a directory of one kind are what the listing has of that
/// kind, in order: nothing is left out, and nothing else is in.
pub proof fn law_nothing_in_a_listing_is_left_out(
    dir: PathView,
    found: Seq<(Seq<char>, Found)>,
    kind: Found,
)
    ensures
        children(dir, found, kind) == found.filter_map(
            |f: (Seq<char>, Found)|
                if f.1 == kind {
                    Some(dir.push(f.0))
                } else {
                    None
                },
        ),
        children(dir, found, kind).len() == found.filter(
            |f: (Seq<char>, Found)| f.1 == kind,
        ).len(),
        forall|i: int|
            0 <= i < found.len() && (#[trigger] found[i]).1 == kind ==> children(
                dir,
                found,
                kind,
            ).contains(dir.push(found[i].0)),
    decreases found.len(),
{
    reveal(Seq::filter);
    if found.len() > 0 {
        let init = found.drop_last();
        law_nothing_in_a_listing_is_left_out(dir, init, kind);
        let had = children(dir, init, kind);
        let has = children(dir, found, kind);
        if found.last().1 == kind {
            assert(has == had + seq![dir.push(found.last().0)]);
            assert(has[had.len() as int] == dir.push(found.last().0));
        }
        assert forall|i: int| 0 <= i < found.len() && (#[trigger] found[i]).1
            == kind implies has.contains(dir.push(found[i].0)) by {
            if i < init.len() {
                assert(init[i] == found[i]);
                let k = had.index_of(dir.push(found[i].0));
                assert(has[k] == dir.push(found[i].0));
            }
        }
    }
}

/// After a listing, every file in it is to be read and every directory in it is
/// to be listed, those that were waiting to be listed before still are, and
/// nothing that was added is lost.
pub proof fn law_a_listing_leaves_work_for_everything_in_it(
    s: WalkView,
    found: Seq<(Seq<char>, Found)>,
)
    requires
        walk_step(s) is List,
    ensures
        ({
            let dir = s.stack.last();
            let after = walk_listed(s, found);
            &&& walk_step(s) == WalkStepView::List(dir)
            &&& forall|i: int|
                0 <= i < found.len() && (#[trigger] found[i]).1 == Found::File
                    ==> after.waiting.contains(dir.push(found[i].0))
            &&& forall|i: int|
                0 <= i < found.len() && (#[trigger] found[i]).1 == Found::Directory
                    ==> after.stack.contains(dir.push(found[i].0))
            &&& forall|k: int|
                0 <= k < s.stack.len() - 1 ==> #[trigger] after.stack[k] == s.stack[k]
            &&& after.stack.len() == s.stack.len() - 1 + found.filter(
                |f: (Seq<char>, Found)| f.1 == Found::Directory,
            ).len()
            &&& after.waiting.len() == found.filter(
                |f: (Seq<char>, Found)| f.1 == Found::File,
            ).len()
            &&& after.added == s.added
            &&& after.base == s.base
            &&& after.prefix == s.prefix
        }),
{
    let dir = s.stack.last();
    let more = children(dir, found, Found::Directory);
    let rest = s.stack.drop_last();
    law_nothing_in_a_listing_is_left_out(dir, found, Found::File);
    law_nothing_in_a_listing_is_left_out(dir, found, Found::Directory);
    let after = walk_listed(s, found);
    assert forall|i: int| 0 <= i < found.len() && (#[trigger] found[i]).1
        == Found::Directory implies after.stack.contains(dir.push(found[i].0)) by {
        lemma_sum_contains(rest, more, dir.push(found[i].0));
    }
}

/// The next step of a walk: the file that has waited longest is read, and once
/// none waits, the directory that was found last is listed; there is nothing to
/// do exactly if nothing is left.
pub proof fn law_the_next_step_of_a_walk(s: WalkView)
    ensures
        s.waiting.len() > 0 ==> walk_step(s) == WalkStepView::Read(s.waiting.first()),
        s.waiting.len() == 0 && s.stack.len() > 0 ==> walk_step(s) == WalkStepView::List(
            s.stack[s.stack.len() - 1],
        ),
        walk_step(s) is Finished <==> s.waiting.len() == 0 && s.stack.len() == 0,
{
}

/// The path of a file in the archive is its path below the directory, behind the
/// prefix and a slash; without a prefix it stands alone.
pub proof fn law_paths_stand_behind_the_prefix(prefix: Seq<char>, relative: Seq<char>)
    ensures
        prefix.len() == 0 ==> archive_text(prefix, relative) == relative,
        prefix.len() > 0 ==> archive_text(prefix, relative) == prefix.push('/') + relative,
{
    reveal_strlit("/");
    if prefix.len() > 0 {
        assert(archive_text(prefix, relative) =~= prefix.push('/') + relative);
    }
}

/// What was read of a file is added under its path behind the prefix; the file is
/// no longer waited for, and nothing else changes.
pub proof fn law_what_was_read_is_added(s: WalkView, data: Seq<u8>)
    requires
        s.waiting.len() > 0,
    ensures
        ({
            let after = walk_read(s, data);
            &&& after.added.len() == s.added.len() + 1
            &&& after.added.drop_last() == s.added
            &&& after.added.last().1 == data
            &&& s.prefix.len() == 0 ==> after.added.last().0 == joined(s.waiting[0])
            &&& s.prefix.len() > 0 ==> after.added.last().0 == s.prefix + "/"@ + joined(
                s.waiting[0],
            )
            &&& seq![s.waiting[0]] + after.waiting == s.waiting
            &&& after.stack == s.stack
            &&& after.base == s.base
            &&& after.prefix == s.prefix
        }),
{
    assert(seq![s.waiting[0]] + s.waiting.drop_first() == s.waiting);
    assert(walk_read(s, data).added.drop_last() == s.added);
}

/// Entries and listings are viewed one for one, in order.
pub proof fn law_views_of_entries_and_listings(
    entries: Seq<ArchiveEntry>,
    found: Seq<(String, Found)>,
)
    ensures
        models(entries).len() == entries.len(),
        forall|i: int|
            0 <= i < entries.len() ==> (#[trigger] models(entries)[i]).0 == entries[i].path@
                && models(entries)[i].1 == content(entries[i].data),
        founds(found).len() == found.len(),
        forall|i: int|
            0 <= i < found.len() ==> (#[trigger] founds(found)[i]).0 == found[i].0@
                && founds(found)[i].1 == found[i].1,
{
}

} // verus!
