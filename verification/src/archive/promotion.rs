//! Moving fully extracted entries from a staging directory into place.
//!
//! Either every entry ends up in the extraction root, or none does.  The
//! decisions are made here: what to do to the file system next, given how the
//! last step went.  Whoever drives a [`Promotion`] performs the steps.

use crate::archive::paths::{copy_path, join_path, joined, needs_slash};
use crate::error::{FileError, FileResult};
use crate::text::texts;
use vstd::prelude::*;
use vstd::string::*;

verus! {

/// A relative path, in components.
pub type PathView = Seq<Seq<char>>;

/// The paths of a list of component lists.
pub open spec fn paths(entries: Seq<Vec<String>>) -> Seq<PathView> {
    Seq::new(entries.len(), |i: int| texts(entries[i]@))
}

/// Whether some path occurs twice.
pub open spec fn repeats(entries: Seq<PathView>) -> bool {
    !entries.no_duplicates()
}

/// The longest proper ancestor of `path`, of at most `len` components, that is
/// itself one of the entries.
pub open spec fn listed_ancestor(
    entries: Seq<PathView>,
    path: PathView,
    len: nat,
) -> Option<PathView>
    decreases len,
{
    if entries.contains(path.take(len as int)) {
        Some(path.take(len as int))
    } else if len == 0 {
        None
    } else {
        listed_ancestor(entries, path, (len - 1) as nat)
    }
}

/// The longest proper ancestor of `path` that is itself one of the entries.
pub open spec fn file_ancestor(entries: Seq<PathView>, path: PathView) -> Option<PathView> {
    if path.len() == 0 {
        None
    } else {
        listed_ancestor(entries, path, (path.len() - 1) as nat)
    }
}

/// The refusal of an entry that lies below another entry.
pub open spec fn ancestor_text(path: PathView, ancestor: PathView) -> Seq<char> {
    "refusing to extract entry "@ + joined(path) + ": "@ + joined(ancestor)
        + " is also a file entry in the archive"@
}

/// The refusal of the first entry, from `from` on, that lies below another.
pub open spec fn first_conflict(entries: Seq<PathView>, from: nat) -> Option<Seq<char>>
    decreases entries.len() - from,
{
    if from >= entries.len() {
        None
    } else {
        match file_ancestor(entries, entries[from as int]) {
            Some(ancestor) => Some(ancestor_text(entries[from as int], ancestor)),
            None => first_conflict(entries, from + 1),
        }
    }
}

/// Why a set of entries cannot be placed in one directory tree, if it cannot.
pub open spec fn conflict(entries: Seq<PathView>) -> Option<Seq<char>> {
    if repeats(entries) {
        Some("archive declares the same entry path more than once"@)
    } else {
        first_conflict(entries, 0)
    }
}

/// Whether a path lies below another.
pub open spec fn lies_below(path: PathView, other: PathView) -> bool {
    other.len() < path.len() && path.take(other.len() as int) == other
}

/// Entries can be placed in one tree exactly if no path occurs twice and none
/// lies below another.
pub proof fn law_compatible_entries(entries: Seq<PathView>)
    ensures
        conflict(entries) is None <==> entries.no_duplicates() && forall|i: int, j: int|
            0 <= i < entries.len() && 0 <= j < entries.len() ==> !#[trigger] lies_below(
                entries[i],
                entries[j],
            ),
{
    lemma_first_conflict(entries, 0);
    assert forall|i: int| 0 <= i < entries.len() implies ((#[trigger] file_ancestor(
        entries,
        entries[i],
    )) is None <==> forall|j: int|
        0 <= j < entries.len() ==> !#[trigger] lies_below(entries[i], entries[j])) by {
        let path = entries[i];
        if path.len() > 0 {
            lemma_listed_ancestor(entries, path, (path.len() - 1) as nat);
            if file_ancestor(entries, path) is Some {
                let k = choose|k: int|
                    0 <= k < path.len() && entries.contains(#[trigger] path.take(k));
                let j = entries.index_of(path.take(k));
                assert(lies_below(path, entries[j]));
            }
            assert forall|j: int| 0 <= j < entries.len() && lies_below(path, entries[j]) implies
                file_ancestor(entries, path) is Some by {
                assert(entries.contains(path.take(entries[j].len() as int)));
            }
        }
    }
    if conflict(entries) is None {
        assert forall|i: int, j: int| 0 <= i < entries.len() && 0 <= j < entries.len() implies
            !#[trigger] lies_below(entries[i], entries[j]) by {
            assert(file_ancestor(entries, entries[i]) is None);
        }
    }
}

proof fn lemma_listed_ancestor(entries: Seq<PathView>, path: PathView, len: nat)
    requires
        len <= path.len(),
    ensures
        listed_ancestor(entries, path, len) is Some <==> exists|k: int|
            0 <= k <= len && entries.contains(#[trigger] path.take(k)),
    decreases len,
{
    if !entries.contains(path.take(len as int)) && len > 0 {
        lemma_listed_ancestor(entries, path, (len - 1) as nat);
    }
}

proof fn lemma_first_conflict(entries: Seq<PathView>, from: nat)
    ensures
        first_conflict(entries, from) is None <==> forall|i: int|
            from <= i < entries.len() ==> (#[trigger] file_ancestor(entries, entries[i])) is None,
    decreases entries.len() - from,
{
    if from < entries.len() {
        lemma_first_conflict(entries, from + 1);
        if file_ancestor(entries, entries[from as int]) is None {
            assert forall|i: int| from <= i < entries.len() && first_conflict(
                entries,
                from + 1,
            ) is None implies (#[trigger] file_ancestor(entries, entries[i])) is None by {}
        }
    }
}

fn same_path(a: &Vec<String>, b: &Vec<String>, len: usize) -> (r: bool)
    requires
        len <= b.len(),
    ensures
        r == (texts(a@) == texts(b@).take(len as int)),
{
    if a.len() != len {
        assert(texts(a@).len() != texts(b@).take(len as int).len());
        return false;
    }
    for i in 0..len
        invariant
            a.len() == len,
            len <= b.len(),
            forall|j: int| 0 <= j < i ==> a[j]@ == b[j]@,
    {
        if !(a[i] == b[i]) {
            assert(texts(a@)[i as int] != texts(b@).take(len as int)[i as int]);
            return false;
        }
    }
    assert(texts(a@) == texts(b@).take(len as int));
    true
}

fn is_listed(entries: &Vec<Vec<String>>, path: &Vec<String>, len: usize) -> (r: bool)
    requires
        len <= path.len(),
    ensures
        r == paths(entries@).contains(texts(path@).take(len as int)),
{
    for i in 0..entries.len()
        invariant
            len <= path.len(),
            forall|j: int| 0 <= j < i ==> paths(entries@)[j] != texts(path@).take(len as int),
    {
        if same_path(&entries[i], path, len) {
            assert(paths(entries@)[i as int] == texts(path@).take(len as int));
            return true;
        }
    }
    false
}

fn has_repeats(entries: &Vec<Vec<String>>) -> (r: bool)
    ensures
        r == repeats(paths(entries@)),
{
    for i in 0..entries.len()
        invariant
            forall|a: int, b: int|
                0 <= a < b < i ==> paths(entries@)[a] != paths(entries@)[b],
    {
        for j in 0..i
            invariant
                i < entries.len(),
                forall|a: int| 0 <= a < j ==> paths(entries@)[a] != paths(entries@)[i as int],
        {
            let len = entries[i].len();
            if same_path(&entries[j], &entries[i], len) {
                assert(texts(entries[i as int]@).take(len as int) == texts(entries[i as int]@));
                assert(paths(entries@)[j as int] == paths(entries@)[i as int]);
                return true;
            }
            assert(texts(entries[i as int]@).take(len as int) == texts(entries[i as int]@));
        }
    }
    false
}

/// The first `len` components of a path.
fn prefix(path: &Vec<String>, len: usize) -> (r: Vec<String>)
    requires
        len <= path.len(),
    ensures
        texts(r@) == texts(path@).take(len as int),
{
    let mut out: Vec<String> = Vec::new();
    for i in 0..len
        invariant
            len <= path.len(),
            texts(out@) == texts(path@).take(i as int),
    {
        let ghost before = out@;
        out.push(path[i].clone());
        assert(texts(out@) == texts(before).push(path[i as int]@));
        assert(texts(path@).take(i + 1) == texts(path@).take(i as int).push(path[i as int]@));
    }
    out
}

/// Checks that a set of entries can be placed in one directory tree: no path
/// twice, and none below another, which would have to be a file and a
/// directory at once.
pub fn check_entries(entries: &Vec<Vec<String>>) -> (r: FileResult<()>)
    ensures
        match r {
            Ok(_) => conflict(paths(entries@)) is None,
            Err(e) => conflict(paths(entries@)) matches Some(text) && e.is_archive_error(text),
        },
{
    if has_repeats(entries) {
        return Err(
            FileError::Archive("archive declares the same entry path more than once".to_owned()),
        );
    }
    let mut i: usize = 0;
    while i < entries.len()
        invariant
            i <= entries.len(),
            !repeats(paths(entries@)),
            first_conflict(paths(entries@), i as nat) == first_conflict(paths(entries@), 0),
        decreases entries.len() - i,
    {
        let path = &entries[i];
        let ghost view = paths(entries@)[i as int];
        assert(view == texts(path@));
        if path.len() > 0 {
            let mut len: usize = path.len();
            while len > 0
                invariant
                    len <= path.len(),
                    path.len() > 0,
                    i < entries.len(),
                    view == texts(path@),
                    view == paths(entries@)[i as int],
                    !repeats(paths(entries@)),
                    first_conflict(paths(entries@), i as nat) == first_conflict(
                        paths(entries@),
                        0,
                    ),
                    len > 0 ==> listed_ancestor(paths(entries@), view, (len - 1) as nat)
                        == file_ancestor(paths(entries@), view),
                    len == 0 ==> file_ancestor(paths(entries@), view) is None,
                decreases len,
            {
                if is_listed(entries, path, len - 1) {
                    let mut text = "refusing to extract entry ".to_owned();
                    text.append(join_path(path).as_str());
                    text.append(": ");
                    text.append(join_path(&prefix(path, len - 1)).as_str());
                    text.append(" is also a file entry in the archive");
                    return Err(FileError::Archive(text));
                }
                len = len - 1;
            }
        }
        i = i + 1;
    }
    Ok(())
}

/// Where a promotion stands.
#[derive(Clone, Copy)]
pub enum Phase {
    /// Creating the `depth`-th directory above an entry.
    Dirs { entry: usize, depth: usize },
    /// Checking that the directory of an entry lies inside the root.
    Check { entry: usize },
    /// Claiming the name of an entry.
    Claim { entry: usize },
    /// Moving an entry into place.
    Place { entry: usize },
    /// Taking back the names that were claimed, the last one first.
    UndoFiles,
    /// Taking back the directories that were created, the last one first.
    UndoDirs,
    /// Nothing left to do.
    Ended,
}

/// Why a promotion failed.
pub enum Failure {
    /// The file system refused a step.
    Io(std::io::Error),
    /// The promotion refused to go on.
    Archive(Seq<char>),
}

/// What the next step is, and on which path.
pub enum StepView {
    CreateDir(PathView),
    CheckParent(PathView),
    Reserve(PathView),
    Move(PathView),
    RemoveFile(PathView),
    RemoveDir(PathView),
    Finished,
}

/// How a step went.
pub enum OutcomeView {
    Done,
    Exists,
    Outside,
    Failed(std::io::Error),
    Unmoved(Seq<char>),
}

/// The state of a promotion.
pub struct PromotionView {
    /// The root, written out.
    pub root: Seq<char>,
    /// The entries, in order.
    pub entries: Seq<PathView>,
    pub phase: Phase,
    /// The directories that were created, in order.
    pub created: Seq<PathView>,
    /// How many entries have their name claimed, from the first on.
    pub reserved: nat,
    pub failure: Option<Failure>,
}

/// A path below the root, written out.
pub open spec fn destination(root: Seq<char>, path: PathView) -> Seq<char> {
    if path.len() > 0 {
        joined(seq![root] + path)
    } else if root.len() == 0 || root.last() == '/' {
        root
    } else {
        root.push('/')
    }
}

/// The phase in which the work on an entry begins.
pub open spec fn entry_phase(entries: Seq<PathView>, entry: nat) -> Phase {
    if entry >= entries.len() {
        if entries.len() == 0 {
            Phase::Ended
        } else {
            Phase::Place { entry: 0 }
        }
    } else if entries[entry as int].len() == 0 {
        Phase::Claim { entry: entry as usize }
    } else if entries[entry as int].len() == 1 {
        Phase::Check { entry: entry as usize }
    } else {
        Phase::Dirs { entry: entry as usize, depth: 0 }
    }
}

/// The phase in which what was done is taken back.
pub open spec fn undo_phase(reserved: nat, created: Seq<PathView>) -> Phase {
    if reserved > 0 {
        Phase::UndoFiles
    } else if created.len() > 0 {
        Phase::UndoDirs
    } else {
        Phase::Ended
    }
}

/// The state after a failure.
pub open spec fn failed(s: PromotionView, failure: Failure) -> PromotionView {
    PromotionView {
        phase: undo_phase(s.reserved, s.created),
        failure: Some(failure),
        ..s
    }
}

/// The state in which a promotion starts.
pub open spec fn start(root: Seq<char>, entries: Seq<PathView>) -> PromotionView {
    PromotionView {
        root,
        entries,
        phase: entry_phase(entries, 0),
        created: Seq::empty(),
        reserved: 0,
        failure: None,
    }
}

/// The next step of a promotion.
pub open spec fn step_of(s: PromotionView) -> StepView {
    match s.phase {
        Phase::Dirs { entry, depth } => StepView::CreateDir(
            s.entries[entry as int].take(depth + 1),
        ),
        Phase::Check { entry } => StepView::CheckParent(s.entries[entry as int].drop_last()),
        Phase::Claim { entry } => StepView::Reserve(s.entries[entry as int]),
        Phase::Place { entry } => StepView::Move(s.entries[entry as int]),
        Phase::UndoFiles => StepView::RemoveFile(s.entries[s.reserved - 1]),
        Phase::UndoDirs => StepView::RemoveDir(s.created.last()),
        Phase::Ended => StepView::Finished,
    }
}

/// Whether a step can go that way.
pub open spec fn fits(step: StepView, outcome: OutcomeView) -> bool {
    match outcome {
        OutcomeView::Done => !(step is Finished),
        OutcomeView::Exists => step is CreateDir || step is Reserve,
        OutcomeView::Outside => step is CheckParent,
        OutcomeView::Failed(_) => !(step is Move) && !(step is Finished),
        OutcomeView::Unmoved(_) => step is Move,
    }
}

/// The state after a step.
pub open spec fn advanced(s: PromotionView, outcome: OutcomeView) -> PromotionView {
    match s.phase {
        Phase::Dirs { entry, depth } => {
            let path = s.entries[entry as int];
            let phase = if depth + 2 < path.len() {
                Phase::Dirs { entry, depth: (depth + 1) as usize }
            } else {
                Phase::Check { entry }
            };
            match outcome {
                OutcomeView::Done => PromotionView {
                    phase,
                    created: s.created.push(path.take(depth + 1)),
                    ..s
                },
                OutcomeView::Exists => PromotionView { phase, ..s },
                OutcomeView::Failed(e) => failed(s, Failure::Io(e)),
                _ => s,
            }
        },
        Phase::Check { entry } => match outcome {
            OutcomeView::Done => PromotionView { phase: Phase::Claim { entry }, ..s },
            OutcomeView::Outside => failed(
                s,
                Failure::Archive(
                    "refusing to write "@ + destination(s.root, s.entries[entry as int])
                        + " outside the extraction directory"@,
                ),
            ),
            OutcomeView::Failed(e) => failed(s, Failure::Io(e)),
            _ => s,
        },
        Phase::Claim { entry } => match outcome {
            OutcomeView::Done => PromotionView {
                phase: entry_phase(s.entries, (entry + 1) as nat),
                reserved: s.reserved + 1,
                ..s
            },
            OutcomeView::Exists => failed(
                s,
                Failure::Archive(
                    "refusing to overwrite the existing path "@ + destination(
                        s.root,
                        s.entries[entry as int],
                    ) + " with archive entry "@ + joined(s.entries[entry as int]),
                ),
            ),
            OutcomeView::Failed(e) => failed(s, Failure::Io(e)),
            _ => s,
        },
        Phase::Place { entry } => match outcome {
            OutcomeView::Done => PromotionView {
                phase: if entry + 1 < s.entries.len() {
                    Phase::Place { entry: (entry + 1) as usize }
                } else {
                    Phase::Ended
                },
                ..s
            },
            OutcomeView::Unmoved(text) => failed(
                s,
                Failure::Archive(
                    "failed to move archive entry "@ + joined(s.entries[entry as int])
                        + " into place: "@ + text,
                ),
            ),
            _ => s,
        },
        Phase::UndoFiles => PromotionView {
            phase: undo_phase((s.reserved - 1) as nat, s.created),
            reserved: (s.reserved - 1) as nat,
            ..s
        },
        Phase::UndoDirs => PromotionView {
            phase: undo_phase(0, s.created.drop_last()),
            created: s.created.drop_last(),
            ..s
        },
        Phase::Ended => s,
    }
}

/// Whether the parts of a state belong together.
pub open spec fn consistent(s: PromotionView) -> bool {
    &&& s.reserved <= s.entries.len()
    &&& match s.phase {
        Phase::Dirs { entry, depth } => entry < s.entries.len() && depth + 1
            < s.entries[entry as int].len() && s.reserved == entry && s.failure is None,
        Phase::Check { entry } => entry < s.entries.len() && s.entries[entry as int].len() > 0
            && s.reserved == entry && s.failure is None,
        Phase::Claim { entry } => entry < s.entries.len() && s.reserved == entry
            && s.failure is None,
        Phase::Place { entry } => entry < s.entries.len() && s.reserved == s.entries.len()
            && s.failure is None,
        Phase::UndoFiles => s.reserved > 0 && s.failure is Some,
        Phase::UndoDirs => s.reserved == 0 && s.created.len() > 0 && s.failure is Some,
        Phase::Ended => if s.failure is Some {
            s.reserved == 0 && s.created.len() == 0
        } else {
            s.reserved == s.entries.len()
        },
    }
}

/// What a directory tree holds: its directories, and its files, each with its
/// bytes.
#[verifier::ext_equal]
pub struct Tree {
    pub dirs: Set<PathView>,
    pub files: Map<PathView, Seq<u8>>,
}

/// Whether a step on a tree can go that way: a name that is taken can be
/// neither created nor claimed, and what is taken back can be removed.
pub open spec fn can_happen(tree: Tree, step: StepView, outcome: OutcomeView) -> bool {
    match step {
        StepView::CreateDir(path) => outcome is Done ==> !tree.dirs.contains(path)
            && !tree.files.dom().contains(path),
        StepView::Reserve(path) => outcome is Done ==> !tree.dirs.contains(path)
            && !tree.files.dom().contains(path),
        StepView::RemoveFile(_) => outcome is Done,
        StepView::RemoveDir(_) => outcome is Done,
        _ => true,
    }
}

/// The tree after a step, where `staged` gives the bytes of each staged entry.
/// A name is claimed with an empty file.
pub open spec fn after(
    tree: Tree,
    staged: Map<PathView, Seq<u8>>,
    step: StepView,
    outcome: OutcomeView,
) -> Tree {
    if !(outcome is Done) {
        tree
    } else {
        match step {
            StepView::CreateDir(path) => Tree { dirs: tree.dirs.insert(path), ..tree },
            StepView::Reserve(path) => Tree { files: tree.files.insert(path, Seq::empty()), ..tree },
            StepView::Move(path) => Tree {
                files: tree.files.insert(path, staged[path]),
                ..tree
            },
            StepView::RemoveFile(path) => Tree { files: tree.files.remove(path), ..tree },
            StepView::RemoveDir(path) => Tree { dirs: tree.dirs.remove(path), ..tree },
            _ => tree,
        }
    }
}

/// Whether the tree `now` is the tree `before` with exactly what the promotion
/// has on record added to it, and with the staged bytes of every entry that has
/// been moved.
pub open spec fn on_record(
    s: PromotionView,
    staged: Map<PathView, Seq<u8>>,
    before: Tree,
    now: Tree,
) -> bool {
    &&& consistent(s)
    &&& s.entries.no_duplicates()
    &&& s.created.no_duplicates()
    &&& forall|i: int|
        0 <= i < s.created.len() ==> !before.dirs.contains(#[trigger] s.created[i])
    &&& forall|i: int|
        0 <= i < s.reserved ==> !before.files.dom().contains(#[trigger] s.entries[i])
    &&& forall|p: PathView| #[trigger]
        now.dirs.contains(p) <==> before.dirs.contains(p) || s.created.contains(p)
    &&& forall|p: PathView| #[trigger]
        now.files.dom().contains(p) <==> before.files.dom().contains(p) || s.entries.take(
            s.reserved as int,
        ).contains(p)
    &&& forall|p: PathView| #[trigger]
        before.files.dom().contains(p) ==> now.files[p] == before.files[p]
    &&& s.phase matches Phase::Place { entry } ==> forall|i: int|
        0 <= i < entry ==> now.files[#[trigger] s.entries[i]] == staged[s.entries[i]]
    &&& s.phase is Ended && s.failure is None ==> forall|i: int|
        0 <= i < s.entries.len() ==> now.files[#[trigger] s.entries[i]] == staged[s.entries[i]]
}

/// A promotion starts with nothing on record.
pub proof fn law_promotion_starts_clean(
    root: Seq<char>,
    entries: Seq<PathView>,
    staged: Map<PathView, Seq<u8>>,
    tree: Tree,
)
    requires
        conflict(entries) is None,
        entries.len() <= usize::MAX,
    ensures
        on_record(start(root, entries), staged, tree, tree),
{
}

/// Every step keeps the record of a promotion true of the tree, whatever way
/// it goes.  In particular, what was in the tree before stays as it was.
pub proof fn law_promotion_keeps_record(
    s: PromotionView,
    staged: Map<PathView, Seq<u8>>,
    before: Tree,
    now: Tree,
    outcome: OutcomeView,
)
    requires
        on_record(s, staged, before, now),
        s.entries.len() <= usize::MAX,
        fits(step_of(s), outcome),
        can_happen(now, step_of(s), outcome),
    ensures
        on_record(
            advanced(s, outcome),
            staged,
            before,
            after(now, staged, step_of(s), outcome),
        ),
{
    let next = advanced(s, outcome);
    let tree = after(now, staged, step_of(s), outcome);
    assert(s.entries.take(s.reserved as int).len() == s.reserved);
    match s.phase {
        Phase::Dirs { entry, depth } => {
            let path = s.entries[entry as int].take(depth + 1);
            if outcome is Done {
                assert(next.created == s.created.push(path));
                assert(!s.created.contains(path));
                assert forall|p: PathView| #[trigger]
                    tree.dirs.contains(p) <==> before.dirs.contains(p) || next.created.contains(
                        p,
                    ) by {
                    if s.created.contains(p) {
                        let i = s.created.index_of(p);
                        assert(next.created[i] == p);
                    }
                    if p == path {
                        assert(next.created[s.created.len() as int] == p);
                    }
                }
            }
        },
        Phase::Claim { entry } => {
            let path = s.entries[entry as int];
            if outcome is Done {
                let had = s.entries.take(s.reserved as int);
                let has = s.entries.take(next.reserved as int);
                assert(has == had.push(path));
                assert forall|p: PathView| #[trigger]
                    tree.files.dom().contains(p) <==> before.files.dom().contains(p)
                        || has.contains(p) by {
                    if had.contains(p) {
                        assert(has[had.index_of(p)] == p);
                    }
                    if p == path {
                        assert(has[had.len() as int] == p);
                    }
                }
            }
        },
        Phase::Place { entry } => {
            if outcome is Done {
                let path = s.entries[entry as int];
                assert(s.entries.take(s.reserved as int) == s.entries);
                assert(s.entries.contains(path));
            }
        },
        Phase::UndoFiles => {
            let path = s.entries[s.reserved - 1];
            let had = s.entries.take(s.reserved as int);
            let has = s.entries.take(next.reserved as int);
            assert(had == has.push(path));
            assert(had[has.len() as int] == path);
            assert forall|p: PathView| #[trigger]
                tree.files.dom().contains(p) <==> before.files.dom().contains(p) || has.contains(
                    p,
                ) by {
                if has.contains(p) {
                    let i = has.index_of(p);
                    assert(had[i] == p);
                    assert(s.entries[i] == p);
                }
            }
        },
        Phase::UndoDirs => {
            let path = s.created.last();
            assert forall|p: PathView| #[trigger]
                tree.dirs.contains(p) <==> before.dirs.contains(p) || next.created.contains(p) by {
                if s.created.contains(p) && p != path {
                    let i = s.created.index_of(p);
                    assert(next.created[i] == p);
                }
                if next.created.contains(p) {
                    let i = next.created.index_of(p);
                    assert(s.created[i] == p);
                }
            }
            assert(s.created.contains(path));
        },
        _ => {},
    }
}

/// A promotion that failed has left the tree as it was.
pub proof fn law_failed_promotion_leaves_nothing(
    s: PromotionView,
    staged: Map<PathView, Seq<u8>>,
    before: Tree,
    now: Tree,
)
    requires
        on_record(s, staged, before, now),
        s.phase is Ended,
        s.failure is Some,
    ensures
        now == before,
{
    assert(now.dirs =~= before.dirs);
    assert(now.files =~= before.files);
    assert(now =~= before);
}

/// A promotion that went through has put every entry into place with the bytes
/// that were staged for it, and changed no file that was there before.
pub proof fn law_finished_promotion_places_all(
    s: PromotionView,
    staged: Map<PathView, Seq<u8>>,
    before: Tree,
    now: Tree,
)
    requires
        on_record(s, staged, before, now),
        s.phase is Ended,
        s.failure is None,
    ensures
        forall|i: int|
            0 <= i < s.entries.len() ==> now.files.dom().contains(#[trigger] s.entries[i])
                && now.files[s.entries[i]] == staged[s.entries[i]]
                && !before.files.dom().contains(s.entries[i]),
        forall|p: PathView| #[trigger]
            before.files.dom().contains(p) ==> now.files.dom().contains(p) && now.files[p]
                == before.files[p],
{
    assert forall|i: int| 0 <= i < s.entries.len() implies now.files.dom().contains(
        #[trigger] s.entries[i],
    ) by {
        assert(s.entries.take(s.reserved as int)[i] == s.entries[i]);
    }
}

/// The state of a promotion and the tree after its steps have gone the given
/// ways, one after the other.
pub open spec fn promoted(
    s: PromotionView,
    staged: Map<PathView, Seq<u8>>,
    tree: Tree,
    outcomes: Seq<OutcomeView>,
) -> (PromotionView, Tree)
    decreases outcomes.len(),
{
    if outcomes.len() == 0 {
        (s, tree)
    } else {
        let (state, now) = promoted(s, staged, tree, outcomes.drop_last());
        let outcome = outcomes.last();
        (advanced(state, outcome), after(now, staged, step_of(state), outcome))
    }
}

/// Whether the steps can go the given ways, one after the other.
pub open spec fn can_run(
    s: PromotionView,
    staged: Map<PathView, Seq<u8>>,
    tree: Tree,
    outcomes: Seq<OutcomeView>,
) -> bool
    decreases outcomes.len(),
{
    outcomes.len() > 0 ==> {
        let (state, now) = promoted(s, staged, tree, outcomes.drop_last());
        &&& can_run(s, staged, tree, outcomes.drop_last())
        &&& fits(step_of(state), outcomes.last())
        &&& can_happen(now, step_of(state), outcomes.last())
    }
}

proof fn lemma_run_keeps_record(
    root: Seq<char>,
    entries: Seq<PathView>,
    staged: Map<PathView, Seq<u8>>,
    tree: Tree,
    outcomes: Seq<OutcomeView>,
)
    requires
        conflict(entries) is None,
        entries.len() <= usize::MAX,
        can_run(start(root, entries), staged, tree, outcomes),
    ensures
        ({
            let (state, now) = promoted(start(root, entries), staged, tree, outcomes);
            &&& on_record(state, staged, tree, now)
            &&& state.entries == entries
        }),
    decreases outcomes.len(),
{
    if outcomes.len() == 0 {
        law_promotion_starts_clean(root, entries, staged, tree);
    } else {
        lemma_run_keeps_record(root, entries, staged, tree, outcomes.drop_last());
        let (state, now) = promoted(start(root, entries), staged, tree, outcomes.drop_last());
        law_promotion_keeps_record(state, staged, tree, now, outcomes.last());
    }
}

/// A promotion that has run to its end has placed all of its entries or none:
/// either every entry is in the tree with the bytes that were staged for it, and
/// no file that was there before has changed, or the tree is as it was.
pub proof fn law_promotion_places_all_or_nothing(
    root: Seq<char>,
    entries: Seq<PathView>,
    staged: Map<PathView, Seq<u8>>,
    tree: Tree,
    outcomes: Seq<OutcomeView>,
)
    requires
        conflict(entries) is None,
        entries.len() <= usize::MAX,
        can_run(start(root, entries), staged, tree, outcomes),
        promoted(start(root, entries), staged, tree, outcomes).0.phase is Ended,
    ensures
        ({
            let (state, now) = promoted(start(root, entries), staged, tree, outcomes);
            if state.failure is Some {
                now == tree
            } else {
                &&& forall|i: int|
                    0 <= i < entries.len() ==> now.files.dom().contains(#[trigger] entries[i])
                        && now.files[entries[i]] == staged[entries[i]]
                        && !tree.files.dom().contains(entries[i])
                &&& forall|p: PathView| #[trigger]
                    tree.files.dom().contains(p) ==> now.files.dom().contains(p) && now.files[p]
                        == tree.files[p]
            }
        }),
{
    lemma_run_keeps_record(root, entries, staged, tree, outcomes);
    let (state, now) = promoted(start(root, entries), staged, tree, outcomes);
    if state.failure is Some {
        law_failed_promotion_leaves_nothing(state, staged, tree, now);
    } else {
        law_finished_promotion_places_all(state, staged, tree, now);
    }
}

/// What to do to the file system next.  The paths are relative to the
/// extraction root.
#[derive(Debug)]
pub enum Step {
    /// Create a directory, unless it is there.
    CreateDir(Vec<String>),
    /// Check that a directory, with links resolved, lies inside the root.
    CheckParent(Vec<String>),
    /// Create an empty file under a name that must not be taken.
    Reserve(Vec<String>),
    /// Move the staged entry onto the name that was reserved for it.
    Move(Vec<String>),
    /// Remove a file.
    RemoveFile(Vec<String>),
    /// Remove a directory.
    RemoveDir(Vec<String>),
    /// Nothing: the promotion has ended.
    Finished,
}

impl Step {
    /// The step, with its path in characters.
    pub open spec fn model(self) -> StepView {
        match self {
            Step::CreateDir(p) => StepView::CreateDir(texts(p@)),
            Step::CheckParent(p) => StepView::CheckParent(texts(p@)),
            Step::Reserve(p) => StepView::Reserve(texts(p@)),
            Step::Move(p) => StepView::Move(texts(p@)),
            Step::RemoveFile(p) => StepView::RemoveFile(texts(p@)),
            Step::RemoveDir(p) => StepView::RemoveDir(texts(p@)),
            Step::Finished => StepView::Finished,
        }
    }
}

/// How a step went.
#[derive(Debug)]
pub enum Outcome {
    /// It was done.
    Done,
    /// The name was taken.
    Exists,
    /// The directory lies outside the root.
    Outside,
    /// The file system refused it.
    Failed(std::io::Error),
    /// The entry could not be moved, with the reason.
    Unmoved(String),
}

impl Outcome {
    /// The outcome, with its reason in characters.
    pub open spec fn model(self) -> OutcomeView {
        match self {
            Outcome::Done => OutcomeView::Done,
            Outcome::Exists => OutcomeView::Exists,
            Outcome::Outside => OutcomeView::Outside,
            Outcome::Failed(e) => OutcomeView::Failed(e),
            Outcome::Unmoved(text) => OutcomeView::Unmoved(text@),
        }
    }
}

/// Whether an error tells of a failure.
pub open spec fn tells(e: FileError, failure: Failure) -> bool {
    match failure {
        Failure::Io(io) => e == FileError::Io(io),
        Failure::Archive(text) => e.is_archive_error(text),
    }
}

/// Why a promotion failed, as it is kept.
enum Cause {
    Io(std::io::Error),
    Archive(String),
}

impl Cause {
    /// The failure.
    spec fn model(self) -> Failure {
        match self {
            Cause::Io(e) => Failure::Io(e),
            Cause::Archive(text) => Failure::Archive(text@),
        }
    }

    /// The error that tells of it.
    spec fn as_error(self) -> FileError {
        match self {
            Cause::Io(e) => FileError::Io(e),
            Cause::Archive(text) => FileError::Archive(text),
        }
    }
}

/// The promotion of a list of staged entries into the extraction root.
///
/// First every directory is created, checked, and every name claimed; only
/// then are the entries moved onto their names.  When a step fails, everything
/// that was created is removed again.
pub struct Promotion {
    root: String,
    entries: Vec<Vec<String>>,
    phase: Phase,
    created: Vec<Vec<String>>,
    reserved: usize,
    failure: Option<Cause>,
}

impl Promotion {
    /// The state of this promotion.
    pub closed spec fn state(&self) -> PromotionView {
        PromotionView {
            root: self.root@,
            entries: paths(self.entries@),
            phase: self.phase,
            created: paths(self.created@),
            reserved: self.reserved as nat,
            failure: match self.failure {
                Some(cause) => Some(cause.model()),
                None => None,
            },
        }
    }

    /// The error that this promotion ends in, if a step failed.
    pub closed spec fn error(&self) -> Option<FileError> {
        match self.failure {
            Some(cause) => Some(cause.as_error()),
            None => None,
        }
    }

    /// Starts the promotion of the given entries, if they can be placed in one
    /// tree.  `root` is the extraction root, written out.
    pub fn new(root: &str, entries: Vec<Vec<String>>) -> (r: FileResult<Promotion>)
        ensures
            match r {
                Ok(p) => conflict(paths(entries@)) is None && p.state() == start(
                    root@,
                    paths(entries@),
                ) && consistent(p.state()) && p.error() is None,
                Err(e) => conflict(paths(entries@)) matches Some(text) && e.is_archive_error(text),
            },
    {
        match check_entries(&entries) {
            Err(e) => Err(e),
            Ok(_) => {
                let phase = first_phase(&entries, 0);
                let p = Promotion {
                    root: root.to_owned(),
                    entries,
                    phase,
                    created: Vec::new(),
                    reserved: 0,
                    failure: None,
                };
                assert(paths(p.created@) == Seq::<PathView>::empty());
                Ok(p)
            },
        }
    }

    /// The next step.
    pub fn step(&self) -> (r: Step)
        requires
            consistent(self.state()),
        ensures
            r.model() == step_of(self.state()),
    {
        let ghost s = self.state();
        match self.phase {
            Phase::Dirs { entry, depth } => {
                let path = &self.entries[entry];
                assert(s.entries[entry as int].len() == path.len());
                Step::CreateDir(prefix(path, depth + 1))
            },
            Phase::Check { entry } => {
                let path = &self.entries[entry];
                let parent = prefix(path, path.len() - 1);
                assert(texts(path@).take(path.len() - 1) == texts(path@).drop_last());
                Step::CheckParent(parent)
            },
            Phase::Claim { entry } => Step::Reserve(copy_path(&self.entries[entry])),
            Phase::Place { entry } => Step::Move(copy_path(&self.entries[entry])),
            Phase::UndoFiles => Step::RemoveFile(copy_path(&self.entries[self.reserved - 1])),
            Phase::UndoDirs => Step::RemoveDir(copy_path(&self.created[self.created.len() - 1])),
            Phase::Ended => Step::Finished,
        }
    }

    fn fail(&mut self, cause: Cause)
        ensures
            final(self).state() == failed(old(self).state(), cause.model()),
            final(self).error() == Some(cause.as_error()),
    {
        self.failure = Some(cause);
        self.phase = self.undo();
    }

    fn undo(&self) -> (r: Phase)
        ensures
            r == undo_phase(self.state().reserved, self.state().created),
    {
        if self.reserved > 0 {
            Phase::UndoFiles
        } else if self.created.len() > 0 {
            Phase::UndoDirs
        } else {
            Phase::Ended
        }
    }

    fn destination(&self, path: &Vec<String>) -> (r: String)
        ensures
            r@ == destination(self.state().root, texts(path@)),
    {
        if path.len() > 0 {
            let mut all: Vec<String> = Vec::new();
            all.push(self.root.clone());
            assert(texts(all@) == seq![self.root@]);
            for i in 0..path.len()
                invariant
                    texts(all@) == seq![self.root@] + texts(path@).take(i as int),
            {
                let ghost before = all@;
                all.push(path[i].clone());
                assert(texts(all@) == texts(before).push(path[i as int]@));
                assert(texts(path@).take(i + 1) == texts(path@).take(i as int).push(
                    path[i as int]@,
                ));
            }
            assert(texts(path@).take(path.len() as int) == texts(path@));
            join_path(&all)
        } else {
            let mut out = self.root.clone();
            if needs_slash(out.as_str()) {
                out.push('/');
            }
            out
        }
    }

    /// Takes note of how the next step went.
    pub fn advance(&mut self, outcome: Outcome)
        requires
            consistent(old(self).state()),
            fits(step_of(old(self).state()), outcome.model()),
        ensures
            final(self).state() == advanced(old(self).state(), outcome.model()),
            consistent(final(self).state()),
            outcome matches Outcome::Failed(e) ==> old(self).error() is None ==> final(self).error()
                == Some(FileError::Io(e)),
            old(self).error() is Some ==> final(self).error() == old(self).error(),
            final(self).error() is Some <==> final(self).state().failure is Some,
    {
        let ghost s = self.state();
        match self.phase {
            Phase::Dirs { entry, depth } => {
                assert(s.entries[entry as int].len() == self.entries[entry as int].len());
                let next = if depth + 2 < self.entries[entry].len() {
                    Phase::Dirs { entry, depth: depth + 1 }
                } else {
                    Phase::Check { entry }
                };
                match outcome {
                    Outcome::Done => {
                        let dir = prefix(&self.entries[entry], depth + 1);
                        self.created.push(dir);
                        self.phase = next;
                        assert(self.state().created == s.created.push(texts(dir@)));
                    },
                    Outcome::Exists => {
                        self.phase = next;
                    },
                    Outcome::Failed(e) => self.fail(Cause::Io(e)),
                    _ => {},
                }
            },
            Phase::Check { entry } => {
                match outcome {
                    Outcome::Done => {
                        self.phase = Phase::Claim { entry };
                    },
                    Outcome::Outside => {
                        let mut text = "refusing to write ".to_owned();
                        text.append(self.destination(&self.entries[entry]).as_str());
                        text.append(" outside the extraction directory");
                        self.fail(Cause::Archive(text));
                    },
                    Outcome::Failed(e) => self.fail(Cause::Io(e)),
                    _ => {},
                }
            },
            Phase::Claim { entry } => {
                match outcome {
                    Outcome::Done => {
                        assert(s.entries.len() == self.entries.len());
                        self.reserved = self.reserved + 1;
                        self.phase = first_phase(&self.entries, entry + 1);
                    },
                    Outcome::Exists => {
                        let mut text = "refusing to overwrite the existing path ".to_owned();
                        text.append(self.destination(&self.entries[entry]).as_str());
                        text.append(" with archive entry ");
                        text.append(join_path(&self.entries[entry]).as_str());
                        self.fail(Cause::Archive(text));
                    },
                    Outcome::Failed(e) => self.fail(Cause::Io(e)),
                    _ => {},
                }
            },
            Phase::Place { entry } => {
                match outcome {
                    Outcome::Done => {
                        self.phase = if entry + 1 < self.entries.len() {
                            Phase::Place { entry: entry + 1 }
                        } else {
                            Phase::Ended
                        };
                    },
                    Outcome::Unmoved(reason) => {
                        let mut text = "failed to move archive entry ".to_owned();
                        text.append(join_path(&self.entries[entry]).as_str());
                        text.append(" into place: ");
                        text.append(reason.as_str());
                        self.fail(Cause::Archive(text));
                    },
                    _ => {},
                }
            },
            Phase::UndoFiles => {
                self.reserved = self.reserved - 1;
                self.phase = self.undo();
            },
            Phase::UndoDirs => {
                self.created.pop();
                assert(self.state().created == s.created.drop_last());
                self.phase = self.undo();
            },
            Phase::Ended => {},
        }
    }

    /// The result of a promotion that has ended: the error of the step that
    /// failed, if one did.
    pub fn into_result(self) -> (r: FileResult<()>)
        requires
            self.state().phase is Ended,
        ensures
            match r {
                Ok(_) => self.error() is None && self.state().failure is None,
                Err(e) => self.error() == Some(e) && self.state().failure is Some && tells(
                    e,
                    self.state().failure->0,
                ),
            },
    {
        match self.failure {
            Some(Cause::Io(e)) => Err(FileError::Io(e)),
            Some(Cause::Archive(text)) => Err(FileError::Archive(text)),
            None => Ok(()),
        }
    }
}

fn first_phase(entries: &Vec<Vec<String>>, entry: usize) -> (r: Phase)
    ensures
        r == entry_phase(paths(entries@), entry as nat),
{
    if entry >= entries.len() {
        if entries.len() == 0 {
            Phase::Ended
        } else {
            Phase::Place { entry: 0 }
        }
    } else if entries[entry].len() == 0 {
        Phase::Claim { entry }
    } else if entries[entry].len() == 1 {
        Phase::Check { entry }
    } else {
        Phase::Dirs { entry, depth: 0 }
    }
}

} // verus!
