//! What holds of the steps of a promotion, one after the other.

use crate::archive::paths::joined;
use crate::archive::promotion::{
    advanced, after, ancestor_text, can_happen, can_run, conflict, consistent, destination,
    file_ancestor, first_conflict, fits, law_promotion_keeps_record, law_promotion_starts_clean,
    lies_below, listed_ancestor, on_record, promoted, start, step_of, tells, Failure, Outcome,
    OutcomeView, PathView, Phase, PromotionView, Step, StepView, Tree,
};
use crate::error::FileError;
use crate::text::{interleaved, texts};
use vstd::prelude::*;
use vstd::string::*;

verus! {

/// Whether a directory was found to exist only where there is one.
pub open spec fn truthful(
    s: PromotionView,
    staged: Map<PathView, Seq<u8>>,
    tree: Tree,
    outcomes: Seq<OutcomeView>,
) -> bool
    decreases outcomes.len(),
{
    outcomes.len() > 0 ==> {
        let (state, now) = promoted(s, staged, tree, outcomes.drop_last());
        &&& truthful(s, staged, tree, outcomes.drop_last())
        &&& step_of(state) matches StepView::CreateDir(dir) ==> outcomes.last() is Exists
            ==> now.dirs.contains(dir)
    }
}

/// Whether the directories of a path, up to the given depth, are all there.
pub open spec fn has_parents(tree: Tree, path: PathView, depth: int) -> bool {
    forall|k: int| 0 < k <= depth ==> tree.dirs.contains(#[trigger] path.take(k))
}

/// What a promotion keeps true of the directories on its way forward.
spec fn forward(s: PromotionView, now: Tree) -> bool {
    &&& s.failure is None ==> forall|i: int|
        0 <= i < s.created.len() ==> has_parents(
            now,
            #[trigger] s.created[i],
            s.created[i].len() as int,
        )
    &&& match s.phase {
        Phase::Dirs { entry, depth } => has_parents(now, s.entries[entry as int], depth as int),
        Phase::Check { entry } => has_parents(
            now,
            s.entries[entry as int],
            s.entries[entry as int].len() - 1,
        ),
        Phase::Claim { entry } => has_parents(
            now,
            s.entries[entry as int],
            s.entries[entry as int].len() - 1,
        ),
        _ => true,
    }
    &&& forall|i: int, j: int|
        0 <= i < j < s.created.len() ==> !lies_below(
            #[trigger] s.created[i],
            #[trigger] s.created[j],
        )
}

proof fn lemma_forward_is_kept(
    s: PromotionView,
    staged: Map<PathView, Seq<u8>>,
    before: Tree,
    now: Tree,
    outcome: OutcomeView,
)
    requires
        on_record(s, staged, before, now),
        s.entries.len() <= usize::MAX,
        forward(s, now),
        fits(step_of(s), outcome),
        can_happen(now, step_of(s), outcome),
        step_of(s) matches StepView::CreateDir(dir) ==> outcome is Exists ==> now.dirs.contains(
            dir,
        ),
    ensures
        forward(
            advanced(s, outcome),
            after(now, staged, step_of(s), outcome),
        ),
{
    let next = advanced(s, outcome);
    let tree = after(now, staged, step_of(s), outcome);
    match s.phase {
        Phase::Dirs { entry, depth } => {
            let path = s.entries[entry as int];
            let dir = path.take(depth + 1);
            if outcome is Done || outcome is Exists {
                assert(tree.dirs.contains(dir));
                assert forall|k: int| 0 < k <= depth + 1 implies tree.dirs.contains(
                    #[trigger] path.take(k),
                ) by {
                    if k <= depth {
                        assert(now.dirs.contains(path.take(k)));
                    }
                }
            }
            if outcome is Done {
                assert forall|i: int| 0 <= i < next.created.len() implies has_parents(
                    tree,
                    #[trigger] next.created[i],
                    next.created[i].len() as int,
                ) by {
                    if i < s.created.len() {
                        assert(next.created[i] == s.created[i]);
                        assert(has_parents(now, s.created[i], s.created[i].len() as int));
                        assert forall|k: int|
                            0 < k <= s.created[i].len() implies tree.dirs.contains(
                            #[trigger] s.created[i].take(k),
                        ) by {
                            assert(now.dirs.contains(s.created[i].take(k)));
                        }
                    } else {
                        assert forall|k: int| 0 < k <= dir.len() implies tree.dirs.contains(
                            #[trigger] dir.take(k),
                        ) by {
                            assert(dir.take(k) == path.take(k));
                        }
                    }
                }
                assert forall|i: int, j: int| 0 <= i < j < next.created.len() implies !lies_below(
                    #[trigger] next.created[i],
                    #[trigger] next.created[j],
                ) by {
                    if j < s.created.len() {
                        assert(!lies_below(s.created[i], s.created[j]));
                    } else {
                        assert(has_parents(now, s.created[i], s.created[i].len() as int));
                        if lies_below(s.created[i], dir) {
                            assert(now.dirs.contains(s.created[i].take(dir.len() as int)));
                        }
                    }
                }
            } else if outcome is Exists {
                assert(tree == now);
            }
        },
        Phase::UndoDirs => {
            assert forall|i: int, j: int| 0 <= i < j < next.created.len() implies !lies_below(
                #[trigger] next.created[i],
                #[trigger] next.created[j],
            ) by {
                assert(next.created[i] == s.created[i]);
                assert(next.created[j] == s.created[j]);
            }
        },
        _ => {},
    }
    if !(s.phase is Dirs) && !(s.phase is UndoDirs) {
        assert(next.created == s.created);
        assert(tree.dirs == now.dirs);
        if next.failure is None {
            assert forall|i: int| 0 <= i < next.created.len() implies has_parents(
                tree,
                #[trigger] next.created[i],
                next.created[i].len() as int,
            ) by {
                assert(has_parents(now, s.created[i], s.created[i].len() as int));
                assert forall|k: int| 0 < k <= s.created[i].len() implies tree.dirs.contains(
                    #[trigger] s.created[i].take(k),
                ) by {
                    assert(now.dirs.contains(s.created[i].take(k)));
                }
            }
        }
    }
}

proof fn lemma_run_goes_forward(
    root: Seq<char>,
    entries: Seq<PathView>,
    staged: Map<PathView, Seq<u8>>,
    tree: Tree,
    outcomes: Seq<OutcomeView>,
)
    requires
        conflict(entries) is None,
        entries.len() <= usize::MAX,
        can_run(start(root, entries), staged, tree, outcomes),
        truthful(start(root, entries), staged, tree, outcomes),
    ensures
        ({
            let (state, now) = promoted(start(root, entries), staged, tree, outcomes);
            &&& on_record(state, staged, tree, now)
            &&& forward(state, now)
            &&& state.entries == entries
        }),
    decreases outcomes.len(),
{
    if outcomes.len() == 0 {
        law_promotion_starts_clean(root, entries, staged, tree);
    } else {
        let init = outcomes.drop_last();
        lemma_run_goes_forward(root, entries, staged, tree, init);
        let (state, now) = promoted(start(root, entries), staged, tree, init);
        law_promotion_keeps_record(state, staged, tree, now, outcomes.last());
        lemma_forward_is_kept(state, staged, tree, now, outcomes.last());
    }
}

/// Before the directory of an entry is checked and the name of the entry is
/// claimed, every directory on the way to the entry is there.
pub proof fn law_directories_are_made_before_a_name_is_claimed(
    root: Seq<char>,
    entries: Seq<PathView>,
    staged: Map<PathView, Seq<u8>>,
    tree: Tree,
    outcomes: Seq<OutcomeView>,
)
    requires
        conflict(entries) is None,
        entries.len() <= usize::MAX,
        can_run(start(root, entries), staged, tree, outcomes),
        truthful(start(root, entries), staged, tree, outcomes),
    ensures
        ({
            let (state, now) = promoted(start(root, entries), staged, tree, outcomes);
            &&& step_of(state) matches StepView::CheckParent(dir) ==> forall|k: int|
                0 < k <= dir.len() ==> now.dirs.contains(#[trigger] dir.take(k))
            &&& step_of(state) matches StepView::Reserve(path) ==> forall|k: int|
                0 < k < path.len() ==> now.dirs.contains(#[trigger] path.take(k))
        }),
{
    lemma_run_goes_forward(root, entries, staged, tree, outcomes);
    let (state, now) = promoted(start(root, entries), staged, tree, outcomes);
    if let StepView::CheckParent(dir) = step_of(state) {
        if let Phase::Check { entry } = state.phase {
            let path = state.entries[entry as int];
            assert forall|k: int| 0 < k <= dir.len() implies now.dirs.contains(
                #[trigger] dir.take(k),
            ) by {
                assert(dir.take(k) == path.take(k));
            }
        }
    }
}

/// A promotion touches nothing but what it is for.  It creates only directories
/// above its entries, and claims and moves only its entries, moving none before
/// the names of all are claimed; what it takes back was not there before, files
/// come before directories, and no directory is taken back before those that
/// were created below it.
pub proof fn law_a_promotion_keeps_to_its_entries(
    root: Seq<char>,
    entries: Seq<PathView>,
    staged: Map<PathView, Seq<u8>>,
    tree: Tree,
    outcomes: Seq<OutcomeView>,
)
    requires
        conflict(entries) is None,
        entries.len() <= usize::MAX,
        can_run(start(root, entries), staged, tree, outcomes),
        truthful(start(root, entries), staged, tree, outcomes),
    ensures
        ({
            let (state, now) = promoted(start(root, entries), staged, tree, outcomes);
            match step_of(state) {
                StepView::CreateDir(dir) => dir.len() > 0 && exists|i: int|
                    0 <= i < entries.len() && #[trigger] lies_below(entries[i], dir),
                StepView::CheckParent(dir) => exists|i: int|
                    0 <= i < entries.len() && (#[trigger] entries[i]).len() > 0 && dir
                        == entries[i].drop_last(),
                StepView::Reserve(path) => entries.contains(path),
                StepView::Move(path) => entries.contains(path) && forall|i: int|
                    0 <= i < entries.len() ==> now.files.dom().contains(#[trigger] entries[i]),
                StepView::RemoveFile(path) => entries.contains(path)
                    && !tree.files.dom().contains(path) && now.files.dom().contains(path),
                StepView::RemoveDir(dir) => !tree.dirs.contains(dir) && now.dirs.contains(dir)
                    && now.files =~= tree.files && forall|other: PathView| #[trigger]
                    now.dirs.contains(other) && lies_below(other, dir) ==> tree.dirs.contains(
                        other,
                    ),
                StepView::Finished => true,
            }
        }),
{
    lemma_run_goes_forward(root, entries, staged, tree, outcomes);
    let (state, now) = promoted(start(root, entries), staged, tree, outcomes);
    match state.phase {
        Phase::Dirs { entry, depth } => {
            let path = entries[entry as int];
            assert(lies_below(entries[entry as int], path.take(depth + 1)));
        },
        Phase::Check { entry } => {
            assert(entries[entry as int].len() > 0);
        },
        Phase::Place { entry } => {
            assert(entries.take(state.reserved as int) == entries);
            assert forall|i: int| 0 <= i < entries.len() implies now.files.dom().contains(
                #[trigger] entries[i],
            ) by {
                assert(entries.contains(entries[i]));
            }
        },
        Phase::UndoFiles => {
            let path = entries[state.reserved - 1];
            assert(entries.take(state.reserved as int)[state.reserved - 1] == path);
            assert(entries.contains(path));
        },
        Phase::UndoDirs => {
            let dir = state.created.last();
            assert(state.created.contains(dir));
            assert(entries.take(0) == Seq::<PathView>::empty());
            assert(now.files =~= tree.files);
            assert forall|other: PathView| #[trigger]
                now.dirs.contains(other) && lies_below(other, dir) implies tree.dirs.contains(
                other,
            ) by {
                if state.created.contains(other) {
                    let i = state.created.index_of(other);
                    if i < state.created.len() - 1 {
                        assert(!lies_below(
                            state.created[i],
                            state.created[state.created.len() - 1],
                        ));
                    }
                }
            }
        },
        _ => {},
    }
}

/// The name of an entry is claimed right after the directory that it lies in was
/// found to lie inside the root, and only then.
pub proof fn law_the_directory_of_an_entry_is_checked_first(
    root: Seq<char>,
    entries: Seq<PathView>,
    s: PromotionView,
    outcome: OutcomeView,
)
    requires
        consistent(s),
        s.entries.len() <= usize::MAX,
        fits(step_of(s), outcome),
        entries.len() <= usize::MAX,
    ensures
        step_of(advanced(s, outcome)) matches StepView::Reserve(path) ==> path.len() > 0 ==> step_of(
            s,
        ) == StepView::CheckParent(path.drop_last()) && outcome is Done,
        step_of(start(root, entries)) matches StepView::Reserve(path) ==> path.len() == 0,
{
}

/// A step that was done fails nothing, nor does a directory that is there
/// already; every other outcome on the way forward is a failure, and what failed
/// first is kept.
pub proof fn law_a_promotion_fails_by_a_failed_step(s: PromotionView, outcome: OutcomeView)
    requires
        consistent(s),
        s.entries.len() <= usize::MAX,
        fits(step_of(s), outcome),
    ensures
        s.failure is None ==> (advanced(s, outcome).failure is None <==> outcome is Done || (
        outcome is Exists && step_of(s) is CreateDir)),
        s.failure is Some ==> advanced(s, outcome).failure == s.failure,
{
}

/// How far a promotion is from its end: which part of the work it is in, how
/// many things are left in it, and how many steps are left for the next one.
pub open spec fn remaining(s: PromotionView) -> (int, int, int) {
    match s.phase {
        Phase::Dirs { entry, depth } => (
            4,
            s.entries.len() - entry,
            2 + s.entries[entry as int].len() - depth,
        ),
        Phase::Check { entry } => (4, s.entries.len() - entry, 1),
        Phase::Claim { entry } => (4, s.entries.len() - entry, 0),
        Phase::Place { entry } => (3, s.entries.len() - entry, 0),
        Phase::UndoFiles => (2, s.reserved as int, 0),
        Phase::UndoDirs => (1, s.created.len() as int, 0),
        Phase::Ended => (0, 0, 0),
    }
}

/// Every step brings a promotion closer to its end, whichever way it goes.
pub proof fn law_every_step_of_a_promotion_counts(s: PromotionView, outcome: OutcomeView)
    requires
        consistent(s),
        s.entries.len() <= usize::MAX,
        forall|i: int| 0 <= i < s.entries.len() ==> (#[trigger] s.entries[i]).len() <= usize::MAX,
        fits(step_of(s), outcome),
    ensures
        ({
            let (part, things, steps) = remaining(s);
            let (part_after, things_after, steps_after) = remaining(advanced(s, outcome));
            &&& part_after >= 0 && things_after >= 0 && steps_after >= 0
            &&& part_after < part || (part_after == part && (things_after < things || (things_after
                == things && steps_after < steps)))
        }),
        step_of(s) is Finished <==> remaining(s) == (0int, 0int, 0int),
{
}

/// A path below a root, written out, is the root and the components with slashes
/// between them.
pub proof fn law_destinations_lie_below_the_root(root: Seq<char>, path: PathView)
    requires
        root.len() > 0,
        root.last() != '/',
        forall|i: int|
            0 <= i < path.len() ==> (#[trigger] path[i]).len() > 0 && path[i].last() != '/',
        path.len() > 0,
    ensures
        destination(root, path) == interleaved(seq![root] + path, '/'),
{
    let parts = seq![root] + path;
    assert forall|i: int| 0 <= i < parts.len() implies (#[trigger] parts[i]).len() > 0
        && parts[i].last() != '/' by {
        if i > 0 {
            assert(parts[i] == path[i - 1]);
        }
    }
    law_joined_paths_have_slashes_between(parts);
}

/// A path, written out, is its components with slashes between them.
pub proof fn law_joined_paths_have_slashes_between(parts: Seq<Seq<char>>)
    requires
        forall|i: int|
            0 <= i < parts.len() ==> (#[trigger] parts[i]).len() > 0 && parts[i].last() != '/',
    ensures
        joined(parts) == interleaved(parts, '/'),
        parts.len() > 0 ==> joined(parts).len() > 0 && joined(parts).last() != '/',
    decreases parts.len(),
{
    if parts.len() > 0 {
        let init = parts.drop_last();
        assert forall|i: int| 0 <= i < init.len() implies (#[trigger] init[i]).len() > 0
            && init[i].last() != '/' by {
            assert(init[i] == parts[i]);
        }
        law_joined_paths_have_slashes_between(init);
        assert(parts[parts.len() - 1].len() > 0);
        if parts.len() == 1 {
            assert(joined(init) == Seq::<char>::empty());
            assert(joined(parts) == parts[0]);
        }
    }
}

proof fn lemma_longest_listed(entries: Seq<PathView>, path: PathView, len: nat)
    requires
        len < path.len(),
    ensures
        listed_ancestor(entries, path, len) matches Some(found) ==> {
            &&& lies_below(path, found)
            &&& entries.contains(found)
            &&& forall|k: int|
                found.len() < k <= len ==> !entries.contains(#[trigger] path.take(k))
        },
    decreases len,
{
    if !entries.contains(path.take(len as int)) && len > 0 {
        lemma_longest_listed(entries, path, (len - 1) as nat);
    }
}

proof fn lemma_first_conflict_found(entries: Seq<PathView>, from: nat, at: nat)
    requires
        from <= at < entries.len(),
        forall|i: int|
            from <= i < at ==> (#[trigger] file_ancestor(entries, entries[i])) is None,
        file_ancestor(entries, entries[at as int]) is Some,
    ensures
        first_conflict(entries, from) == Some(
            ancestor_text(
                entries[at as int],
                file_ancestor(entries, entries[at as int])->0,
            ),
        ),
    decreases at - from,
{
    if from < at {
        assert(file_ancestor(entries, entries[from as int]) is None);
        lemma_first_conflict_found(entries, from + 1, at);
    }
}

/// Entries that cannot be placed in one tree are refused because a path occurs
/// twice; otherwise for the first entry that lies below another, and the other
/// that is named is the nearest.
pub proof fn law_what_a_conflict_says(entries: Seq<PathView>, at: int, below: int)
    requires
        0 <= at < entries.len(),
        0 <= below < entries.len(),
        lies_below(entries[at], entries[below]),
        forall|i: int, j: int|
            0 <= i < at && 0 <= j < entries.len() ==> !#[trigger] lies_below(
                entries[i],
                entries[j],
            ),
        forall|j: int|
            0 <= j < entries.len() && #[trigger] lies_below(entries[at], entries[j])
                ==> entries[j].len() <= entries[below].len(),
    ensures
        entries.no_duplicates() ==> conflict(entries) == Some(
            "refusing to extract entry "@ + joined(entries[at]) + ": "@ + joined(entries[below])
                + " is also a file entry in the archive"@,
        ),
        !entries.no_duplicates() ==> conflict(entries) == Some(
            "archive declares the same entry path more than once"@,
        ),
{
    let path = entries[at];
    let len = (path.len() - 1) as nat;
    assert forall|i: int| 0 <= i < at implies (#[trigger] file_ancestor(
        entries,
        entries[i],
    )) is None by {
        let other = entries[i];
        if other.len() > 0 {
            lemma_longest_listed(entries, other, (other.len() - 1) as nat);
            if let Some(found) = file_ancestor(entries, other) {
                let j = entries.index_of(found);
                assert(lies_below(other, entries[j]));
            }
        }
    }
    lemma_longest_listed(entries, path, len);
    lemma_listed_if_any(entries, path, len, entries[below].len() as int, below);
    let found = file_ancestor(entries, path)->0;
    let j = entries.index_of(found);
    assert(entries[j] == found);
    assert(lies_below(path, entries[j]));
    if found.len() < entries[below].len() {
        assert(entries.contains(path.take(entries[below].len() as int)));
    }
    assert(found == entries[below]);
    lemma_first_conflict_found(entries, 0, at as nat);
}

proof fn lemma_listed_if_any(entries: Seq<PathView>, path: PathView, len: nat, k: int, below: int)
    requires
        0 <= k <= len < path.len(),
        0 <= below < entries.len(),
        entries[below] == path.take(k),
    ensures
        listed_ancestor(entries, path, len) is Some,
    decreases len,
{
    assert(entries.contains(path.take(k)));
    if !entries.contains(path.take(len as int)) {
        assert(k < len);
        lemma_listed_if_any(entries, path, (len - 1) as nat, k, below);
    }
}

/// An error tells of a failure of the file system by that error, and of another
/// failure by an archive error with its text.
pub proof fn law_failures_are_told(e: FileError, failure: Failure)
    ensures
        failure matches Failure::Io(io) ==> (tells(e, failure) <==> e == FileError::Io(io)),
        failure matches Failure::Archive(text) ==> (tells(e, failure) <==> (e matches
            FileError::Archive(m) && m@ == text)),
{
}

/// The view of a step is the same step on the same path, and that of an outcome
/// the same outcome.
pub proof fn law_views_of_steps(step: Step, outcome: Outcome)
    ensures
        step matches Step::CreateDir(p) ==> step.model() == StepView::CreateDir(texts(p@)),
        step matches Step::CheckParent(p) ==> step.model() == StepView::CheckParent(texts(p@)),
        step matches Step::Reserve(p) ==> step.model() == StepView::Reserve(texts(p@)),
        step matches Step::Move(p) ==> step.model() == StepView::Move(texts(p@)),
        step matches Step::RemoveFile(p) ==> step.model() == StepView::RemoveFile(texts(p@)),
        step matches Step::RemoveDir(p) ==> step.model() == StepView::RemoveDir(texts(p@)),
        step is Finished ==> step.model() is Finished,
        outcome is Done <==> outcome.model() is Done,
        outcome is Exists <==> outcome.model() is Exists,
        outcome is Outside <==> outcome.model() is Outside,
        outcome matches Outcome::Failed(e) ==> outcome.model() == OutcomeView::Failed(e),
        outcome matches Outcome::Unmoved(text) ==> outcome.model() == OutcomeView::Unmoved(text@),
{
}

/// What a failure on the way forward is told by: an error of the file system as
/// it is, and otherwise the entry that is being placed and what is wrong with it.
pub proof fn law_what_failed_steps_say(s: PromotionView, outcome: OutcomeView)
    requires
        consistent(s),
        s.entries.len() <= usize::MAX,
        s.failure is None,
        fits(step_of(s), outcome),
    ensures
        ({
            let told = advanced(s, outcome).failure;
            &&& outcome matches OutcomeView::Failed(e) ==> told == Some(Failure::Io(e))
            &&& step_of(s) is CheckParent && outcome is Outside ==> told == Some(
                Failure::Archive(
                    "refusing to write "@ + destination(s.root, s.entries[s.reserved as int])
                        + " outside the extraction directory"@,
                ),
            )
            &&& step_of(s) matches StepView::Reserve(path) ==> outcome is Exists ==> told == Some(
                Failure::Archive(
                    "refusing to overwrite the existing path "@ + destination(s.root, path)
                        + " with archive entry "@ + joined(path),
                ),
            )
            &&& step_of(s) matches StepView::Move(path) ==> outcome is Unmoved ==> told == Some(
                Failure::Archive(
                    "failed to move archive entry "@ + joined(path) + " into place: "@
                        + outcome->Unmoved_0,
                ),
            )
            &&& step_of(s) is CheckParent ==> step_of(s)
                == StepView::CheckParent(s.entries[s.reserved as int].drop_last())
        }),
{
}

} // verus!
