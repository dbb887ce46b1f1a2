use vstd::prelude::*;

use crate::publish::{Op, Outcome, PublishError};
use crate::text::same_text;

verus! {

/// Where the publish procedure stands: each phase waits for the result of the action that
/// led into it.
#[derive(Clone, Copy, Debug, PartialEq, Eq, Structural)]
pub enum Phase {
    /// Cloning the deploy branch into the mirror.
    Cloning,
    /// The clone failed; initializing a fresh repository instead.
    Initializing,
    /// Creating the deploy branch in the fresh repository.
    CreatingBranch,
    /// Bringing an existing mirror up to date.
    Updating,
    /// Creating and cleaning the branch subtree.
    Preparing,
    /// Copying the artifacts into the subtree.
    Copying,
    /// Staging every change in the mirror.
    Staging,
    /// Checking whether anything is staged.
    Checking,
    /// Committing the staged changes.
    Committing,
    /// Pushing the deploy branch.
    Pushing,
    /// Nothing is left to do.
    Finished,
}

/// What the caller is to do next.
#[derive(Clone, Copy, Debug, PartialEq, Eq, Structural)]
pub enum Action {
    /// Clone the deploy branch, at depth 1, into the mirror.
    Clone,
    /// Initialize an empty repository at the mirror.
    Init,
    /// Create the deploy branch, with no history, in the mirror.
    CreateBranch,
    /// Pull the mirror.
    Pull,
    /// Create the subtree if absent, and remove the entries that the clean step removes.
    PrepareSubtree,
    /// Copy each top-level entry of the source directory into the subtree.
    Copy,
    /// Stage all changes, deletions included.
    StageAll,
    /// Check whether anything is staged: succeed when nothing is, and fail with exit code 1
    /// when something is, as `git diff --cached --quiet` does.
    CheckStaged,
    /// Commit with the configured message.
    Commit,
    /// Push the deploy branch to the origin.
    Push,
    /// Stop: the run ended with this outcome.
    Finish(Outcome),
    /// Stop: the run failed.
    Abort(PublishError),
}

/// The first phase and action, by whether the mirror exists already.
pub open spec fn start_of(mirror_exists: bool) -> (Phase, Action) {
    if mirror_exists {
        (Phase::Updating, Action::Pull)
    } else {
        (Phase::Cloning, Action::Clone)
    }
}

/// Failure of a required step, with its code.
pub open spec fn failed(op: Op, code: Option<i32>) -> (Phase, Action) {
    (Phase::Finished, Action::Abort(PublishError::Failed(op, code)))
}

/// The next phase and action once the current action reported success or failure.
/// A failed clone falls back to a fresh repository; a check that finds nothing staged means
/// the content is up to date, and one that finds changes (exit code 1) leads to the commit;
/// any other failure aborts the run. `Finished` has no successor: it is
/// given one here only so that the function is total.
pub open spec fn step_of(phase: Phase, ok: bool, code: Option<i32>) -> (Phase, Action) {
    match phase {
        Phase::Cloning => if ok {
            (Phase::Preparing, Action::PrepareSubtree)
        } else {
            (Phase::Initializing, Action::Init)
        },
        Phase::Initializing => if ok {
            (Phase::CreatingBranch, Action::CreateBranch)
        } else {
            failed(Op::Init, code)
        },
        Phase::CreatingBranch => if ok {
            (Phase::Preparing, Action::PrepareSubtree)
        } else {
            failed(Op::CreateBranch, code)
        },
        Phase::Updating => if ok {
            (Phase::Preparing, Action::PrepareSubtree)
        } else {
            failed(Op::Pull, code)
        },
        Phase::Preparing => if ok {
            (Phase::Copying, Action::Copy)
        } else {
            failed(Op::PrepareSubtree, code)
        },
        Phase::Copying => if ok {
            (Phase::Staging, Action::StageAll)
        } else {
            failed(Op::Copy, code)
        },
        Phase::Staging => if ok {
            (Phase::Checking, Action::CheckStaged)
        } else {
            failed(Op::Stage, code)
        },
        Phase::Checking => if ok {
            (Phase::Finished, Action::Finish(Outcome::UpToDate))
        } else if code == Some(1i32) {
            (Phase::Committing, Action::Commit)
        } else {
            failed(Op::CheckStaged, code)
        },
        Phase::Committing => if ok {
            (Phase::Pushing, Action::Push)
        } else {
            failed(Op::Commit, code)
        },
        Phase::Pushing => if ok {
            (Phase::Finished, Action::Finish(Outcome::Published))
        } else {
            failed(Op::Push, code)
        },
        Phase::Finished => (Phase::Finished, Action::Finish(Outcome::Published)),
    }
}

/// Begins the publish procedure.
pub fn start(mirror_exists: bool) -> (r: (Phase, Action))
    ensures
        r == start_of(mirror_exists),
{
    if mirror_exists {
        (Phase::Updating, Action::Pull)
    } else {
        (Phase::Cloning, Action::Clone)
    }
}

/// Moves the procedure on, given whether the last action succeeded and the exit code it
/// reported.
pub fn advance(phase: Phase, ok: bool, code: Option<i32>) -> (r: (Phase, Action))
    requires
        phase != Phase::Finished,
    ensures
        r == step_of(phase, ok, code),
{
    match phase {
        Phase::Cloning => if ok {
            (Phase::Preparing, Action::PrepareSubtree)
        } else {
            (Phase::Initializing, Action::Init)
        },
        Phase::Initializing => if ok {
            (Phase::CreatingBranch, Action::CreateBranch)
        } else {
            (Phase::Finished, Action::Abort(PublishError::Failed(Op::Init, code)))
        },
        Phase::CreatingBranch => if ok {
            (Phase::Preparing, Action::PrepareSubtree)
        } else {
            (Phase::Finished, Action::Abort(PublishError::Failed(Op::CreateBranch, code)))
        },
        Phase::Updating => if ok {
            (Phase::Preparing, Action::PrepareSubtree)
        } else {
            (Phase::Finished, Action::Abort(PublishError::Failed(Op::Pull, code)))
        },
        Phase::Preparing => if ok {
            (Phase::Copying, Action::Copy)
        } else {
            (Phase::Finished, Action::Abort(PublishError::Failed(Op::PrepareSubtree, code)))
        },
        Phase::Copying => if ok {
            (Phase::Staging, Action::StageAll)
        } else {
            (Phase::Finished, Action::Abort(PublishError::Failed(Op::Copy, code)))
        },
        Phase::Staging => if ok {
            (Phase::Checking, Action::CheckStaged)
        } else {
            (Phase::Finished, Action::Abort(PublishError::Failed(Op::Stage, code)))
        },
        Phase::Checking => if ok {
            (Phase::Finished, Action::Finish(Outcome::UpToDate))
        } else if code == Some(1i32) {
            (Phase::Committing, Action::Commit)
        } else {
            (Phase::Finished, Action::Abort(PublishError::Failed(Op::CheckStaged, code)))
        },
        Phase::Committing => if ok {
            (Phase::Pushing, Action::Push)
        } else {
            (Phase::Finished, Action::Abort(PublishError::Failed(Op::Commit, code)))
        },
        Phase::Pushing => if ok {
            (Phase::Finished, Action::Finish(Outcome::Published))
        } else {
            (Phase::Finished, Action::Abort(PublishError::Failed(Op::Push, code)))
        },
        Phase::Finished => (Phase::Finished, Action::Finish(Outcome::Published)),
    }
}

/// The actions taken from `phase` on, when the actions report `results` in turn
/// (success, exit code).
pub open spec fn actions_from(phase: Phase, results: Seq<(bool, Option<i32>)>) -> Seq<Action>
    decreases results.len(),
{
    if phase == Phase::Finished || results.len() == 0 {
        Seq::empty()
    } else {
        let (next, action) = step_of(phase, results[0].0, results[0].1);
        seq![action] + actions_from(next, results.drop_first())
    }
}

/// The actions of a whole run.
pub open spec fn run_actions(mirror_exists: bool, results: Seq<(bool, Option<i32>)>) -> Seq<Action> {
    let (phase, action) = start_of(mirror_exists);
    seq![action] + actions_from(phase, results)
}

proof fn lemma_late_phases_not_up_to_date(phase: Phase, results: Seq<(bool, Option<i32>)>)
    requires
        phase == Phase::Committing || phase == Phase::Pushing || phase == Phase::Finished,
    ensures
        !actions_from(phase, results).contains(Action::Finish(Outcome::UpToDate)),
    decreases results.len(),
{
    let s = actions_from(phase, results);
    if phase != Phase::Finished && results.len() > 0 {
        let (next, action) = step_of(phase, results[0].0, results[0].1);
        let rest = actions_from(next, results.drop_first());
        lemma_late_phases_not_up_to_date(next, results.drop_first());
        assert(s == seq![action] + rest);
        assert forall|j: int| 0 <= j < s.len() implies s[j] != Action::Finish(Outcome::UpToDate) by {
            if j > 0 {
                assert(s[j] == rest[j - 1]);
            }
        }
    }
}

proof fn lemma_up_to_date_without_commit(phase: Phase, results: Seq<(bool, Option<i32>)>)
    requires
        actions_from(phase, results).contains(Action::Finish(Outcome::UpToDate)),
    ensures
        !actions_from(phase, results).contains(Action::Push),
        !actions_from(phase, results).contains(Action::Commit),
        phase == Phase::Checking || actions_from(phase, results).contains(Action::CheckStaged),
    decreases results.len(),
{
    let s = actions_from(phase, results);
    let (next, action) = step_of(phase, results[0].0, results[0].1);
    let rest = actions_from(next, results.drop_first());
    assert(s == seq![action] + rest);
    if action == Action::Finish(Outcome::UpToDate) {
        assert(next == Phase::Finished);
        assert(rest == Seq::<Action>::empty());
        assert(s =~= seq![action]);
    } else {
        let k = choose|k: int| 0 <= k < s.len() && s[k] == Action::Finish(Outcome::UpToDate);
        assert(rest[k - 1] == Action::Finish(Outcome::UpToDate));
        assert(rest.contains(Action::Finish(Outcome::UpToDate)));
        if next == Phase::Committing || next == Phase::Pushing || next == Phase::Finished {
            lemma_late_phases_not_up_to_date(next, results.drop_first());
        }
        lemma_up_to_date_without_commit(next, results.drop_first());
        assert forall|j: int| 0 <= j < s.len() implies s[j] != Action::Push && s[j] != Action::Commit by {
            if j > 0 {
                assert(s[j] == rest[j - 1]);
            }
        }
        if next == Phase::Checking {
            assert(s[0] == Action::CheckStaged);
        } else {
            let c = choose|c: int| 0 <= c < rest.len() && rest[c] == Action::CheckStaged;
            assert(s[c + 1] == Action::CheckStaged);
        }
    }
}

/// A run that ends up to date found nothing staged, and neither commits nor pushes.
pub proof fn lemma_up_to_date_run_never_pushes(mirror_exists: bool, results: Seq<(bool, Option<i32>)>)
    requires
        run_actions(mirror_exists, results).contains(Action::Finish(Outcome::UpToDate)),
    ensures
        !run_actions(mirror_exists, results).contains(Action::Push),
        !run_actions(mirror_exists, results).contains(Action::Commit),
        run_actions(mirror_exists, results).contains(Action::CheckStaged),
{
    let (phase, first) = start_of(mirror_exists);
    let s = run_actions(mirror_exists, results);
    let rest = actions_from(phase, results);
    let k = choose|k: int| 0 <= k < s.len() && s[k] == Action::Finish(Outcome::UpToDate);
    assert(rest[k - 1] == Action::Finish(Outcome::UpToDate));
    assert(rest.contains(Action::Finish(Outcome::UpToDate)));
    lemma_up_to_date_without_commit(phase, results);
    assert forall|j: int| 0 <= j < s.len() implies s[j] != Action::Push && s[j] != Action::Commit by {
        if j > 0 {
            assert(s[j] == rest[j - 1]);
        }
    }
    let c = choose|c: int| 0 <= c < rest.len() && rest[c] == Action::CheckStaged;
    assert(s[c + 1] == Action::CheckStaged);
}

/// The file of a subtree that the clean step keeps, unless told to remove it.
pub open spec fn redirect_page() -> Seq<char> {
    seq!['i', 'n', 'd', 'e', 'x', '.', 'h', 't', 'm', 'l']
}

/// Whether the clean step removes an entry of the subtree.
pub open spec fn is_removed(name: Seq<char>, clobber_index: bool, keep: Seq<char>) -> bool {
    clobber_index || name != keep
}

/// The entries that the clean step removes, in their order.
pub open spec fn removed_entries(entries: Seq<Seq<char>>, clobber_index: bool, keep: Seq<char>) -> Seq<Seq<char>> {
    entries.filter(|e: Seq<char>| is_removed(e, clobber_index, keep))
}

/// The name of the redirect page of a subtree.
pub fn redirect_page_name() -> (r: &'static str)
    ensures
        r@ == redirect_page(),
{
    let r = "index.html";
    proof {
        reveal_strlit("index.html");
    }
    assert(r@ =~= redirect_page());
    r
}

/// Picks the entries of the subtree that the clean step removes: all of them, but the
/// entry named exactly `keep` when `clobber_index` is false.
pub fn entries_to_remove(entries: &Vec<String>, clobber_index: bool, keep: &str) -> (r: Vec<String>)
    ensures
        crate::publish::views(r@) == removed_entries(crate::publish::views(entries@), clobber_index, keep@),
{
    let ghost pred = |e: Seq<char>| is_removed(e, clobber_index, keep@);
    let mut r: Vec<String> = Vec::new();
    let mut i: usize = 0;
    while i < entries.len()
        invariant
            i <= entries.len(),
            pred == (|e: Seq<char>| is_removed(e, clobber_index, keep@)),
            crate::publish::views(r@) == crate::publish::views(entries@).take(i as int).filter(pred),
        decreases entries.len() - i,
    {
        let ghost all = crate::publish::views(entries@);
        proof {
            assert(all.take(i + 1) =~= all.take(i as int).push(all[i as int]));
            all.take(i as int).lemma_filter_push(all[i as int], pred);
        }
        let ghost before = r@;
        if clobber_index || !same_text(entries[i].as_str(), keep) {
            r.push(entries[i].clone());
            assert(crate::publish::views(r@) =~= crate::publish::views(before).push(all[i as int]));
        }
        i += 1;
    }
    assert(crate::publish::views(entries@).take(entries.len() as int) =~= crate::publish::views(entries@));
    r
}

/// With `clobber_index` false, the clean step keeps an entry named exactly as the redirect
/// page and removes every entry named otherwise.
pub proof fn lemma_clean_keeps_only_redirect_page(entries: Seq<Seq<char>>, other: Seq<char>)
    requires
        other != redirect_page(),
        entries.contains(other),
    ensures
        !removed_entries(entries, false, redirect_page()).contains(redirect_page()),
        removed_entries(entries, false, redirect_page()).contains(other),
{
    let pred = |e: Seq<char>| is_removed(e, false, redirect_page());
    let r = removed_entries(entries, false, redirect_page());
    if r.contains(redirect_page()) {
        let k = choose|k: int| 0 <= k < r.len() && r[k] == redirect_page();
        entries.lemma_filter_pred(pred, k);
    }
    let i = choose|i: int| 0 <= i < entries.len() && entries[i] == other;
    entries.lemma_filter_contains(pred, i);
}

/// Whole mebibytes in a byte count.
pub open spec fn mib(bytes: u64) -> u64 {
    (bytes / 1048576) as u64
}

/// The mebibyte count to report once `copied` bytes are copied and `last` was the last
/// count reported; nothing while no new whole mebibyte is reached.
pub fn progress(copied: u64, last: u64) -> (r: Option<u64>)
    ensures
        r == (if mib(copied) > last { Some(mib(copied)) } else { None::<u64> }),
{
    let now = copied / 1048576;
    if now > last {
        Some(now)
    } else {
        None
    }
}

/// `x` starts `y`.
pub open spec fn is_prefix(x: Seq<char>, y: Seq<char>) -> bool {
    x.len() <= y.len() && y.subrange(0, x.len() as int) == x
}

/// The directory of a ref's subtree inside the mirror.
pub open spec fn subtree_of(mirror: Seq<char>, ref_name: Seq<char>) -> Seq<char> {
    mirror + seq!['/'] + ref_name
}

/// The path of the subtree of `ref_name` inside `mirror`.
pub fn subtree_dir(mirror: &str, ref_name: &str) -> (r: String)
    ensures
        r@ == subtree_of(mirror@, ref_name@),
{
    let sep = "/";
    proof {
        reveal_strlit("/");
    }
    let mut r = String::from_str(mirror);
    r.append(sep);
    r.append(ref_name);
    assert(r@ =~= subtree_of(mirror@, ref_name@));
    r
}

/// A path lies within the subtree of at most one of two refs whose names do not nest as
/// directories: publishing one never touches a file of the other.
pub proof fn lemma_subtrees_disjoint(mirror: Seq<char>, a: Seq<char>, b: Seq<char>, path: Seq<char>)
    requires
        !is_prefix(a + seq!['/'], b + seq!['/']),
        !is_prefix(b + seq!['/'], a + seq!['/']),
    ensures
        !(is_prefix(subtree_of(mirror, a) + seq!['/'], path) && is_prefix(subtree_of(mirror, b) + seq!['/'], path)),
{
    let da = subtree_of(mirror, a) + seq!['/'];
    let db = subtree_of(mirror, b) + seq!['/'];
    let n = mirror.len() + 1;
    if is_prefix(da, path) && is_prefix(db, path) {
        let (x, y, dx, dy) = if a.len() <= b.len() {
            (a, b, da, db)
        } else {
            (b, a, db, da)
        };
        assert(dx.len() == n + x.len() + 1);
        assert(dy.len() == n + y.len() + 1);
        assert forall|j: int| 0 <= j < x.len() + 1 implies (y + seq!['/'])[j] == (x + seq!['/'])[j] by {
            assert(dx[n + j] == path[n + j]);
            assert(dy[n + j] == path[n + j]);
            assert(dx[n + j] == (x + seq!['/'])[j]);
            assert(dy[n + j] == (y + seq!['/'])[j]);
        }
        assert((y + seq!['/']).subrange(0, x.len() + 1 as int) =~= x + seq!['/']);
    }
}

} // verus!
