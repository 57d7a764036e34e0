//! Taking the lock on a site's data directory.

use vstd::prelude::*;

verus! {

/// The step that comes next on the way to the lock.
#[derive(Clone, Copy, Debug, PartialEq, Eq, Structural)]
pub enum LockStep {
    /// Create the directory that holds the data directories of all sites.
    CreateBase,
    /// Create the data directory of the site.
    CreateSite,
    /// Open the lock file, creating it if it is missing.
    OpenLock,
    /// Try to lock the lock file.
    TryLock,
    /// The lock is held.
    Held,
    /// A step failed: there is no lock.
    GivenUp,
}

/// How a step ended.
#[derive(Clone, Copy, Debug, PartialEq, Eq, Structural)]
pub enum StepOutcome {
    Done,
    /// It failed because what was to be created exists already.
    AlreadyExists,
    /// It failed for another reason.
    Failed,
}

/// The step that follows a step that ended in a certain way. A directory that exists already is as
/// good as one that was created.
pub open spec fn step_after(step: LockStep, outcome: StepOutcome) -> LockStep {
    match step {
        LockStep::CreateBase => if outcome is Failed {
            LockStep::GivenUp
        } else {
            LockStep::CreateSite
        },
        LockStep::CreateSite => if outcome is Failed {
            LockStep::GivenUp
        } else {
            LockStep::OpenLock
        },
        LockStep::OpenLock => if outcome is Done {
            LockStep::TryLock
        } else {
            LockStep::GivenUp
        },
        LockStep::TryLock => if outcome is Done {
            LockStep::Held
        } else {
            LockStep::GivenUp
        },
        LockStep::Held => LockStep::Held,
        LockStep::GivenUp => LockStep::GivenUp,
    }
}

/// The first step. A data directory without a parent needs no base directory.
pub open spec fn step_at_start(has_parent: bool) -> LockStep {
    if has_parent {
        LockStep::CreateBase
    } else {
        LockStep::CreateSite
    }
}

/// The step that is reached from a step by outcomes, one after the other.
pub open spec fn steps_through(step: LockStep, outcomes: Seq<StepOutcome>) -> LockStep
    decreases outcomes.len(),
{
    if outcomes.len() == 0 {
        step
    } else {
        step_after(steps_through(step, outcomes.drop_last()), outcomes.last())
    }
}

/// The first step on the way to the lock.
pub fn first_step(has_parent: bool) -> (r: LockStep)
    ensures
        r == step_at_start(has_parent),
{
    if has_parent {
        LockStep::CreateBase
    } else {
        LockStep::CreateSite
    }
}

/// The step that follows.
pub fn next_step(step: LockStep, outcome: StepOutcome) -> (r: LockStep)
    ensures
        r == step_after(step, outcome),
{
    let failed = matches!(outcome, StepOutcome::Failed);
    let done = matches!(outcome, StepOutcome::Done);
    match step {
        LockStep::CreateBase => if failed {
            LockStep::GivenUp
        } else {
            LockStep::CreateSite
        },
        LockStep::CreateSite => if failed {
            LockStep::GivenUp
        } else {
            LockStep::OpenLock
        },
        LockStep::OpenLock => if done {
            LockStep::TryLock
        } else {
            LockStep::GivenUp
        },
        LockStep::TryLock => if done {
            LockStep::Held
        } else {
            LockStep::GivenUp
        },
        LockStep::Held => LockStep::Held,
        LockStep::GivenUp => LockStep::GivenUp,
    }
}

/// With the lock settled, no further step is taken; and that point is reached after at most four
/// outcomes, whatever they are.
pub proof fn law_locking_ends(has_parent: bool, outcomes: Seq<StepOutcome>)
    requires
        outcomes.len() >= 4,
    ensures
        ({
            let step = steps_through(step_at_start(has_parent), outcomes);
            step is Held || step is GivenUp
        }),
    decreases outcomes.len(),
{
    let start = step_at_start(has_parent);
    if outcomes.len() > 4 {
        law_locking_ends(has_parent, outcomes.drop_last());
    } else {
        reveal_with_fuel(steps_through, 5);
    }
}

/// The lock is held only where each step succeeded, one after the other, with or without a base
/// directory: no lock is reported that was not taken, and the lock file is not touched before the
/// data directory is there.
pub proof fn law_lock_is_held_only_when_taken(has_parent: bool, outcomes: Seq<StepOutcome>)
    requires
        outcomes.len() == if has_parent {
            4int
        } else {
            3
        },
    ensures
        ({
            let start = step_at_start(has_parent);
            let dirs: int = if has_parent {
                2
            } else {
                1
            };
            let made = forall|i: int| 0 <= i < dirs ==> (#[trigger] outcomes[i]) !is Failed;
            &&& steps_through(start, outcomes.take(dirs)) is OpenLock <==> made
            &&& steps_through(start, outcomes) is Held <==> made && outcomes[dirs] is Done
                && outcomes[dirs + 1] is Done
        }),
{
    reveal_with_fuel(steps_through, 5);
    let dirs: int = if has_parent {
        2
    } else {
        1
    };
    let taken = outcomes.take(dirs);
    assert(outcomes.drop_last().drop_last() =~= taken);
    assert(taken.drop_last() =~= outcomes.take(dirs - 1));
    assert(outcomes[0] == outcomes.take(1)[0]);
    assert(taken.last() == outcomes[dirs - 1]);
    if has_parent {
        assert(taken.drop_last().last() == outcomes[0]);
    }
}

/// How far a step is on the way.
spec fn progress(step: LockStep) -> int {
    match step {
        LockStep::CreateBase => 0,
        LockStep::CreateSite => 1,
        LockStep::OpenLock => 2,
        LockStep::TryLock => 3,
        LockStep::Held => 4,
        LockStep::GivenUp => 4,
    }
}

proof fn lemma_progress(start: LockStep, outcomes: Seq<StepOutcome>, i: int, j: int)
    requires
        0 <= i < j <= outcomes.len(),
    ensures
        ({
            let earlier = steps_through(start, outcomes.take(i));
            let later = steps_through(start, outcomes.take(j));
            progress(earlier) < progress(later) || earlier is Held || earlier is GivenUp
        }),
    decreases j,
{
    let taken = outcomes.take(j);
    assert(taken.drop_last() =~= outcomes.take(j - 1));
    if i < j - 1 {
        lemma_progress(start, outcomes, i, j - 1);
    }
}

/// No step is taken twice: each directory is created at most once, and the lock file is opened and
/// locked at most once.
pub proof fn law_no_step_is_repeated(
    has_parent: bool,
    outcomes: Seq<StepOutcome>,
    i: int,
    j: int,
)
    requires
        0 <= i < j <= outcomes.len(),
    ensures
        ({
            let start = step_at_start(has_parent);
            let earlier = steps_through(start, outcomes.take(i));
            let later = steps_through(start, outcomes.take(j));
            earlier == later ==> earlier is Held || earlier is GivenUp
        }),
{
    lemma_progress(step_at_start(has_parent), outcomes, i, j);
}

// ------------------------------------------------------------------------------------------
// On disk
// ------------------------------------------------------------------------------------------

/// What there is on disk.
#[derive(Clone, Copy, Debug, PartialEq, Eq, Structural)]
pub struct Disk {
    /// The directory that is to hold the base directory.
    pub above: bool,
    /// The base directory. Where the data directory has no parent, it counts as there.
    pub base: bool,
    /// The data directory of the site.
    pub site: bool,
    /// The lock file in it.
    pub lock_file: bool,
    /// Whether the lock on that file is held.
    pub locked: bool,
}

impl Disk {
    /// Whether nothing is there without the directory that holds it.
    pub open spec fn wf(self) -> bool {
        &&& self.base ==> self.above
        &&& self.site ==> self.base
        &&& self.lock_file ==> self.site
        &&& self.locked ==> self.lock_file
    }
}

/// Whether a step can end in a certain way on a disk: a directory is created only where it is
/// missing and the one above it is there, it exists already only where it does, a file is opened
/// only in a directory that is there, and a lock is taken only where nobody holds it. Anything may
/// fail.
pub open spec fn can_end(disk: Disk, step: LockStep, outcome: StepOutcome) -> bool {
    match step {
        LockStep::CreateBase => match outcome {
            StepOutcome::Done => disk.above && !disk.base,
            StepOutcome::AlreadyExists => disk.base,
            StepOutcome::Failed => true,
        },
        LockStep::CreateSite => match outcome {
            StepOutcome::Done => disk.base && !disk.site,
            StepOutcome::AlreadyExists => disk.site,
            StepOutcome::Failed => true,
        },
        LockStep::OpenLock => outcome is Done ==> disk.site,
        LockStep::TryLock => outcome is Done ==> disk.lock_file && !disk.locked,
        _ => true,
    }
}

/// What there is on disk once a step has ended.
pub open spec fn disk_after(disk: Disk, step: LockStep, outcome: StepOutcome) -> Disk {
    match (step, outcome) {
        (LockStep::CreateBase, StepOutcome::Done) => Disk { base: true, ..disk },
        (LockStep::CreateSite, StepOutcome::Done) => Disk { site: true, ..disk },
        (LockStep::OpenLock, StepOutcome::Done) => Disk { lock_file: true, ..disk },
        (LockStep::TryLock, StepOutcome::Done) => Disk { locked: true, ..disk },
        _ => disk,
    }
}

/// What there is on disk once steps have ended in certain ways, one after the other.
pub open spec fn disk_through(disk: Disk, start: LockStep, outcomes: Seq<StepOutcome>) -> Disk
    decreases outcomes.len(),
{
    if outcomes.len() == 0 {
        disk
    } else {
        let rest = outcomes.drop_last();
        disk_after(
            disk_through(disk, start, rest),
            steps_through(start, rest),
            outcomes.last(),
        )
    }
}

/// Whether steps can end in certain ways on a disk, one after the other.
pub open spec fn can_happen(disk: Disk, start: LockStep, outcomes: Seq<StepOutcome>) -> bool
    decreases outcomes.len(),
{
    outcomes.len() > 0 ==> {
        let rest = outcomes.drop_last();
        &&& can_happen(disk, start, rest)
        &&& can_end(
            disk_through(disk, start, rest),
            steps_through(start, rest),
            outcomes.last(),
        )
    }
}

/// With the lock taken, the data directory is there, and in it the lock file, locked. What was
/// there stays, and beyond that nothing is created but the base directory, the data directory and
/// the lock file: the directory above them is never created.
pub proof fn law_held_lock_is_in_the_data_dir(
    disk: Disk,
    has_parent: bool,
    outcomes: Seq<StepOutcome>,
)
    requires
        disk.wf(),
        can_happen(disk, step_at_start(has_parent), outcomes),
    ensures
        ({
            let start = step_at_start(has_parent);
            let after = disk_through(disk, start, outcomes);
            &&& steps_through(start, outcomes) is Held ==> after.site && after.lock_file
                && after.locked
            &&& after.wf()
            &&& after.above == disk.above
            &&& disk.base ==> after.base
            &&& disk.site ==> after.site
            &&& disk.lock_file ==> after.lock_file
            &&& !has_parent ==> after.base == disk.base
        }),
{
    lemma_disk(disk, has_parent, outcomes);
}

proof fn lemma_disk(disk: Disk, has_parent: bool, outcomes: Seq<StepOutcome>)
    requires
        disk.wf(),
        can_happen(disk, step_at_start(has_parent), outcomes),
    ensures
        ({
            let start = step_at_start(has_parent);
            let after = disk_through(disk, start, outcomes);
            let step = steps_through(start, outcomes);
            &&& after.wf()
            &&& after.above == disk.above
            &&& disk.base ==> after.base
            &&& disk.site ==> after.site
            &&& disk.lock_file ==> after.lock_file
            &&& !has_parent ==> after.base == disk.base && step !is CreateBase
            &&& step is CreateBase ==> after == disk
            &&& step is CreateSite && has_parent ==> after.base
            &&& step is OpenLock ==> after.site
            &&& step is TryLock || step is Held ==> after.site && after.lock_file
            &&& disk.locked ==> after.locked && step !is Held
            &&& step is Held ==> after.locked
        }),
    decreases outcomes.len(),
{
    if outcomes.len() > 0 {
        lemma_disk(disk, has_parent, outcomes.drop_last());
    }
}

/// Where even the directory above the base directory is missing, the lock is not taken and nothing
/// is created: a misconfigured path leaves no trail of directories.
pub proof fn law_no_trail_of_directories(disk: Disk, outcomes: Seq<StepOutcome>)
    requires
        disk.wf(),
        !disk.above,
        can_happen(disk, step_at_start(true), outcomes),
    ensures
        disk_through(disk, step_at_start(true), outcomes) == disk,
        steps_through(step_at_start(true), outcomes) is CreateBase || steps_through(
            step_at_start(true),
            outcomes,
        ) is GivenUp,
    decreases outcomes.len(),
{
    if outcomes.len() > 0 {
        law_no_trail_of_directories(disk, outcomes.drop_last());
    }
}

/// The lock is exclusive: as long as it is held, no other run takes it.
pub proof fn law_lock_is_exclusive(disk: Disk, has_parent: bool, outcomes: Seq<StepOutcome>)
    requires
        disk.wf(),
        disk.locked,
        can_happen(disk, step_at_start(has_parent), outcomes),
    ensures
        steps_through(step_at_start(has_parent), outcomes) !is Held,
        disk_through(disk, step_at_start(has_parent), outcomes).locked,
{
    lemma_disk(disk, has_parent, outcomes);
}

/// Directories that exist already are no error: the next step follows as if they had been created.
/// Where the data directory is there, no directory is created at all.
pub proof fn law_existing_directories_are_no_error(
    disk: Disk,
    has_parent: bool,
    outcomes: Seq<StepOutcome>,
)
    requires
        disk.wf(),
        disk.site,
        can_happen(disk, step_at_start(has_parent), outcomes),
    ensures
        ({
            let after = disk_through(disk, step_at_start(has_parent), outcomes);
            after == (Disk { lock_file: after.lock_file, locked: after.locked, ..disk })
        }),
        step_after(LockStep::CreateBase, StepOutcome::AlreadyExists) == step_after(
            LockStep::CreateBase,
            StepOutcome::Done,
        ),
        step_after(LockStep::CreateSite, StepOutcome::AlreadyExists) == step_after(
            LockStep::CreateSite,
            StepOutcome::Done,
        ),
{
    lemma_disk(disk, has_parent, outcomes);
}

/// The steps as they are taken: each follows from the outcome of the one before, and a failure at
/// any of them gives the lock up.
pub proof fn law_steps_follow_outcomes(
    has_parent: bool,
    first: LockStep,
    step: LockStep,
    outcome: StepOutcome,
    next: LockStep,
)
    requires
        call_ensures(first_step, (has_parent,), first),
        call_ensures(next_step, (step, outcome), next),
    ensures
        has_parent ==> first is CreateBase,
        !has_parent ==> first is CreateSite,
        step is CreateBase ==> (if outcome is Failed {
            next is GivenUp
        } else {
            next is CreateSite
        }),
        step is CreateSite ==> (if outcome is Failed {
            next is GivenUp
        } else {
            next is OpenLock
        }),
        step is OpenLock ==> (if outcome is Done {
            next is TryLock
        } else {
            next is GivenUp
        }),
        step is TryLock ==> (if outcome is Done {
            next is Held
        } else {
            next is GivenUp
        }),
        step is Held || step is GivenUp ==> next == step,
{
}

} // verus!
