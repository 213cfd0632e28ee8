use vstd::prelude::*;

use crate::archive::ArchiveType;

verus! {

/// One entry found under an archive's target directory.
#[derive(Clone, Copy, Debug, PartialEq, Eq, Structural)]
pub struct EntryInfo {
    /// Whether the entry is a regular file.
    pub is_file: bool,
    /// Its size in bytes.
    pub len: u64,
}

/// What an earlier extraction left at the target directory.
#[derive(Clone, Copy, Debug, PartialEq, Eq, Structural)]
pub enum TargetState {
    /// There is no target directory.
    Absent,
    /// The directory exists but holds no regular file with any content.
    Incomplete,
    /// The directory holds at least one non-empty regular file.
    Populated,
}

/// A non-empty regular file: what counts as extracted output.
pub open spec fn is_output_file(e: EntryInfo) -> bool {
    e.is_file && e.len > 0
}

/// The state of a target directory, from whether it is present and what is in it.
pub open spec fn target_state_of(present: bool, entries: Seq<EntryInfo>) -> TargetState {
    if !present {
        TargetState::Absent
    } else if exists|i: int| 0 <= i < entries.len() && is_output_file(#[trigger] entries[i]) {
        TargetState::Populated
    } else {
        TargetState::Incomplete
    }
}

/// Judges a target directory: absent, incomplete (no non-empty regular file
/// anywhere in it), or populated.
pub fn judge_target(present: bool, entries: &Vec<EntryInfo>) -> (r: TargetState)
    ensures
        r == target_state_of(present, entries@),
{
    if !present {
        return TargetState::Absent;
    }
    let mut i: usize = 0;
    while i < entries.len()
        invariant
            present,
            i <= entries.len(),
            forall|k: int| 0 <= k < i ==> !is_output_file(#[trigger] entries@[k]),
        decreases entries.len() - i,
    {
        if entries[i].is_file && entries[i].len > 0 {
            assert(is_output_file(entries@[i as int]));
            return TargetState::Populated;
        }
        i = i + 1;
    }
    TargetState::Incomplete
}

/// How the extraction of one archive ended.
#[derive(Clone, Copy, Debug, PartialEq, Eq, Structural)]
pub enum Outcome {
    Succeeded,
    /// The archive had already been extracted.
    Skipped,
    Failed,
}

/// Where the extraction of one archive stands.
#[derive(Clone, Copy, Debug, PartialEq, Eq, Structural)]
pub enum Phase {
    /// The target directory has not been looked at yet.
    Unchecked,
    /// A stale, incomplete target directory is being removed.
    Repairing,
    /// The archive tool is running.
    Running,
    /// The tool failed and its partial output is being removed.
    Cleaning,
    Skipped,
    Succeeded,
    Failed,
}

/// What the caller is asked to do next.
#[derive(Clone, Copy, Debug, PartialEq, Eq, Structural)]
pub enum Action {
    /// Look at the target directory and report `Event::Inspected`.
    InspectTarget,
    /// Remove the target directory recursively and report `Event::Removed`.
    RemoveTarget,
    /// Create the target directory first when `create_target` holds, then
    /// run the archive tool and report `Event::ToolExited`.
    Run { create_target: bool },
    /// Nothing is left to do: the phase holds the outcome.
    Finish,
    /// The event did not fit the phase; nothing changed.
    Ignore,
}

/// What the caller reports back.
#[derive(Clone, Copy, Debug, PartialEq, Eq, Structural)]
pub enum Event {
    /// The state of the target directory.
    Inspected(TargetState),
    /// The target directory was removed.
    Removed,
    /// The archive tool ended, successfully or not, and whether the target
    /// directory exists afterwards.
    ToolExited { ok: bool, target_exists: bool },
}

/// Whether the target directory must exist before the tool runs: tar does
/// not create its destination.
pub open spec fn needs_target_dir(kind: ArchiveType, test: bool) -> bool {
    kind == ArchiveType::TarGz && !test
}

/// The phase and first action of an extraction. With `force` the check of
/// earlier output is left out.
pub open spec fn start_of(force: bool, create_target: bool) -> (Phase, Action) {
    if force {
        (Phase::Running, Action::Run { create_target })
    } else {
        (Phase::Unchecked, Action::InspectTarget)
    }
}

/// The next phase and action after an event.
pub open spec fn transition(phase: Phase, create_target: bool, ev: Event) -> (Phase, Action) {
    match (phase, ev) {
        (Phase::Unchecked, Event::Inspected(TargetState::Absent)) => (
            Phase::Running,
            Action::Run { create_target },
        ),
        (Phase::Unchecked, Event::Inspected(TargetState::Populated)) => (
            Phase::Skipped,
            Action::Finish,
        ),
        (Phase::Unchecked, Event::Inspected(TargetState::Incomplete)) => (
            Phase::Repairing,
            Action::RemoveTarget,
        ),
        (Phase::Repairing, Event::Removed) => (Phase::Running, Action::Run { create_target }),
        (Phase::Running, Event::ToolExited { ok, target_exists }) => if ok {
            (Phase::Succeeded, Action::Finish)
        } else if target_exists {
            (Phase::Cleaning, Action::RemoveTarget)
        } else {
            (Phase::Failed, Action::Finish)
        },
        (Phase::Cleaning, Event::Removed) => (Phase::Failed, Action::Finish),
        _ => (phase, Action::Ignore),
    }
}

/// The outcome that a phase stands for, once it is final.
pub open spec fn outcome_of(phase: Phase) -> Option<Outcome> {
    match phase {
        Phase::Skipped => Some(Outcome::Skipped),
        Phase::Succeeded => Some(Outcome::Succeeded),
        Phase::Failed => Some(Outcome::Failed),
        _ => None,
    }
}

/// Whether an action changes the file system: removing or creating the
/// target directory, or running the tool that writes into it.
pub open spec fn writes_files(a: Action) -> bool {
    a is RemoveTarget || a is Run
}

/// An archive whose earlier extraction left a non-empty regular file in its
/// target directory is skipped when extracted again: the run only looks at
/// the directory, ends as `Skipped`, and asks for no change to the file
/// system, whatever is reported afterwards.
pub proof fn lemma_rerun_is_skipped(
    kind: ArchiveType,
    test: bool,
    entries: Seq<EntryInfo>,
    later: Event,
)
    requires
        exists|i: int| 0 <= i < entries.len() && is_output_file(#[trigger] entries[i]),
    ensures
        ({
            let c = needs_target_dir(kind, test);
            let (ph0, a0) = start_of(false, c);
            let (ph1, a1) = transition(ph0, c, Event::Inspected(target_state_of(true, entries)));
            &&& a0 == Action::InspectTarget && !writes_files(a0)
            &&& ph1 == Phase::Skipped && a1 == Action::Finish && !writes_files(a1)
            &&& outcome_of(ph1) == Some(Outcome::Skipped)
            &&& transition(ph1, c, later) == (Phase::Skipped, Action::Ignore)
        }),
{
}

/// A target directory that exists but holds no non-empty regular file is
/// removed, and the archive is then extracted again rather than skipped.
pub proof fn lemma_incomplete_target_is_repaired(
    kind: ArchiveType,
    test: bool,
    entries: Seq<EntryInfo>,
)
    requires
        forall|i: int| 0 <= i < entries.len() ==> !is_output_file(#[trigger] entries[i]),
    ensures
        ({
            let c = needs_target_dir(kind, test);
            let (ph1, a1) = transition(
                Phase::Unchecked,
                c,
                Event::Inspected(target_state_of(true, entries)),
            );
            let (ph2, a2) = transition(ph1, c, Event::Removed);
            &&& ph1 == Phase::Repairing && a1 == Action::RemoveTarget
            &&& ph2 == Phase::Running && a2 == Action::Run { create_target: c }
        }),
{
}

/// When the tool fails, a target directory that exists afterwards is removed
/// before the failure is reported; the next extraction of the same archive
/// then finds no target and runs the tool again instead of skipping.
pub proof fn lemma_failure_is_cleaned(
    kind: ArchiveType,
    test: bool,
    target_exists: bool,
    entries: Seq<EntryInfo>,
)
    ensures
        ({
            let c = needs_target_dir(kind, test);
            let (ph1, a1) = transition(
                Phase::Running,
                c,
                Event::ToolExited { ok: false, target_exists },
            );
            &&& target_exists ==> {
                &&& ph1 == Phase::Cleaning && a1 == Action::RemoveTarget
                &&& outcome_of(ph1) is None
                &&& transition(ph1, c, Event::Removed) == (Phase::Failed, Action::Finish)
            }
            &&& !target_exists ==> ph1 == Phase::Failed && a1 == Action::Finish
            &&& transition(
                Phase::Unchecked,
                c,
                Event::Inspected(target_state_of(false, entries)),
            ) == (Phase::Running, Action::Run { create_target: c })
        }),
{
}

/// The decisions of one archive's extraction, driven by the caller through
/// actions and events.
pub struct Extraction {
    pub phase: Phase,
    /// Whether the target directory is created before the tool runs.
    pub create_target: bool,
}

impl Extraction {
    /// Begins the extraction of an archive of `kind`, in test mode when
    /// `test` holds.
    pub fn start(kind: ArchiveType, test: bool, force: bool) -> (r: (Extraction, Action))
        ensures
            r.0.create_target == needs_target_dir(kind, test),
            (r.0.phase, r.1) == start_of(force, needs_target_dir(kind, test)),
    {
        let create_target = kind == ArchiveType::TarGz && !test;
        if force {
            (Extraction { phase: Phase::Running, create_target }, Action::Run { create_target })
        } else {
            (Extraction { phase: Phase::Unchecked, create_target }, Action::InspectTarget)
        }
    }

    /// Takes in what the caller observed and says what to do next.
    pub fn step(&mut self, ev: Event) -> (r: Action)
        ensures
            final(self).create_target == old(self).create_target,
            (final(self).phase, r) == transition(old(self).phase, old(self).create_target, ev),
    {
        let create_target = self.create_target;
        let (phase, action) = match (self.phase, ev) {
            (Phase::Unchecked, Event::Inspected(TargetState::Absent)) => (
                Phase::Running,
                Action::Run { create_target },
            ),
            (Phase::Unchecked, Event::Inspected(TargetState::Populated)) => (
                Phase::Skipped,
                Action::Finish,
            ),
            (Phase::Unchecked, Event::Inspected(TargetState::Incomplete)) => (
                Phase::Repairing,
                Action::RemoveTarget,
            ),
            (Phase::Repairing, Event::Removed) => (Phase::Running, Action::Run { create_target }),
            (Phase::Running, Event::ToolExited { ok, target_exists }) => if ok {
                (Phase::Succeeded, Action::Finish)
            } else if target_exists {
                (Phase::Cleaning, Action::RemoveTarget)
            } else {
                (Phase::Failed, Action::Finish)
            },
            (Phase::Cleaning, Event::Removed) => (Phase::Failed, Action::Finish),
            (p, _) => (p, Action::Ignore),
        };
        self.phase = phase;
        action
    }

    /// The outcome, once the extraction has ended.
    pub fn outcome(&self) -> (r: Option<Outcome>)
        ensures
            r == outcome_of(self.phase),
    {
        match self.phase {
            Phase::Skipped => Some(Outcome::Skipped),
            Phase::Succeeded => Some(Outcome::Succeeded),
            Phase::Failed => Some(Outcome::Failed),
            _ => None,
        }
    }
}

/// The counts of a batch of extractions.
pub struct BatchTally {
    pub selected: usize,
    pub succeeded: usize,
    pub failed: usize,
    pub skipped: usize,
}

impl BatchTally {
    /// How many outcomes have been recorded.
    pub open spec fn recorded(&self) -> int {
        self.succeeded + self.failed + self.skipped
    }

    /// An empty tally for a batch of `selected` archives.
    pub fn new(selected: usize) -> (r: BatchTally)
        ensures
            r.selected == selected,
            r.succeeded == 0,
            r.failed == 0,
            r.skipped == 0,
    {
        BatchTally { selected, succeeded: 0, failed: 0, skipped: 0 }
    }

    /// Counts one more outcome.
    pub fn record(&mut self, o: Outcome)
        requires
            old(self).recorded() < usize::MAX,
        ensures
            final(self).selected == old(self).selected,
            final(self).succeeded == old(self).succeeded + if o == Outcome::Succeeded {
                1int
            } else {
                0int
            },
            final(self).failed == old(self).failed + if o == Outcome::Failed {
                1int
            } else {
                0int
            },
            final(self).skipped == old(self).skipped + if o == Outcome::Skipped {
                1int
            } else {
                0int
            },
            final(self).recorded() == old(self).recorded() + 1,
    {
        match o {
            Outcome::Succeeded => self.succeeded = self.succeeded + 1,
            Outcome::Failed => self.failed = self.failed + 1,
            Outcome::Skipped => self.skipped = self.skipped + 1,
        }
    }
}

} // verus!
