//! Whether the host has a file system of the kind that the pool needs.

use vstd::prelude::*;

verus! {

/// What the host is asked for.
#[derive(Debug, Clone, Copy, PartialEq, Eq, Structural)]
pub enum Probe {
    /// Whether this is a worker at all.
    WorkerScope,
    /// `FileSystemFileHandle` in the global scope.
    FileHandle,
    /// `prototype` of that.
    Prototype,
    /// `createSyncAccessHandle` of that.
    SyncAccessHandle,
    /// `navigator` in the global scope.
    Navigator,
    /// `storage` of that.
    Storage,
    /// `getDirectory` of that.
    GetDirectory,
}

/// What came of asking.
#[derive(Debug, Clone, Copy, PartialEq, Eq, Structural)]
pub enum Finding {
    /// The host could not be asked.
    Failed,
    /// There is no such thing.
    Undefined,
    /// There is one.
    Defined,
}

/// What to do next.
#[derive(Debug, Clone, Copy, PartialEq, Eq, Structural)]
pub enum ProbeStep {
    /// Ask for that.
    Ask(Probe),
    /// The question is answered.
    Answer(bool),
}

/// What came of asking for each thing.
#[derive(Debug, Clone, Copy)]
pub struct Findings {
    pub worker_scope: Finding,
    pub file_handle: Finding,
    pub prototype: Finding,
    pub sync_access_handle: Finding,
    pub navigator: Finding,
    pub storage: Finding,
    pub get_directory: Finding,
}

impl Findings {
    /// What came of asking for one thing.
    pub open spec fn of(self, probe: Probe) -> Finding {
        match probe {
            Probe::WorkerScope => self.worker_scope,
            Probe::FileHandle => self.file_handle,
            Probe::Prototype => self.prototype,
            Probe::SyncAccessHandle => self.sync_access_handle,
            Probe::Navigator => self.navigator,
            Probe::Storage => self.storage,
            Probe::GetDirectory => self.get_directory,
        }
    }

    /// What came of asking for one thing.
    fn finding(&self, probe: Probe) -> (finding: Finding)
        ensures
            finding == self.of(probe),
    {
        match probe {
            Probe::WorkerScope => self.worker_scope,
            Probe::FileHandle => self.file_handle,
            Probe::Prototype => self.prototype,
            Probe::SyncAccessHandle => self.sync_access_handle,
            Probe::Navigator => self.navigator,
            Probe::Storage => self.storage,
            Probe::GetDirectory => self.get_directory,
        }
    }

    /// Whether the host has what is needed: it is a worker, and nothing that
    /// could be asked for was missing. A thing is asked for only where that
    /// which it belongs to was found, but for `storage` and `getDirectory`,
    /// which are asked for in any case.
    pub open spec fn supported(self) -> bool {
        &&& self.worker_scope is Defined
        &&& !(self.file_handle is Undefined)
        &&& self.file_handle is Defined ==> !(self.prototype is Undefined)
        &&& self.file_handle is Defined && self.prototype is Defined ==> !(
        self.sync_access_handle is Undefined)
        &&& !(self.navigator is Undefined)
        &&& !(self.storage is Undefined)
        &&& !(self.get_directory is Undefined)
    }
}

/// What follows from what came of asking for one thing.
pub open spec fn next_step(probe: Probe, finding: Finding) -> ProbeStep {
    match (probe, finding) {
        (Probe::WorkerScope, Finding::Defined) => ProbeStep::Ask(Probe::FileHandle),
        (Probe::WorkerScope, _) => ProbeStep::Answer(false),
        (_, Finding::Undefined) => ProbeStep::Answer(false),
        (Probe::FileHandle, Finding::Defined) => ProbeStep::Ask(Probe::Prototype),
        (Probe::Prototype, Finding::Defined) => ProbeStep::Ask(Probe::SyncAccessHandle),
        (Probe::FileHandle, _) => ProbeStep::Ask(Probe::Navigator),
        (Probe::Prototype, _) => ProbeStep::Ask(Probe::Navigator),
        (Probe::SyncAccessHandle, _) => ProbeStep::Ask(Probe::Navigator),
        (Probe::Navigator, _) => ProbeStep::Ask(Probe::Storage),
        (Probe::Storage, _) => ProbeStep::Ask(Probe::GetDirectory),
        (Probe::GetDirectory, _) => ProbeStep::Answer(true),
    }
}

/// How many things can still be asked for, that one included.
pub open spec fn probes_left(probe: Probe) -> nat {
    match probe {
        Probe::WorkerScope => 7,
        Probe::FileHandle => 6,
        Probe::Prototype => 5,
        Probe::SyncAccessHandle => 4,
        Probe::Navigator => 3,
        Probe::Storage => 2,
        Probe::GetDirectory => 1,
    }
}

/// The answer that asking from `probe` on comes to.
pub open spec fn answer_from(findings: Findings, probe: Probe) -> bool
    decreases probes_left(probe),
{
    match next_step(probe, findings.of(probe)) {
        ProbeStep::Ask(next) => if probes_left(next) < probes_left(probe) {
            answer_from(findings, next)
        } else {
            false
        },
        ProbeStep::Answer(answer) => answer,
    }
}

/// What to do after one thing has been asked for. The first is
/// `Probe::WorkerScope`.
pub fn probe_step(probe: Probe, finding: Finding) -> (step: ProbeStep)
    ensures
        step == next_step(probe, finding),
{
    match (probe, finding) {
        (Probe::WorkerScope, Finding::Defined) => ProbeStep::Ask(Probe::FileHandle),
        (Probe::WorkerScope, _) => ProbeStep::Answer(false),
        (_, Finding::Undefined) => ProbeStep::Answer(false),
        (Probe::FileHandle, Finding::Defined) => ProbeStep::Ask(Probe::Prototype),
        (Probe::Prototype, Finding::Defined) => ProbeStep::Ask(Probe::SyncAccessHandle),
        (Probe::FileHandle, _) => ProbeStep::Ask(Probe::Navigator),
        (Probe::Prototype, _) => ProbeStep::Ask(Probe::Navigator),
        (Probe::SyncAccessHandle, _) => ProbeStep::Ask(Probe::Navigator),
        (Probe::Navigator, _) => ProbeStep::Ask(Probe::Storage),
        (Probe::Storage, _) => ProbeStep::Ask(Probe::GetDirectory),
        (Probe::GetDirectory, _) => ProbeStep::Answer(true),
    }
}

/// Asking one thing after the other comes to the right answer.
pub proof fn law_probing_answers(findings: Findings)
    ensures
        answer_from(findings, Probe::WorkerScope) == findings.supported(),
{
    reveal_with_fuel(answer_from, 8);
}

/// Whether the host has what is needed, asking one thing after the other.
pub fn has_opfs_support(findings: &Findings) -> (answer: bool)
    ensures
        answer == findings.supported(),
{
    proof {
        law_probing_answers(*findings);
    }
    let mut probe = Probe::WorkerScope;
    loop
        invariant
            answer_from(*findings, probe) == findings.supported(),
        decreases probes_left(probe),
    {
        match probe_step(probe, findings.finding(probe)) {
            ProbeStep::Ask(next) => {
                probe = next;
            },
            ProbeStep::Answer(answer) => {
                return answer;
            },
        }
    }
}

/// The host has what is needed exactly where it is a worker and nothing that is
/// asked for is missing; what could not be asked for counts as there. So a
/// single missing thing turns the answer to no, and no other finding turns it.
pub proof fn law_support_is_refused_for_what_is_missing(findings: Findings)
    ensures
        findings.supported() <==> findings.worker_scope is Defined && forall|probe: Probe|
            (probe is Prototype ==> findings.file_handle is Defined) && (probe is SyncAccessHandle
                ==> findings.file_handle is Defined && findings.prototype is Defined) ==> !(
            #[trigger] findings.of(probe) is Undefined),
        (Findings { storage: Finding::Undefined, ..findings }).supported() == false,
        (Findings { get_directory: Finding::Undefined, ..findings }).supported() == false,
        (Findings { navigator: Finding::Undefined, ..findings }).supported() == false,
        (Findings { file_handle: Finding::Undefined, ..findings }).supported() == false,
        findings.supported() ==> (Findings {
            storage: Finding::Failed,
            navigator: Finding::Failed,
            get_directory: Finding::Failed,
            file_handle: Finding::Failed,
            ..findings
        }).supported(),
{
    if findings.worker_scope is Defined && forall|probe: Probe|
        (probe is Prototype ==> findings.file_handle is Defined) && (probe is SyncAccessHandle
            ==> findings.file_handle is Defined && findings.prototype is Defined) ==> !(
        #[trigger] findings.of(probe) is Undefined) {
        assert(!(findings.of(Probe::FileHandle) is Undefined));
        assert(!(findings.of(Probe::Navigator) is Undefined));
        assert(!(findings.of(Probe::Storage) is Undefined));
        assert(!(findings.of(Probe::GetDirectory) is Undefined));
        assert(findings.file_handle is Defined ==> !(findings.of(Probe::Prototype) is Undefined));
        assert(findings.file_handle is Defined && findings.prototype is Defined ==> !(findings.of(
            Probe::SyncAccessHandle,
        ) is Undefined));
    }
}

/// What came of asking is kept under the thing that was asked for.
pub proof fn law_findings_are_by_probe(findings: Findings)
    ensures
        findings.of(Probe::WorkerScope) == findings.worker_scope,
        findings.of(Probe::FileHandle) == findings.file_handle,
        findings.of(Probe::Prototype) == findings.prototype,
        findings.of(Probe::SyncAccessHandle) == findings.sync_access_handle,
        findings.of(Probe::Navigator) == findings.navigator,
        findings.of(Probe::Storage) == findings.storage,
        findings.of(Probe::GetDirectory) == findings.get_directory,
{
}

/// Things are asked for in one order: the file handle, its prototype and what
/// that creates, each as long as the one before was found, then the navigator,
/// its storage and the directory of that. Whatever is missing ends it.
pub proof fn law_things_are_asked_for_in_order(probe: Probe, finding: Finding)
    ensures
        finding is Undefined ==> next_step(probe, finding) == ProbeStep::Answer(false),
        probe is WorkerScope && !(finding is Defined) ==> next_step(probe, finding)
            == ProbeStep::Answer(false),
        next_step(Probe::WorkerScope, Finding::Defined) == ProbeStep::Ask(Probe::FileHandle),
        next_step(Probe::FileHandle, Finding::Defined) == ProbeStep::Ask(Probe::Prototype),
        next_step(Probe::Prototype, Finding::Defined) == ProbeStep::Ask(Probe::SyncAccessHandle),
        (probe is FileHandle || probe is Prototype) && finding is Failed ==> next_step(
            probe,
            finding,
        ) == ProbeStep::Ask(Probe::Navigator),
        probe is SyncAccessHandle && !(finding is Undefined) ==> next_step(probe, finding)
            == ProbeStep::Ask(Probe::Navigator),
        probe is Navigator && !(finding is Undefined) ==> next_step(probe, finding)
            == ProbeStep::Ask(Probe::Storage),
        probe is Storage && !(finding is Undefined) ==> next_step(probe, finding)
            == ProbeStep::Ask(Probe::GetDirectory),
        probe is GetDirectory && !(finding is Undefined) ==> next_step(probe, finding)
            == ProbeStep::Answer(true),
{
}

} // verus!
