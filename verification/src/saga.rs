//! Compensations of a destructive installation: each completed step
//! registers how to undo it, and an abort undoes them last first.
use vstd::prelude::*;
use crate::diskpart::{extend_script, extend_script_text, rollback_script, rollback_script_text};
use crate::text::push_str;

verus! {

/// How to undo one completed step.
#[derive(Debug, Clone, PartialEq, Eq)]
pub enum Compensation {
    /// Delete the live partitions created on disk `disk_id`.
    DeletePartitions { disk_id: u32, is_uefi: bool },
    /// Grow the shrunk Windows partition back.
    ExtendSystemPartition { disk_id: String, partition_id: String },
    /// Import the Boot Configuration Data saved before the changes.
    RestoreBcdBackup { backup_path: String },
}

/// What running one compensation does.
#[derive(Debug, Clone, PartialEq, Eq)]
pub enum RollbackCommand {
    /// Run a diskpart script, saved under the given identifier.
    Diskpart { script: String, identifier: String },
    /// Run `bcdedit` with these arguments; on success delete `remove_after`.
    Bcdedit { args: Vec<String>, remove_after: String },
}

/// The compensations registered so far, undone last first.
pub struct SagaOrchestrator {
    rollbacks: Vec<Compensation>,
}

impl SagaOrchestrator {
    /// The registered compensations, oldest first.
    pub closed spec fn pending(&self) -> Seq<Compensation> {
        self.rollbacks@
    }

    /// A saga with nothing to undo.
    pub fn new() -> (r: SagaOrchestrator)
        ensures
            r.pending() == Seq::<Compensation>::empty(),
    {
        SagaOrchestrator { rollbacks: Vec::new() }
    }

    /// Registers how to undo the step just completed.
    pub fn push(&mut self, action: Compensation)
        ensures
            final(self).pending() == old(self).pending().push(action),
    {
        self.rollbacks.push(action)
    }

    /// The compensations in the order an abort runs them: the most recent
    /// first.
    pub fn into_rollback_order(self) -> (r: Vec<Compensation>)
        ensures
            r@ == self.pending().reverse(),
    {
        let mut v = self.rollbacks;
        let ghost orig = v@;
        let mut out: Vec<Compensation> = Vec::new();
        while v.len() > 0
            invariant
                orig.len() == v@.len() + out@.len(),
                v@ == orig.take(v@.len() as int),
                out@ == orig.reverse().take(out@.len() as int),
            decreases v.len(),
        {
            let ghost n = v@.len();
            let c = v.pop().unwrap();
            assert(c == orig[n - 1]);
            out.push(c);
            assert(orig.take(n - 1) =~= v@);
            assert(orig.reverse().take(out@.len() as int) =~= out@) by {
                assert forall|j: int| 0 <= j < out@.len() implies orig.reverse()[j] == out@[j] by {
                    if j == out@.len() - 1 {
                        assert(orig.reverse()[j] == orig[orig.len() - 1 - j]);
                    }
                }
            }
        }
        assert(out@ =~= orig.reverse());
        out
    }
}

/// The views of a list of strings.
pub open spec fn string_list(s: Seq<String>) -> Seq<Seq<char>> {
    s.map_values(|x: String| x@)
}

/// The command that undoes `c`: the rollback script of the live partitions,
/// the extend script of the Windows partition (saved as `extend_<disk>`), or
/// the `bcdedit /import` of the backup, which is deleted once imported.
pub fn compensation_command_of(c: &Compensation) -> (r: RollbackCommand)
    ensures
        match *c {
            Compensation::DeletePartitions { disk_id, .. } => r matches RollbackCommand::Diskpart { script, identifier }
                && script@ == rollback_script_text(disk_id) && identifier@ == "rollback_"@ + crate::text::decimal(
                disk_id as nat,
            ),
            Compensation::ExtendSystemPartition { disk_id, partition_id } => r matches RollbackCommand::Diskpart {
                script,
                identifier,
            } && script@ == extend_script_text(disk_id@, partition_id@) && identifier@ == "extend_"@ + disk_id@,
            Compensation::RestoreBcdBackup { backup_path } => r matches RollbackCommand::Bcdedit { args, remove_after }
                && string_list(args@) == seq!["/import"@, backup_path@] && remove_after@ == backup_path@,
        },
{
    match c {
        Compensation::DeletePartitions { disk_id, .. } => {
            let mut identifier = String::from_str("rollback_");
            let n = crate::text::decimal_string(*disk_id as u64);
            push_str(&mut identifier, n.as_str());
            RollbackCommand::Diskpart { script: rollback_script(*disk_id), identifier }
        },
        Compensation::ExtendSystemPartition { disk_id, partition_id } => {
            let mut identifier = String::from_str("extend_");
            push_str(&mut identifier, disk_id.as_str());
            RollbackCommand::Diskpart { script: extend_script(disk_id.as_str(), partition_id.as_str()), identifier }
        },
        Compensation::RestoreBcdBackup { backup_path } => {
            let mut args: Vec<String> = Vec::new();
            args.push(String::from_str("/import"));
            args.push(backup_path.clone());
            assert(string_list(args@) =~= seq!["/import"@, backup_path@]);
            RollbackCommand::Bcdedit { args, remove_after: backup_path.clone() }
        },
    }
}

/// An abort undoes the most recent step first: after registering `action`
/// on top of `pending`, the rollback order is `action` followed by the
/// rollback order of `pending`.
pub proof fn lemma_last_registered_runs_first(pending: Seq<Compensation>, action: Compensation)
    ensures
        pending.push(action).reverse() == seq![action] + pending.reverse(),
{
    assert(pending.push(action).reverse() =~= seq![action] + pending.reverse());
}


/// A step of the destructive installation, in the order they run, with
/// what undoing it needs.
#[derive(Debug, Clone, PartialEq, Eq)]
pub enum InstallStep {
    /// The disk number was read from the disk identifier.
    DiskNumberRead,
    /// The Windows partition `partition_id` of disk `disk_id` was shrunk.
    PartitionShrunk { disk_id: String, partition_id: String },
    /// The live partitions were created on disk `disk_id`.
    PartitionsCreated { disk_id: u32, is_uefi: bool },
    /// The payload was copied to the live partition.
    PayloadCopied,
    /// The drive that receives the boot entry was chosen.
    BootDriveChosen,
    /// The boot loader files were written.
    BootBinariesInjected,
    /// The Windows Boot Manager entry was created.
    WindowsBcdPatched,
    /// The payload's boot configuration was written.
    BootConfigWritten,
}

/// What the installation does after a step.
#[derive(Debug, Clone, Copy, PartialEq, Eq, Structural)]
pub enum InstallAction {
    /// Go on with the next step.
    Continue,
    /// The last step succeeded: the installation is complete.
    Done,
    /// Undo the registered steps (last first), then report the failure.
    Abort,
    /// Report the failure without undoing anything.
    Fail,
}

/// How the completed `step` is undone, for the steps that change the disk.
pub open spec fn step_compensation(step: InstallStep) -> Option<Compensation> {
    match step {
        InstallStep::PartitionShrunk { disk_id, partition_id } => Some(
            Compensation::ExtendSystemPartition { disk_id, partition_id },
        ),
        InstallStep::PartitionsCreated { disk_id, is_uefi } => Some(Compensation::DeletePartitions { disk_id, is_uefi }),
        _ => None,
    }
}

/// Whether a failure of `step` rolls the installation back: every failure
/// once the partition was shrunk, except that of choosing the boot drive;
/// a failed shrink, and a disk identifier that is not a number, only fail.
pub open spec fn aborts_on_failure(step: InstallStep) -> bool {
    match step {
        InstallStep::DiskNumberRead => false,
        InstallStep::PartitionShrunk { .. } => false,
        InstallStep::BootDriveChosen => false,
        _ => true,
    }
}

/// The saga of an installation whose Boot Configuration Data was saved to
/// `backup_path`: importing it back is the first thing registered (and so
/// the last undone).
pub fn begin_installation(backup_path: String) -> (r: SagaOrchestrator)
    ensures
        r.pending() == seq![Compensation::RestoreBcdBackup { backup_path }],
{
    let mut saga = SagaOrchestrator::new();
    saga.push(Compensation::RestoreBcdBackup { backup_path });
    assert(saga.pending() =~= seq![Compensation::RestoreBcdBackup { backup_path }]);
    saga
}

/// The decision after `step` ran, successfully when `ok`: a successful step
/// that changed the disk registers how to undo it and the installation goes
/// on (or is done after the last step); a failed step leaves the saga as it
/// is, and the installation aborts or only fails as `aborts_on_failure`
/// says.
pub fn next_install_action(saga: &mut SagaOrchestrator, step: InstallStep, ok: bool) -> (r: InstallAction)
    ensures
        ok ==> final(saga).pending() == match step_compensation(step) {
            Some(c) => old(saga).pending().push(c),
            None => old(saga).pending(),
        },
        ok ==> r == (if step is BootConfigWritten {
            InstallAction::Done
        } else {
            InstallAction::Continue
        }),
        !ok ==> final(saga).pending() == old(saga).pending(),
        !ok ==> r == (if aborts_on_failure(step) {
            InstallAction::Abort
        } else {
            InstallAction::Fail
        }),
{
    if !ok {
        return match step {
            InstallStep::DiskNumberRead | InstallStep::PartitionShrunk { .. } | InstallStep::BootDriveChosen => {
                InstallAction::Fail
            },
            _ => InstallAction::Abort,
        };
    }
    match step {
        InstallStep::PartitionShrunk { disk_id, partition_id } => {
            saga.push(Compensation::ExtendSystemPartition { disk_id, partition_id });
            InstallAction::Continue
        },
        InstallStep::PartitionsCreated { disk_id, is_uefi } => {
            saga.push(Compensation::DeletePartitions { disk_id, is_uefi });
            InstallAction::Continue
        },
        InstallStep::BootConfigWritten => InstallAction::Done,
        _ => InstallAction::Continue,
    }
}

/// A rollback after both disk changes undoes them newest first: the live
/// partitions are deleted, then the Windows partition grows back, and the
/// saved boot configuration is imported last.
pub proof fn lemma_full_rollback_order(backup_path: String, shrunk: InstallStep, created: InstallStep)
    requires
        shrunk is PartitionShrunk,
        created is PartitionsCreated,
    ensures
        ({
            let pending = seq![Compensation::RestoreBcdBackup { backup_path }].push(
                step_compensation(shrunk).unwrap(),
            ).push(step_compensation(created).unwrap());
            pending.reverse() == seq![
                step_compensation(created).unwrap(),
                step_compensation(shrunk).unwrap(),
                Compensation::RestoreBcdBackup { backup_path },
            ]
        }),
        step_compensation(shrunk) == Some(
            Compensation::ExtendSystemPartition { disk_id: shrunk->PartitionShrunk_disk_id, partition_id: shrunk->partition_id },
        ),
        step_compensation(created) == Some(
            Compensation::DeletePartitions { disk_id: created->PartitionsCreated_disk_id, is_uefi: created->is_uefi },
        ),
{
    let pending = seq![Compensation::RestoreBcdBackup { backup_path }].push(step_compensation(shrunk).unwrap()).push(
        step_compensation(created).unwrap(),
    );
    assert(pending.reverse() =~= seq![
        step_compensation(created).unwrap(),
        step_compensation(shrunk).unwrap(),
        Compensation::RestoreBcdBackup { backup_path },
    ]);
}

} // verus!
