//! Executions that wait for an answer from outside, and what is kept of them meanwhile.

use crate::event_store::{event_views, EventModel, EventStore};
use crate::models::Slot;
use crate::sce_ledger::{ChangesModel, SCELedgerChanges};
use crate::types::{ExecuteReadOnlyResponse, ExecutionStep, ExecutionStepModel, ReadOnlyResult};
use rand_xoshiro::Xoshiro256PlusPlus;
use vstd::prelude::*;

verus! {

/// What becomes of a step when it was executed.
#[derive(Clone, Copy, Debug, PartialEq, Eq, Structural)]
pub enum StepMode {
    /// it becomes final, and at most so many final events are kept
    Final(usize),
    /// it joins the history
    Active,
}

/// What an [`OperationBackup`] holds.
#[verifier::ext_equal]
pub struct BackupModel {
    pub ledger_changes: ChangesModel,
    pub created_addr_index: u64,
    pub events: Seq<EventModel>,
    pub created_event_index: u64,
    pub unsafe_rng: Xoshiro256PlusPlus,
}

/// What is put back where the bytecode of an operation fails.
pub struct OperationBackup {
    /// changes that the step had caused
    pub ledger_changes: SCELedgerChanges,
    /// how many addresses the slot had created
    pub created_addr_index: u64,
    /// events of the step
    pub events: EventStore,
    /// how many events the slot had created
    pub created_event_index: u64,
    /// generator
    pub unsafe_rng: Xoshiro256PlusPlus,
}

impl View for OperationBackup {
    type V = BackupModel;

    open spec fn view(&self) -> BackupModel {
        BackupModel {
            ledger_changes: self.ledger_changes@,
            created_addr_index: self.created_addr_index,
            events: self.events@,
            created_event_index: self.created_event_index,
            unsafe_rng: self.unsafe_rng,
        }
    }
}

/// An execution that waits for the digest that seeds its generator.
pub enum PendingSeed {
    /// of a step
    Step { mode: StepMode, step: ExecutionStep },
    /// of a read-only request
    ReadOnly { slot: Slot, max_gas: u64, bytecode: Vec<u8> },
}

/// What a [`PendingSeed`] holds.
#[verifier::ext_equal]
pub enum PendingSeedModel {
    Step { mode: StepMode, step: ExecutionStepModel },
    ReadOnly { slot: Slot, max_gas: u64, bytecode: Seq<u8> },
}

impl View for PendingSeed {
    type V = PendingSeedModel;

    open spec fn view(&self) -> PendingSeedModel {
        match self {
            PendingSeed::Step { mode, step } => PendingSeedModel::Step {
                mode: *mode,
                step: step@,
            },
            PendingSeed::ReadOnly { slot, max_gas, bytecode } => PendingSeedModel::ReadOnly {
                slot: *slot,
                max_gas: *max_gas,
                bytecode: bytecode@,
            },
        }
    }
}

/// An execution that waits for bytecode to run.
pub enum PendingRun {
    /// the bytecode of an operation; the next operation is the one at position `next` or later
    Operation { mode: StepMode, step: ExecutionStep, next: usize, backup: OperationBackup },
    /// the bytecode of a read-only request
    ReadOnly { slot: Slot },
}

/// What a [`PendingRun`] holds.
#[verifier::ext_equal]
pub enum PendingRunModel {
    Operation { mode: StepMode, step: ExecutionStepModel, next: nat, backup: BackupModel },
    ReadOnly { slot: Slot },
}

impl View for PendingRun {
    type V = PendingRunModel;

    open spec fn view(&self) -> PendingRunModel {
        match self {
            PendingRun::Operation { mode, step, next, backup } => PendingRunModel::Operation {
                mode: *mode,
                step: step@,
                next: *next as nat,
                backup: backup@,
            },
            PendingRun::ReadOnly { slot } => PendingRunModel::ReadOnly { slot: *slot },
        }
    }
}

/// How far an execution came.
pub enum Progress {
    /// it needs the digest of `data`, to be handed to
    /// [`VM::provide_seed`](crate::vm::VM::provide_seed)
    Digest { data: Vec<u8>, pending_seed: PendingSeed },
    /// it needs `bytecode` to be run with the gas limit `max_gas`, and whether that succeeded to
    /// be handed to [`VM::provide_run_result`](crate::vm::VM::provide_run_result)
    Run { bytecode: Vec<u8>, max_gas: u64, pending_run: PendingRun },
    /// the step was executed
    StepDone,
    /// the read-only request was executed; the answer
    ReadOnlyDone(ExecuteReadOnlyResponse),
}

/// The answer to a read-only request.
#[verifier::ext_equal]
pub struct ResponseModel {
    pub executed_at: Slot,
    /// the error, if any
    pub error: Option<Seq<char>>,
    pub output_events: Seq<EventModel>,
}

/// What a [`Progress`] holds.
#[verifier::ext_equal]
pub enum ProgressModel {
    Digest { data: Seq<u8>, pending_seed: PendingSeedModel },
    Run { bytecode: Seq<u8>, max_gas: u64, pending_run: PendingRunModel },
    StepDone,
    ReadOnlyDone(ResponseModel),
}

impl View for Progress {
    type V = ProgressModel;

    open spec fn view(&self) -> ProgressModel {
        match self {
            Progress::Digest { data, pending_seed } => ProgressModel::Digest {
                data: data@,
                pending_seed: pending_seed@,
            },
            Progress::Run { bytecode, max_gas, pending_run } => ProgressModel::Run {
                bytecode: bytecode@,
                max_gas: *max_gas,
                pending_run: pending_run@,
            },
            Progress::StepDone => ProgressModel::StepDone,
            Progress::ReadOnlyDone(response) => ProgressModel::ReadOnlyDone(
                ResponseModel {
                    executed_at: response.executed_at,
                    error: match response.result {
                        ReadOnlyResult::Success => None,
                        ReadOnlyResult::Error(text) => Some(text@),
                    },
                    output_events: event_views(response.output_events@),
                },
            ),
        }
    }
}

} // verus!
