//! Errors.

use crate::ledger_step::{BalanceError, TransferError};
use vstd::prelude::*;
use vstd::string::StringExecFns;

verus! {

/// Errors of the execution component.
#[non_exhaustive]
#[derive(Debug)]
pub enum ExecutionError {
    /// Empty for now.
    Nothing,
    /// The file of the initial ledger could not be loaded or parsed; what went wrong.
    FileError(String),
}

impl ExecutionError {
    /// The text of the error.
    pub open spec fn text(self) -> Seq<char> {
        match self {
            ExecutionError::Nothing => "Empty for now."@,
            ExecutionError::FileError(text) => text@,
        }
    }

    /// The text of the error.
    pub fn message(&self) -> (message: String)
        ensures
            message@ == self.text(),
    {
        match self {
            ExecutionError::Nothing => "Empty for now.".to_owned(),
            ExecutionError::FileError(text) => text.clone(),
        }
    }
}

/// Why a call of a contract into the execution interface was refused.
#[derive(Clone, Copy, Debug, PartialEq, Eq)]
pub enum InterfaceError {
    /// the called address has no module
    BytecodeNotFound,
    /// there is no current call
    NoCurrentAddress,
    /// there is no call to finish
    CallStackOutOfBounds,
    /// there is no current call that could own the created address
    NoOwner,
    /// there is no current call whose owned addresses could be listed
    OwnedAddressesOutOfBounds,
    /// the current call does not own the address it wants to write to
    WriteAccessDenied,
    /// the current call does not own the address it wants to spend from
    SpendingAccessDenied,
    /// there is no data under the key
    DataEntryNotFound,
    /// coins could not be moved
    Transfer(TransferError),
    /// the time of the slot cannot be computed
    TimeOverflow,
}

/// The text of a balance error.
pub open spec fn balance_error_text(error: BalanceError) -> Seq<char> {
    match error {
        BalanceError::Overflow => "balance overflow"@,
        BalanceError::Underflow => "balance underflow"@,
    }
}

fn balance_error_str(error: &BalanceError) -> (text: &'static str)
    ensures
        text@ == balance_error_text(*error),
{
    match error {
        BalanceError::Overflow => "balance overflow",
        BalanceError::Underflow => "balance underflow",
    }
}

impl InterfaceError {
    /// The text of the error.
    pub open spec fn text(self) -> Seq<char> {
        match self {
            InterfaceError::BytecodeNotFound => "Error bytecode not found"@,
            InterfaceError::NoCurrentAddress => "Failed to read call stack current address"@,
            InterfaceError::CallStackOutOfBounds => "call stack out of bounds"@,
            InterfaceError::NoOwner => "owned addresses not found in stack"@,
            InterfaceError::OwnedAddressesOutOfBounds => "owned address stack out of bounds"@,
            InterfaceError::WriteAccessDenied => "You don't have the write access to this entry"@,
            InterfaceError::SpendingAccessDenied =>
                "You don't have the spending access to this entry"@,
            InterfaceError::DataEntryNotFound => "Data entry not found"@,
            InterfaceError::Transfer(TransferError::Debit(error)) => balance_error_text(error),
            InterfaceError::Transfer(TransferError::Credit(error)) =>
                "Error crediting destination balance: "@ + balance_error_text(error),
            InterfaceError::TimeOverflow => "Time overflow error"@,
        }
    }

    /// The text of the error.
    pub fn message(&self) -> (message: String)
        ensures
            message@ == self.text(),
    {
        match self {
            InterfaceError::BytecodeNotFound => "Error bytecode not found".to_owned(),
            InterfaceError::NoCurrentAddress => {
                "Failed to read call stack current address".to_owned()
            },
            InterfaceError::CallStackOutOfBounds => "call stack out of bounds".to_owned(),
            InterfaceError::NoOwner => "owned addresses not found in stack".to_owned(),
            InterfaceError::OwnedAddressesOutOfBounds => {
                "owned address stack out of bounds".to_owned()
            },
            InterfaceError::WriteAccessDenied => {
                "You don't have the write access to this entry".to_owned()
            },
            InterfaceError::SpendingAccessDenied => {
                "You don't have the spending access to this entry".to_owned()
            },
            InterfaceError::DataEntryNotFound => "Data entry not found".to_owned(),
            InterfaceError::Transfer(TransferError::Debit(error)) => {
                balance_error_str(error).to_owned()
            },
            InterfaceError::Transfer(TransferError::Credit(error)) => {
                let prefix = "Error crediting destination balance: ".to_owned();
                prefix.concat(balance_error_str(error))
            },
            InterfaceError::TimeOverflow => "Time overflow error".to_owned(),
        }
    }
}

} // verus!
