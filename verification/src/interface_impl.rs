//! What running contracts can ask of the execution.

use crate::error::InterfaceError;
use crate::event_store::{with_event, EventExecutionContext, EventModel, SCOutputEvent};
use crate::ledger_step::LedgerStepModel;
use crate::models::{
    be_bytes, push_be_bytes, Address, Amount, BlockId, Digest, Key, SCOutputEventId, Slot,
};
use crate::rng::{draw, drawn_from};
use crate::timeslots::{get_block_slot_timestamp, slot_millis, MassaTime};
use crate::types::{
    fresh_call, stack_views, ContextModel, ExecutionContext, StackElement, StackModel,
};
use vstd::prelude::*;

verus! {

/// Bytes, or an error.
pub open spec fn bytes_result(res: Result<Vec<u8>, InterfaceError>) -> Result<
    Seq<u8>,
    InterfaceError,
> {
    match res {
        Ok(bytes) => Ok(bytes@),
        Err(error) => Err(error),
    }
}

/// The bytes that name what is created in a slot outside of any block: the key of the slot, the
/// index in the slot, and whether the execution counts (1) or is read-only (0). They also name
/// the events of a slot.
pub open spec fn creation_bytes(slot: Slot, index: u64, read_only: bool) -> Seq<u8> {
    (slot.spec_bytes_key() + be_bytes(index as nat, 8)).push(
        if read_only {
            0u8
        } else {
            1u8
        },
    )
}

/// The bytes that name a module that an operation creates: the identifier of its block, the
/// position of the operation in the block, and the index of the created address.
pub open spec fn module_bytes(block_id: BlockId, operation_index: u64, index: u64) -> Seq<u8> {
    block_id.0.bytes@ + be_bytes(operation_index as nat, 8) + be_bytes(index as nat, 8)
}

fn creation_data(slot: &Slot, index: u64, read_only: bool) -> (data: Vec<u8>)
    ensures
        data@ == creation_bytes(*slot, index, read_only),
{
    let mut data = slot.to_bytes_key();
    push_be_bytes(&mut data, index, 8);
    if read_only {
        data.push(0u8);
    } else {
        data.push(1u8);
    }
    data
}

/// The addresses of a call stack.
pub open spec fn call_addresses(stack: Seq<StackModel>) -> Seq<Address> {
    Seq::new(stack.len(), |i: int| stack[i].address)
}

impl ContextModel {
    /// The bytes whose digest is the address of the next module to be created.
    pub open spec fn module_address_bytes(self) -> Seq<u8> {
        match self.opt_block_id {
            Some(block_id) if !self.read_only => module_bytes(
                block_id,
                self.operation_index,
                self.created_addr_index,
            ),
            _ => creation_bytes(self.slot, self.created_addr_index, self.read_only),
        }
    }

    /// The bytes whose digest is the identifier of the next event.
    pub open spec fn event_id_bytes(self) -> Seq<u8> {
        creation_bytes(self.slot, self.created_event_index, self.read_only)
    }

    /// The address of the current call.
    pub open spec fn current_address(self) -> Result<Address, InterfaceError> {
        if self.stack.len() == 0 {
            Err(InterfaceError::NoCurrentAddress)
        } else {
            Ok(self.stack.last().address)
        }
    }

    /// Whether the current call owns `address`.
    pub open spec fn owns(self, address: Address) -> bool {
        self.stack.len() > 0 && self.stack.last().owned_addresses.contains(address)
    }

    /// The context with another view of the ledger.
    pub open spec fn with_ledger(self, ledger_step: LedgerStepModel) -> ContextModel {
        ContextModel { ledger_step, ..self }
    }

    /// What comes of moving coins.
    pub open spec fn after_transfer(self, from: Address, to: Address, amount: Amount) -> (
        ContextModel,
        Result<(), InterfaceError>,
    ) {
        match self.ledger_step.transferred(from, to, amount) {
            (ledger_step, Err(error)) => (
                self.with_ledger(ledger_step),
                Err(InterfaceError::Transfer(error)),
            ),
            (ledger_step, Ok(_)) => (self.with_ledger(ledger_step), Ok(())),
        }
    }

    /// What comes of calling `to` with `coins`: the module of `to`, and a new call on the stack.
    pub open spec fn after_init_call(self, to: Address, coins: Amount) -> (
        ContextModel,
        Result<Seq<u8>, InterfaceError>,
    ) {
        match (self.ledger_step.module(to), self.current_address()) {
            (None, _) => (self, Err(InterfaceError::BytecodeNotFound)),
            (Some(_), Err(error)) => (self, Err(error)),
            (Some(module), Ok(from)) => match self.after_transfer(from, to, coins) {
                (after, Err(error)) => (after, Err(error)),
                (after, Ok(_)) => (
                    ContextModel { stack: self.stack.push(fresh_call(to, coins)), ..after },
                    Ok(module),
                ),
            },
        }
    }

    /// What comes of finishing the current call.
    pub open spec fn after_finish_call(self) -> (ContextModel, Result<(), InterfaceError>) {
        if self.stack.len() == 0 {
            (self, Err(InterfaceError::CallStackOutOfBounds))
        } else {
            (ContextModel { stack: self.stack.drop_last(), ..self }, Ok(()))
        }
    }

    /// What comes of creating `module` at `address`, which the current call then owns. The module
    /// is written also where there is no current call.
    pub open spec fn after_create_module(self, address: Address, module: Seq<u8>) -> (
        ContextModel,
        Result<Address, InterfaceError>,
    ) {
        let created = self.with_ledger(self.ledger_step.with_module(address, Some(module)));
        if self.stack.len() == 0 {
            (created, Err(InterfaceError::NoOwner))
        } else {
            let owner = self.stack.last();
            (
                ContextModel {
                    stack: self.stack.drop_last().push(
                        StackModel {
                            owned_addresses: owner.owned_addresses.push(address),
                            ..owner
                        },
                    ),
                    created_addr_index: (self.created_addr_index + 1) as u64,
                    ..created
                },
                Ok(address),
            )
        }
    }

    /// What comes of writing into the datastore of an address: allowed only to its owner.
    pub open spec fn after_set_data_for(self, address: Address, key: Digest, value: Seq<u8>) -> (
        ContextModel,
        Result<(), InterfaceError>,
    ) {
        if self.owns(address) {
            (self.with_ledger(self.ledger_step.with_data(address, key, value)), Ok(()))
        } else {
            (self, Err(InterfaceError::WriteAccessDenied))
        }
    }

    /// What comes of writing into the datastore of the current address.
    pub open spec fn after_set_data(self, key: Digest, value: Seq<u8>) -> (
        ContextModel,
        Result<(), InterfaceError>,
    ) {
        match self.current_address() {
            Ok(address) => (
                self.with_ledger(self.ledger_step.with_data(address, key, value)),
                Ok(()),
            ),
            Err(error) => (self, Err(error)),
        }
    }

    /// What comes of moving coins from the current address.
    pub open spec fn after_transfer_coins(self, to: Address, amount: Amount) -> (
        ContextModel,
        Result<(), InterfaceError>,
    ) {
        match self.current_address() {
            Ok(from) => self.after_transfer(from, to, amount),
            Err(error) => (self, Err(error)),
        }
    }

    /// What comes of moving coins from an address: allowed only to its owner.
    pub open spec fn after_transfer_coins_for(self, from: Address, to: Address, amount: Amount) -> (
        ContextModel,
        Result<(), InterfaceError>,
    ) {
        if self.owns(from) {
            self.after_transfer(from, to, amount)
        } else {
            (self, Err(InterfaceError::SpendingAccessDenied))
        }
    }

    /// The event that the context stamps on `data` under the identifier `id`.
    pub open spec fn stamped_event(self, id: SCOutputEventId, data: Seq<char>) -> EventModel {
        EventModel {
            id,
            slot: self.slot,
            block: self.opt_block_id,
            call_stack: call_addresses(self.stack),
            read_only: self.read_only,
            index_in_slot: self.created_event_index,
            origin_operation_id: self.origin_operation_id,
            data,
        }
    }

    /// What comes of producing an event.
    pub open spec fn after_generate_event(
        self,
        id: SCOutputEventId,
        data: Seq<char>,
    ) -> ContextModel {
        ContextModel {
            events: with_event(self.events, self.stamped_event(id, data)),
            created_event_index: (self.created_event_index + 1) as u64,
            ..self
        }
    }

    /// What comes of drawing a number.
    pub open spec fn after_unsafe_random(self) -> ContextModel {
        ContextModel { unsafe_rng: drawn_from(self.unsafe_rng).1, ..self }
    }

    /// The balance of the current address.
    pub open spec fn own_balance(self) -> Result<u64, InterfaceError> {
        match self.current_address() {
            Ok(address) => Ok(self.ledger_step.balance(address).raw),
            Err(error) => Err(error),
        }
    }

    /// The data of the current address under `key`.
    pub open spec fn own_data(self, key: Digest) -> Result<Seq<u8>, InterfaceError> {
        match self.current_address() {
            Ok(address) => self.data_for(address, key),
            Err(error) => Err(error),
        }
    }

    /// Whether the current address has data under `key`.
    pub open spec fn has_own_data(self, key: Digest) -> Result<bool, InterfaceError> {
        match self.current_address() {
            Ok(address) => Ok(self.ledger_step.data(address, key) is Some),
            Err(error) => Err(error),
        }
    }

    /// The coins that came with the current call; zero where there is none.
    pub open spec fn call_coins(self) -> u64 {
        if self.stack.len() > 0 {
            self.stack.last().coins.raw
        } else {
            0
        }
    }

    /// The addresses that the current call owns.
    pub open spec fn owned_addresses(self) -> Result<Seq<Address>, InterfaceError> {
        if self.stack.len() > 0 {
            Ok(self.stack.last().owned_addresses)
        } else {
            Err(InterfaceError::OwnedAddressesOutOfBounds)
        }
    }

    /// The data under `key` of `address`, or an error where there is none.
    pub open spec fn data_for(self, address: Address, key: Digest) -> Result<
        Seq<u8>,
        InterfaceError,
    > {
        match self.ledger_step.data(address, key) {
            Some(value) => Ok(value),
            None => Err(InterfaceError::DataEntryNotFound),
        }
    }
}

/// How the check of a signature went.
#[derive(Clone, Copy, Debug, PartialEq, Eq)]
pub enum SignatureCheck {
    /// the text is no signature
    MalformedSignature,
    /// the text is no public key
    MalformedPublicKey,
    /// the signature is not one of the data under the key
    Refused,
    /// the signature is one of the data under the key
    Verified,
}

/// What an [`InterfaceImpl`] holds.
#[verifier::ext_equal]
pub struct InterfaceModel {
    pub context: ContextModel,
    pub thread_count: u8,
    pub t0: MassaTime,
    pub genesis_timestamp: MassaTime,
}

/// The interface between running contracts and the state of the execution.
pub struct InterfaceImpl {
    /// state of the execution
    pub context: ExecutionContext,
    /// how many threads there are
    pub thread_count: u8,
    /// length of a period
    pub t0: MassaTime,
    /// time of the first slot
    pub genesis_timestamp: MassaTime,
}

impl View for InterfaceImpl {
    type V = InterfaceModel;

    open spec fn view(&self) -> InterfaceModel {
        InterfaceModel {
            context: self.context@,
            thread_count: self.thread_count,
            t0: self.t0,
            genesis_timestamp: self.genesis_timestamp,
        }
    }
}

impl InterfaceModel {
    /// The interface with another context.
    pub open spec fn with_context(self, context: ContextModel) -> InterfaceModel {
        InterfaceModel { context, ..self }
    }

    /// The time of the slot of the execution, in milliseconds.
    pub open spec fn time(self) -> Result<u64, InterfaceError> {
        let millis = slot_millis(
            self.thread_count,
            self.t0,
            self.genesis_timestamp,
            self.context.slot,
        );
        if self.thread_count != 0 && millis <= u64::MAX {
            Ok(millis as u64)
        } else {
            Err(InterfaceError::TimeOverflow)
        }
    }
}

impl InterfaceImpl {
    /// An interface to `context`.
    pub fn new(
        context: ExecutionContext,
        thread_count: u8,
        t0: MassaTime,
        genesis_timestamp: MassaTime,
    ) -> (interface: InterfaceImpl)
        ensures
            interface@ == (InterfaceModel {
                context: context@,
                thread_count,
                t0,
                genesis_timestamp,
            }),
    {
        InterfaceImpl { context, thread_count, t0, genesis_timestamp }
    }

    /// The address of the current call.
    fn current_address(&self) -> (address: Result<Address, InterfaceError>)
        ensures
            address == self@.context.current_address(),
    {
        let len: usize = self.context.stack.len();
        if len == 0 {
            Err(InterfaceError::NoCurrentAddress)
        } else {
            Ok(self.context.stack[len - 1].address)
        }
    }

    /// Whether the current call owns `address`.
    fn owns(&self, address: &Address) -> (owned: bool)
        ensures
            owned == self@.context.owns(*address),
    {
        let len: usize = self.context.stack.len();
        if len == 0 {
            return false;
        }
        let owned_addresses = &self.context.stack[len - 1].owned_addresses;
        assert(self@.context.stack.last().owned_addresses == owned_addresses@);
        let mut i: usize = 0;
        while i < owned_addresses.len()
            invariant
                i <= owned_addresses@.len(),
                forall|j: int| 0 <= j < i ==> owned_addresses@[j] != *address,
                self@.context.stack.len() > 0,
                self@.context.stack.last().owned_addresses == owned_addresses@,
            decreases owned_addresses@.len() - i,
        {
            if owned_addresses[i].same(address) {
                return true;
            }
            i = i + 1;
        }
        false
    }

    /// Moves `amount` coins from one address to another.
    fn transfer(&mut self, from: Address, to: Address, amount: Amount) -> (res: Result<
        (),
        InterfaceError,
    >)
        ensures
            final(self)@ == old(self)@.with_context(
                old(self)@.context.after_transfer(from, to, amount).0,
            ),
            res == old(self)@.context.after_transfer(from, to, amount).1,
    {
        match self.context.ledger_step.transfer(from, to, amount) {
            Ok(_) => Ok(()),
            Err(error) => Err(InterfaceError::Transfer(error)),
        }
    }

    /// Starts a call of `to_address`: moves the coins there from the current address and puts the
    /// call on the stack. Returns the bytecode to run.
    pub fn init_call(&mut self, to_address: Address, raw_coins: u64) -> (res: Result<
        Vec<u8>,
        InterfaceError,
    >)
        ensures
            final(self)@ == old(self)@.with_context(
                old(self)@.context.after_init_call(to_address, Amount { raw: raw_coins }).0,
            ),
            bytes_result(res) == old(self)@.context.after_init_call(
                to_address,
                Amount { raw: raw_coins },
            ).1,
    {
        let bytecode = match self.context.ledger_step.get_module(&to_address) {
            Some(bytecode) => bytecode,
            None => return Err(InterfaceError::BytecodeNotFound),
        };
        let from_address = match self.current_address() {
            Ok(address) => address,
            Err(error) => return Err(error),
        };
        let coins = Amount::from_raw(raw_coins);
        if let Err(error) = self.transfer(from_address, to_address, coins) {
            return Err(error);
        }
        let ghost before = self.context.stack@;
        self.context.stack.push(StackElement::new(to_address, coins));
        assert(stack_views(self.context.stack@) =~= stack_views(before).push(
            fresh_call(to_address, coins),
        ));
        Ok(bytecode)
    }

    /// Finishes the current call: takes it off the stack.
    pub fn finish_call(&mut self) -> (res: Result<(), InterfaceError>)
        ensures
            final(self)@ == old(self)@.with_context(old(self)@.context.after_finish_call().0),
            res == old(self)@.context.after_finish_call().1,
    {
        let ghost before = self.context.stack@;
        match self.context.stack.pop() {
            Some(_) => {
                assert(stack_views(self.context.stack@) =~= stack_views(before).drop_last());
                Ok(())
            },
            None => Err(InterfaceError::CallStackOutOfBounds),
        }
    }

    /// The balance of the current address; zero where it has no entry.
    pub fn get_balance(&self) -> (balance: Result<u64, InterfaceError>)
        ensures
            balance == self@.context.own_balance(),
    {
        match self.current_address() {
            Ok(address) => Ok(self.context.ledger_step.get_balance(&address).to_raw()),
            Err(error) => Err(error),
        }
    }

    /// The balance of `address`; zero where it has no entry.
    pub fn get_balance_for(&self, address: &Address) -> (balance: Result<u64, InterfaceError>)
        ensures
            balance == Ok::<u64, InterfaceError>(self@.context.ledger_step.balance(*address).raw),
    {
        Ok(self.context.ledger_step.get_balance(address).to_raw())
    }

    /// The bytes whose digest is the address of the next module to be created: the identifier of
    /// the block, the position of the operation in the block and the index of the created
    /// address. In read-only mode, and where there is no block, the slot stands for the block and
    /// the operation.
    pub fn module_address_data(&self) -> (data: Vec<u8>)
        ensures
            data@ == self@.context.module_address_bytes(),
    {
        let context = &self.context;
        match &context.opt_block_id {
            Some(block_id) if !context.read_only => {
                let mut data = copy_bytes(block_id.0.bytes.as_slice());
                push_be_bytes(&mut data, context.operation_index, 8);
                push_be_bytes(&mut data, context.created_addr_index, 8);
                data
            },
            _ => creation_data(&context.slot, context.created_addr_index, context.read_only),
        }
    }

    /// Creates `module` at `address`, the digest of
    /// [`module_address_data`](InterfaceImpl::module_address_data). The current call then owns
    /// the address.
    pub fn create_module(&mut self, address: Address, module: &[u8]) -> (res: Result<
        Address,
        InterfaceError,
    >)
        requires
            old(self).context.stack@.len() > 0 ==> old(self).context.created_addr_index < u64::MAX,
        ensures
            final(self)@ == old(self)@.with_context(
                old(self)@.context.after_create_module(address, module@).0,
            ),
            res == old(self)@.context.after_create_module(address, module@).1,
    {
        let module = copy_bytes(module);
        self.context.ledger_step.set_module(address, Some(module));
        let ghost before = self.context.stack@;
        match self.context.stack.pop() {
            Some(mut owner) => {
                owner.owned_addresses.push(address);
                self.context.stack.push(owner);
                assert(stack_views(self.context.stack@) =~= stack_views(before).drop_last().push(
                    owner@,
                ));
            },
            None => return Err(InterfaceError::NoOwner),
        }
        self.context.created_addr_index = self.context.created_addr_index + 1;
        Ok(address)
    }

    /// The data of `address` under `key`.
    pub fn raw_get_data_for(&self, address: &Address, key: &Digest) -> (res: Result<
        Vec<u8>,
        InterfaceError,
    >)
        ensures
            bytes_result(res) == self@.context.data_for(*address, *key),
    {
        match self.context.ledger_step.get_data_entry(address, key) {
            Some(value) => Ok(value),
            None => Err(InterfaceError::DataEntryNotFound),
        }
    }

    /// Writes `value` under `key` into the datastore of `address`, which the current call has to
    /// own.
    pub fn raw_set_data_for(&mut self, address: Address, key: Digest, value: &[u8]) -> (res: Result<
        (),
        InterfaceError,
    >)
        ensures
            final(self)@ == old(self)@.with_context(
                old(self)@.context.after_set_data_for(address, key, value@).0,
            ),
            res == old(self)@.context.after_set_data_for(address, key, value@).1,
    {
        if !self.owns(&address) {
            return Err(InterfaceError::WriteAccessDenied);
        }
        self.context.ledger_step.set_data_entry(address, key, copy_bytes(value));
        Ok(())
    }

    /// Whether `address` has data under `key`.
    pub fn has_data_for(&self, address: &Address, key: &Digest) -> (res: Result<
        bool,
        InterfaceError,
    >)
        ensures
            res == Ok::<bool, InterfaceError>(
                self@.context.ledger_step.data(*address, *key) is Some,
            ),
    {
        Ok(self.context.ledger_step.has_data_entry(address, key))
    }

    /// The data of the current address under `key`.
    pub fn raw_get_data(&self, key: &Digest) -> (res: Result<Vec<u8>, InterfaceError>)
        ensures
            bytes_result(res) == self@.context.own_data(*key),
    {
        match self.current_address() {
            Ok(address) => self.raw_get_data_for(&address, key),
            Err(error) => Err(error),
        }
    }

    /// Writes `value` under `key` into the datastore of the current address.
    pub fn raw_set_data(&mut self, key: Digest, value: &[u8]) -> (res: Result<(), InterfaceError>)
        ensures
            final(self)@ == old(self)@.with_context(
                old(self)@.context.after_set_data(key, value@).0,
            ),
            res == old(self)@.context.after_set_data(key, value@).1,
    {
        let address = match self.current_address() {
            Ok(address) => address,
            Err(error) => return Err(error),
        };
        self.context.ledger_step.set_data_entry(address, key, copy_bytes(value));
        Ok(())
    }

    /// Whether the current address has data under `key`.
    pub fn has_data(&self, key: &Digest) -> (res: Result<bool, InterfaceError>)
        ensures
            res == self@.context.has_own_data(*key),
    {
        match self.current_address() {
            Ok(address) => self.has_data_for(&address, key),
            Err(error) => Err(error),
        }
    }

    /// The answer to a request to verify a signature: a malformed signature or key verifies
    /// nothing, and is no error.
    pub fn signature_verify(&self, check: SignatureCheck) -> (res: Result<bool, InterfaceError>)
        ensures
            res == Ok::<bool, InterfaceError>(check is Verified),
    {
        match check {
            SignatureCheck::MalformedSignature => Ok(false),
            SignatureCheck::MalformedPublicKey => Ok(false),
            SignatureCheck::Refused => Ok(false),
            SignatureCheck::Verified => Ok(true),
        }
    }

    /// Moves coins from the current address to `to_address`.
    pub fn transfer_coins(&mut self, to_address: Address, raw_amount: u64) -> (res: Result<
        (),
        InterfaceError,
    >)
        ensures
            final(self)@ == old(self)@.with_context(
                old(self)@.context.after_transfer_coins(to_address, Amount { raw: raw_amount }).0,
            ),
            res == old(self)@.context.after_transfer_coins(
                to_address,
                Amount { raw: raw_amount },
            ).1,
    {
        match self.current_address() {
            Ok(from_address) => {
                self.transfer(from_address, to_address, Amount::from_raw(raw_amount))
            },
            Err(error) => Err(error),
        }
    }

    /// Moves coins from `from_address`, which the current call has to own, to `to_address`.
    pub fn transfer_coins_for(
        &mut self,
        from_address: Address,
        to_address: Address,
        raw_amount: u64,
    ) -> (res: Result<(), InterfaceError>)
        ensures
            final(self)@ == old(self)@.with_context(
                old(self)@.context.after_transfer_coins_for(
                    from_address,
                    to_address,
                    Amount { raw: raw_amount },
                ).0,
            ),
            res == old(self)@.context.after_transfer_coins_for(
                from_address,
                to_address,
                Amount { raw: raw_amount },
            ).1,
    {
        if !self.owns(&from_address) {
            return Err(InterfaceError::SpendingAccessDenied);
        }
        self.transfer(from_address, to_address, Amount::from_raw(raw_amount))
    }

    /// The addresses that the current call owns.
    pub fn get_owned_addresses(&self) -> (res: Result<Vec<Address>, InterfaceError>)
        ensures
            match res {
                Ok(addresses) => self@.context.owned_addresses() == Ok::<
                    Seq<Address>,
                    InterfaceError,
                >(addresses@),
                Err(error) => self@.context.owned_addresses() == Err::<
                    Seq<Address>,
                    InterfaceError,
                >(error),
            },
    {
        let len: usize = self.context.stack.len();
        if len == 0 {
            Err(InterfaceError::OwnedAddressesOutOfBounds)
        } else {
            let addresses = self.context.stack[len - 1].owned_addresses.clone();
            assert(addresses@ =~= self.context.stack@[len - 1].owned_addresses@);
            Ok(addresses)
        }
    }

    /// The addresses of the call stack, the current one last.
    fn stack_addresses(&self) -> (addresses: Vec<Address>)
        ensures
            addresses@ == call_addresses(self@.context.stack),
    {
        let mut addresses: Vec<Address> = Vec::new();
        let mut i: usize = 0;
        while i < self.context.stack.len()
            invariant
                i <= self.context.stack@.len(),
                addresses@ == call_addresses(self@.context.stack).take(i as int),
            decreases self.context.stack@.len() - i,
        {
            addresses.push(self.context.stack[i].address);
            i = i + 1;
            assert(addresses@ =~= call_addresses(self@.context.stack).take(i as int));
        }
        assert(addresses@ =~= call_addresses(self@.context.stack));
        addresses
    }

    /// The addresses of the call stack, the current one last.
    pub fn get_call_stack(&self) -> (res: Result<Vec<Address>, InterfaceError>)
        ensures
            res matches Ok(addresses) && addresses@ == call_addresses(self@.context.stack),
    {
        Ok(self.stack_addresses())
    }

    /// The coins that came with the current call; zero where there is none.
    pub fn get_call_coins(&self) -> (res: Result<u64, InterfaceError>)
        ensures
            res == Ok::<u64, InterfaceError>(self@.context.call_coins()),
    {
        let len: usize = self.context.stack.len();
        if len == 0 {
            Ok(0)
        } else {
            Ok(self.context.stack[len - 1].coins.to_raw())
        }
    }

    /// The bytes whose digest is the identifier of the next event.
    pub fn event_id_data(&self) -> (data: Vec<u8>)
        ensures
            data@ == self@.context.event_id_bytes(),
    {
        creation_data(&self.context.slot, self.context.created_event_index, self.context.read_only)
    }

    /// Produces an event under the identifier `id`, the digest of
    /// [`event_id_data`](InterfaceImpl::event_id_data).
    pub fn generate_event(&mut self, id: SCOutputEventId, data: String) -> (res: Result<
        (),
        InterfaceError,
    >)
        requires
            old(self).context.created_event_index < u64::MAX,
        ensures
            final(self)@ == old(self)@.with_context(
                old(self)@.context.after_generate_event(id, data@),
            ),
            res is Ok,
    {
        let context = EventExecutionContext {
            slot: self.context.slot,
            block: self.context.opt_block_id,
            call_stack: self.stack_addresses(),
            read_only: self.context.read_only,
            index_in_slot: self.context.created_event_index,
            origin_operation_id: self.context.origin_operation_id,
        };
        let event = SCOutputEvent { id, context, data };
        self.context.created_event_index = self.context.created_event_index + 1;
        self.context.events.insert(event);
        Ok(())
    }

    /// The time of the slot of the execution, in milliseconds.
    pub fn get_time(&self) -> (res: Result<u64, InterfaceError>)
        ensures
            res == self@.time(),
    {
        match get_block_slot_timestamp(
            self.thread_count,
            self.t0,
            self.genesis_timestamp,
            self.context.slot,
        ) {
            Ok(timestamp) => Ok(timestamp.to_millis()),
            Err(_) => Err(InterfaceError::TimeOverflow),
        }
    }

    /// A number drawn from the generator of the execution. It can be predicted and manipulated.
    pub fn unsafe_random(&mut self) -> (res: Result<i64, InterfaceError>)
        ensures
            final(self)@ == old(self)@.with_context(old(self)@.context.after_unsafe_random()),
            res == Ok::<i64, InterfaceError>(drawn_from(old(self)@.context.unsafe_rng).0),
    {
        Ok(draw(&mut self.context.unsafe_rng))
    }
}

fn copy_bytes(bytes: &[u8]) -> (copy: Vec<u8>)
    ensures
        copy@ == bytes@,
{
    let mut copy: Vec<u8> = Vec::new();
    copy.extend_from_slice(bytes);
    assert(copy@ =~= bytes@);
    copy
}

} // verus!
