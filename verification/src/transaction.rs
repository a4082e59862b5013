//! Transactions, the instructions they carry, and the environment of a batch.

use crate::storage::StorageKey;
use vstd::prelude::*;

verus! {

/// Gas charged for the fixed work around a transaction.
pub const INTRINSIC_GAS: u32 = 1000;

/// Gas charged for a storage read.
pub const READ_GAS: u32 = 50;

/// Gas charged for a storage write. It is not less than the refund that a
/// write can earn.
pub const WRITE_GAS: u32 = 200;

/// Gas charged for an event or an outbound message.
pub const EMIT_GAS: u32 = 30;

/// Gas charged for opening a call frame.
pub const CALL_GAS: u32 = 100;

/// Gas charged for any other instruction.
pub const BASE_GAS: u32 = 5;

/// The account whose slots record which bytecodes are published.
pub const KNOWN_CODES_ADDRESS: u64 = 0x8004;

/// Words that the header of an encoded transaction takes.
pub const TX_HEADER_WORDS: u64 = 8;

/// Words that an encoded instruction takes.
pub const INSTRUCTION_WORDS: u64 = 4;

/// What the interpreter can be asked to do, one step at a time.
#[derive(Clone, Copy, Debug, PartialEq, Eq, Structural)]
pub enum Instruction {
    /// Reads a storage slot.
    Read { key: StorageKey },
    /// Writes a storage slot.
    Write { key: StorageKey, value: u64 },
    /// Emits an event.
    Emit { address: u64, topic: u64, value: u64 },
    /// Sends a message to the base layer.
    SendMessage { message_key: u64, value: u64 },
    /// Opens a nested call frame.
    Call,
    /// Leaves the current call frame and keeps what it did.
    Return { value: u64 },
    /// Leaves the current call frame and undoes what it did.
    Revert { value: u64 },
    /// Cannot be executed: the machine halts.
    Invalid,
}

/// The gas that an instruction costs.
pub open spec fn gas_cost(instruction: Instruction) -> u32 {
    match instruction {
        Instruction::Read { .. } => READ_GAS,
        Instruction::Write { .. } => WRITE_GAS,
        Instruction::Emit { .. } => EMIT_GAS,
        Instruction::SendMessage { .. } => EMIT_GAS,
        Instruction::Call => CALL_GAS,
        Instruction::Return { .. } => BASE_GAS,
        Instruction::Revert { .. } => BASE_GAS,
        Instruction::Invalid => BASE_GAS,
    }
}

/// The gas that an instruction costs.
pub fn instruction_gas(instruction: &Instruction) -> (gas: u32)
    ensures
        gas == gas_cost(*instruction),
{
    match instruction {
        Instruction::Read { .. } => READ_GAS,
        Instruction::Write { .. } => WRITE_GAS,
        Instruction::Emit { .. } => EMIT_GAS,
        Instruction::SendMessage { .. } => EMIT_GAS,
        Instruction::Call => CALL_GAS,
        Instruction::Return { .. } => BASE_GAS,
        Instruction::Revert { .. } => BASE_GAS,
        Instruction::Invalid => BASE_GAS,
    }
}

/// The slot that records whether the bytecode with this hash is published.
pub open spec fn known_code_key(hash: u64) -> StorageKey {
    StorageKey { address: KNOWN_CODES_ADDRESS, slot: hash }
}

/// A bytecode that a transaction refers to, with its compressed form if the
/// sender supplied one.
#[derive(Debug)]
pub struct FactoryDep {
    pub hash: u64,
    pub compressed: Option<Vec<u8>>,
}

pub struct FactoryDepView {
    pub hash: u64,
    pub compressed: Option<Seq<u8>>,
}

impl View for FactoryDep {
    type V = FactoryDepView;

    open spec fn view(&self) -> FactoryDepView {
        FactoryDepView {
            hash: self.hash,
            compressed: match self.compressed {
                Some(bytes) => Some(bytes@),
                None => None,
            },
        }
    }
}

/// A bytecode published in compressed form: the hash of the bytecode and
/// the compressed representation.
#[derive(Debug)]
pub struct CompressedBytecodeInfo {
    pub hash: u64,
    pub compressed: Vec<u8>,
}

pub struct CompressedBytecodeView {
    pub hash: u64,
    pub compressed: Seq<u8>,
}

impl View for CompressedBytecodeInfo {
    type V = CompressedBytecodeView;

    open spec fn view(&self) -> CompressedBytecodeView {
        CompressedBytecodeView { hash: self.hash, compressed: self.compressed@ }
    }
}

/// A transaction as the engine takes it.
#[derive(Debug)]
pub struct Transaction {
    pub initiator: u64,
    pub contract: u64,
    pub value: u64,
    pub gas_limit: u32,
    pub max_fee_per_gas: u64,
    /// The call data as the sender encoded it; the engine passes it on.
    pub calldata: Vec<u8>,
    /// The instructions that the interpreter executes for the transaction.
    pub program: Vec<Instruction>,
    pub factory_deps: Vec<FactoryDep>,
}

pub struct TransactionView {
    pub initiator: u64,
    pub contract: u64,
    pub value: u64,
    pub gas_limit: u32,
    pub max_fee_per_gas: u64,
    pub calldata: Seq<u8>,
    pub program: Seq<Instruction>,
    pub factory_deps: Seq<FactoryDepView>,
}

impl View for Transaction {
    type V = TransactionView;

    open spec fn view(&self) -> TransactionView {
        TransactionView {
            initiator: self.initiator,
            contract: self.contract,
            value: self.value,
            gas_limit: self.gas_limit,
            max_fee_per_gas: self.max_fee_per_gas,
            calldata: self.calldata@,
            program: self.program@,
            factory_deps: self.factory_deps@.map_values(|dep: FactoryDep| dep@),
        }
    }
}

impl TransactionView {
    /// The number of words that the encoded transaction takes.
    pub open spec fn encoded_words(self) -> int {
        TX_HEADER_WORDS + INSTRUCTION_WORDS * self.program.len()
    }
}

impl Transaction {
    /// Whether the encoded transaction takes more than `limit` words.
    pub fn exceeds(&self, limit: u64) -> (too_large: bool)
        ensures
            too_large == (self@.encoded_words() > limit),
    {
        let words: u128 = TX_HEADER_WORDS as u128 + (INSTRUCTION_WORDS as u128) * (
        self.program.len() as u128);
        words > limit as u128
    }
}

/// A block inside the batch.
#[derive(Clone, Copy, Debug, PartialEq, Eq, Structural)]
pub struct L2BlockEnv {
    pub number: u32,
    pub timestamp: u64,
}

/// The batch that an instance executes.
#[derive(Clone, Copy, Debug, PartialEq, Eq, Structural)]
pub struct L1BatchEnv {
    pub number: u32,
    pub timestamp: u64,
    pub base_fee: u64,
    pub first_l2_block: L2BlockEnv,
}

/// What the surrounding system fixes for every batch.
#[derive(Clone, Copy, Debug, PartialEq, Eq, Structural)]
pub struct SystemEnv {
    pub chain_id: u64,
    /// The gas that the whole batch may use.
    pub batch_gas_limit: u32,
    /// The largest encoded transaction that is accepted, in words.
    pub max_encoded_tx_words: u64,
}

/// How far one call of the interpreter runs.
#[derive(Clone, Copy, Debug, PartialEq, Eq, Structural)]
pub enum VmExecutionMode {
    /// Until the next pending transaction has been executed.
    OneTx,
    /// Until no transaction is pending, or one halts.
    Batch,
}

/// The bytes of a word, most significant first.
pub open spec fn word_bytes(word: u64) -> Seq<u8> {
    seq![
        (word >> 56) as u8,
        (word >> 48) as u8,
        (word >> 40) as u8,
        (word >> 32) as u8,
        (word >> 24) as u8,
        (word >> 16) as u8,
        (word >> 8) as u8,
        word as u8,
    ]
}

/// The bytes of a word, most significant first.
pub fn word_to_bytes(word: u64) -> (bytes: Vec<u8>)
    ensures
        bytes@ == word_bytes(word),
{
    let mut bytes: Vec<u8> = Vec::new();
    bytes.push((word >> 56) as u8);
    bytes.push((word >> 48) as u8);
    bytes.push((word >> 40) as u8);
    bytes.push((word >> 32) as u8);
    bytes.push((word >> 24) as u8);
    bytes.push((word >> 16) as u8);
    bytes.push((word >> 8) as u8);
    bytes.push(word as u8);
    bytes
}

} // verus!
