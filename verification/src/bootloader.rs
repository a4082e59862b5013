//! The bootloader state: the sequence of blocks and transactions of a batch,
//! how far the interpreter has got in it, and the memory layout that the
//! interpreter consumes.

use crate::transaction::{
    CompressedBytecodeInfo, CompressedBytecodeView, Instruction, L2BlockEnv, Transaction,
    TransactionView, TX_HEADER_WORDS,
};
use vstd::prelude::*;

verus! {

/// Word that starts an encoded block boundary.
pub const BLOCK_TAG: u64 = 2;

/// Word that starts an encoded transaction.
pub const TX_TAG: u64 = 1;

/// A transaction as the bootloader holds it: with the decision whether its
/// bytecodes must come compressed, and the compressed bytecodes accepted
/// with it.
#[derive(Debug)]
pub struct BootloaderTx {
    pub tx: Transaction,
    pub enforce_compression: bool,
    pub compressed_bytecodes: Vec<CompressedBytecodeInfo>,
}

pub struct BootloaderTxView {
    pub tx: TransactionView,
    pub enforce_compression: bool,
    pub compressed_bytecodes: Seq<CompressedBytecodeView>,
}

impl View for BootloaderTx {
    type V = BootloaderTxView;

    open spec fn view(&self) -> BootloaderTxView {
        BootloaderTxView {
            tx: self.tx@,
            enforce_compression: self.enforce_compression,
            compressed_bytecodes: self.compressed_bytecodes@.map_values(
                |info: CompressedBytecodeInfo| info@,
            ),
        }
    }
}

/// One entry of the batch's sequence.
#[derive(Debug)]
pub enum BootloaderItem {
    Block(L2BlockEnv),
    Tx(BootloaderTx),
}

pub enum BootloaderItemView {
    Block(L2BlockEnv),
    Tx(BootloaderTxView),
}

impl View for BootloaderItem {
    type V = BootloaderItemView;

    open spec fn view(&self) -> BootloaderItemView {
        match self {
            BootloaderItem::Block(block) => BootloaderItemView::Block(*block),
            BootloaderItem::Tx(tx) => BootloaderItemView::Tx(tx@),
        }
    }
}

/// Where the bootloader stands: how long the sequence is, how much of it has
/// been run, and how many transactions were among that.
#[derive(Clone, Copy, Debug, PartialEq, Eq, Structural)]
pub struct BootloaderCursor {
    pub items: usize,
    pub next: usize,
    pub executed: usize,
}

/// A cursor, in numbers without bound.
pub struct BootloaderCursorView {
    pub items: nat,
    pub next: nat,
    pub executed: nat,
}

impl BootloaderCursorView {
    pub open spec fn wf(self) -> bool {
        self.executed <= self.next <= self.items
    }
}

impl View for BootloaderCursor {
    type V = BootloaderCursorView;

    open spec fn view(&self) -> BootloaderCursorView {
        BootloaderCursorView {
            items: self.items as nat,
            next: self.next as nat,
            executed: self.executed as nat,
        }
    }
}

/// What the bootloader state is, to its users.
pub struct BootloaderView {
    pub items: Seq<BootloaderItemView>,
    pub next: nat,
    pub executed: nat,
}

/// The position of the first transaction at or after `from`, if any.
pub open spec fn next_tx_from(items: Seq<BootloaderItemView>, from: int) -> Option<int>
    decreases items.len() - from,
{
    if from < 0 || from >= items.len() {
        None
    } else if items[from] is Tx {
        Some(from)
    } else {
        next_tx_from(items, from + 1)
    }
}

/// The latest transaction of the sequence, if any.
pub open spec fn last_tx(items: Seq<BootloaderItemView>) -> Option<BootloaderTxView>
    decreases items.len(),
{
    if items.len() == 0 {
        None
    } else {
        match items.last() {
            BootloaderItemView::Tx(tx) => Some(tx),
            BootloaderItemView::Block(_) => last_tx(items.drop_last()),
        }
    }
}

pub open spec fn encode_instruction(instruction: Instruction) -> Seq<u64> {
    match instruction {
        Instruction::Invalid => seq![0u64, 0u64, 0u64, 0u64],
        Instruction::Read { key } => seq![1u64, key.address, key.slot, 0u64],
        Instruction::Write { key, value } => seq![2u64, key.address, key.slot, value],
        Instruction::Emit { address, topic, value } => seq![3u64, address, topic, value],
        Instruction::SendMessage { message_key, value } => seq![4u64, message_key, value, 0u64],
        Instruction::Call => seq![5u64, 0u64, 0u64, 0u64],
        Instruction::Return { value } => seq![6u64, value, 0u64, 0u64],
        Instruction::Revert { value } => seq![7u64, value, 0u64, 0u64],
    }
}

pub open spec fn encode_program(program: Seq<Instruction>) -> Seq<u64>
    decreases program.len(),
{
    if program.len() == 0 {
        Seq::empty()
    } else {
        encode_program(program.drop_last()) + encode_instruction(program.last())
    }
}

pub open spec fn encode_header(entry: BootloaderTxView) -> Seq<u64> {
    seq![
        TX_TAG,
        entry.tx.initiator,
        entry.tx.contract,
        entry.tx.value,
        entry.tx.gas_limit as u64,
        entry.tx.max_fee_per_gas,
        entry.tx.program.len() as u64,
        if entry.enforce_compression {
            1u64
        } else {
            0u64
        },
    ]
}

pub open spec fn encode_item(item: BootloaderItemView) -> Seq<u64> {
    match item {
        BootloaderItemView::Block(block) => seq![BLOCK_TAG, block.number as u64, block.timestamp],
        BootloaderItemView::Tx(entry) => encode_header(entry) + encode_program(entry.tx.program),
    }
}

/// The words of the whole sequence, in its order.
pub open spec fn layout(items: Seq<BootloaderItemView>) -> Seq<u64>
    decreases items.len(),
{
    if items.len() == 0 {
        Seq::empty()
    } else {
        layout(items.drop_last()) + encode_item(items.last())
    }
}

/// Each word with the offset at which it lies.
pub open spec fn with_offsets(words: Seq<u64>) -> Seq<(usize, u64)> {
    Seq::new(words.len(), |i: int| (i as usize, words[i]))
}

/// An encoded transaction takes the words that `encoded_words` counts.
pub proof fn lemma_encoded_words(entry: BootloaderTxView)
    ensures
        encode_item(BootloaderItemView::Tx(entry)).len() == entry.tx.encoded_words(),
{
    lemma_program_words(entry.tx.program);
}

proof fn lemma_program_words(program: Seq<Instruction>)
    ensures
        encode_program(program).len() == 4 * program.len(),
    decreases program.len(),
{
    if program.len() > 0 {
        lemma_program_words(program.drop_last());
    }
}

fn encode_into(words: &mut Vec<u64>, instruction: &Instruction)
    ensures
        final(words)@ == old(words)@ + encode_instruction(*instruction),
{
    let (a, b, c, d): (u64, u64, u64, u64) = match instruction {
        Instruction::Invalid => (0, 0, 0, 0),
        Instruction::Read { key } => (1, key.address, key.slot, 0),
        Instruction::Write { key, value } => (2, key.address, key.slot, *value),
        Instruction::Emit { address, topic, value } => (3, *address, *topic, *value),
        Instruction::SendMessage { message_key, value } => (4, *message_key, *value, 0),
        Instruction::Call => (5, 0, 0, 0),
        Instruction::Return { value } => (6, *value, 0, 0),
        Instruction::Revert { value } => (7, *value, 0, 0),
    };
    words.push(a);
    words.push(b);
    words.push(c);
    words.push(d);
}

fn encode_item_into(words: &mut Vec<u64>, item: &BootloaderItem)
    ensures
        final(words)@ == old(words)@ + encode_item(item@),
{
    match item {
        BootloaderItem::Block(block) => {
            words.push(BLOCK_TAG);
            words.push(block.number as u64);
            words.push(block.timestamp);
        },
        BootloaderItem::Tx(entry) => {
            words.push(TX_TAG);
            words.push(entry.tx.initiator);
            words.push(entry.tx.contract);
            words.push(entry.tx.value);
            words.push(entry.tx.gas_limit as u64);
            words.push(entry.tx.max_fee_per_gas);
            words.push(entry.tx.program.len() as u64);
            words.push(
                if entry.enforce_compression {
                    1
                } else {
                    0
                },
            );
            let ghost start = words@;
            let mut i: usize = 0;
            while i < entry.tx.program.len()
                invariant
                    i <= entry.tx.program.len(),
                    words@ == start + encode_program(entry.tx.program@.take(i as int)),
                decreases entry.tx.program.len() - i,
            {
                encode_into(words, &entry.tx.program[i]);
                proof {
                    let program = entry.tx.program@;
                    assert(program.take(i + 1).drop_last() =~= program.take(i as int));
                }
                i = i + 1;
            }
            proof {
                assert(entry.tx.program@.take(i as int) =~= entry.tx.program@);
            }
        },
    }
}

/// Sequences the blocks and transactions of one batch.
pub struct BootloaderState {
    items: Vec<BootloaderItem>,
    next: usize,
    executed: usize,
}

impl View for BootloaderState {
    type V = BootloaderView;

    closed spec fn view(&self) -> BootloaderView {
        BootloaderView {
            items: self.items@.map_values(|item: BootloaderItem| item@),
            next: self.next as nat,
            executed: self.executed as nat,
        }
    }
}

impl BootloaderView {
    pub open spec fn wf(self) -> bool {
        self.executed <= self.next <= self.items.len()
    }

    /// The position of the next transaction to run, if one is pending.
    pub open spec fn pending(self) -> Option<int> {
        next_tx_from(self.items, self.next as int)
    }

    pub open spec fn with_item(self, item: BootloaderItemView) -> BootloaderView {
        BootloaderView { items: self.items.push(item), ..self }
    }

    /// The state after the transaction at `index` has been run.
    pub open spec fn after_tx(self, index: int) -> BootloaderView {
        BootloaderView { next: (index + 1) as nat, executed: self.executed + 1, ..self }
    }
}

impl BootloaderState {
    /// The state at the start of a batch: its first block is open.
    pub fn new(first_block: L2BlockEnv) -> (state: Self)
        ensures
            state@.wf(),
            state@.items == seq![BootloaderItemView::Block(first_block)],
            state@.next == 1,
            state@.executed == 0,
    {
        let mut items: Vec<BootloaderItem> = Vec::new();
        items.push(BootloaderItem::Block(first_block));
        let state = BootloaderState { items, next: 1, executed: 0 };
        state
    }

    /// Appends a transaction to the sequence.
    pub fn push_tx(
        &mut self,
        tx: Transaction,
        enforce_compression: bool,
        compressed_bytecodes: Vec<CompressedBytecodeInfo>,
    )
        requires
            old(self)@.wf(),
        ensures
            final(self)@.wf(),
            final(self)@ == old(self)@.with_item(
                BootloaderItemView::Tx(
                    BootloaderTxView {
                        tx: tx@,
                        enforce_compression,
                        compressed_bytecodes: compressed_bytecodes@.map_values(
                            |info: CompressedBytecodeInfo| info@,
                        ),
                    },
                ),
            ),
    {
        let item = BootloaderItem::Tx(BootloaderTx { tx, enforce_compression, compressed_bytecodes });
        proof {
            assert(self.items@.push(item).map_values(|item: BootloaderItem| item@)
                =~= self.items@.map_values(|item: BootloaderItem| item@).push(item@));
        }
        self.items.push(item);
    }

    /// Closes the current block and opens `block`.
    pub fn start_new_l2_block(&mut self, block: L2BlockEnv)
        requires
            old(self)@.wf(),
        ensures
            final(self)@.wf(),
            final(self)@ == old(self)@.with_item(BootloaderItemView::Block(block)),
    {
        let item = BootloaderItem::Block(block);
        proof {
            assert(self.items@.push(item).map_values(|item: BootloaderItem| item@)
                =~= self.items@.map_values(|item: BootloaderItem| item@).push(item@));
        }
        self.items.push(item);
    }

    /// The position of the next transaction to run, if one is pending.
    pub fn pending_tx(&self) -> (found: Option<usize>)
        requires
            self@.wf(),
        ensures
            match found {
                Some(index) => self@.pending() == Some(index as int),
                None => self@.pending() is None,
            },
            found matches Some(index) ==> self@.next <= index < self@.items.len()
                && self@.items[index as int] is Tx,
    {
        let mut i: usize = self.next;
        while i < self.items.len()
            invariant
                self.next <= i <= self.items.len(),
                self@.pending() == next_tx_from(self@.items, i as int),
            decreases self.items.len() - i,
        {
            match &self.items[i] {
                BootloaderItem::Tx(_) => {
                    return Some(i);
                },
                BootloaderItem::Block(_) => {},
            }
            i = i + 1;
        }
        None
    }

    /// The transaction at `index`, if there is one.
    pub fn tx_at(&self, index: usize) -> (entry: Option<&BootloaderTx>)
        ensures
            match entry {
                Some(tx) => index < self@.items.len() && self@.items[index as int]
                    == BootloaderItemView::Tx(tx@),
                None => index >= self@.items.len() || self@.items[index as int] is Block,
            },
    {
        if index >= self.items.len() {
            return None;
        }
        match &self.items[index] {
            BootloaderItem::Tx(entry) => Some(entry),
            BootloaderItem::Block(_) => None,
        }
    }

    /// Records that the pending transaction at `index` has been run.
    pub fn mark_executed(&mut self, index: usize)
        requires
            old(self)@.wf(),
            old(self)@.pending() == Some(index as int),
        ensures
            final(self)@.wf(),
            final(self)@ == old(self)@.after_tx(index as int),
    {
        proof {
            lemma_pending_in_range(self@.items, self@.next as int);
        }
        let count: usize = self.items.len();
        assert(index < count);
        self.next = index + 1;
        self.executed = self.executed + 1;
    }

    /// How many transactions have been run.
    pub fn executed_txs(&self) -> (count: usize)
        ensures
            count == self@.executed,
    {
        self.executed
    }

    /// Where the bootloader stands.
    pub fn cursor(&self) -> (cursor: BootloaderCursor)
        ensures
            cursor.items == self@.items.len(),
            cursor.next == self@.next,
            cursor.executed == self@.executed,
    {
        BootloaderCursor { items: self.items.len(), next: self.next, executed: self.executed }
    }

    /// Goes back to `cursor`: what was appended after it is dropped.
    pub fn rewind(&mut self, cursor: BootloaderCursor)
        requires
            cursor@.wf(),
            cursor.items <= old(self)@.items.len(),
        ensures
            final(self)@.wf(),
            final(self)@.items == old(self)@.items.take(cursor.items as int),
            final(self)@.next == cursor.next,
            final(self)@.executed == cursor.executed,
    {
        self.items.truncate(cursor.items);
        self.next = cursor.next;
        self.executed = cursor.executed;
    }

    /// The compressed bytecodes accepted with the latest transaction; none if
    /// there is no transaction.
    pub fn get_last_tx_compressed_bytecodes(&self) -> (bytecodes: Vec<CompressedBytecodeInfo>)
        ensures
            bytecodes@.map_values(|info: CompressedBytecodeInfo| info@) == match last_tx(
                self@.items,
            ) {
                Some(entry) => entry.compressed_bytecodes,
                None => Seq::empty(),
            },
    {
        let mut i: usize = self.items.len();
        proof {
            assert(self@.items.take(i as int) =~= self@.items);
        }
        while i > 0
            invariant
                i <= self.items.len(),
                last_tx(self@.items) == last_tx(self@.items.take(i as int)),
            decreases i,
        {
            proof {
                assert(self@.items.take(i as int).drop_last() =~= self@.items.take(i - 1));
            }
            match &self.items[i - 1] {
                BootloaderItem::Tx(entry) => {
                    return copy_bytecodes(&entry.compressed_bytecodes);
                },
                BootloaderItem::Block(_) => {},
            }
            i = i - 1;
        }
        let none: Vec<CompressedBytecodeInfo> = Vec::new();
        none
    }

    /// The memory that the interpreter consumes: the words of the sequence,
    /// each with its offset.
    pub fn bootloader_memory(&self) -> (memory: Vec<(usize, u64)>)
        ensures
            memory@ == with_offsets(layout(self@.items)),
    {
        let mut words: Vec<u64> = Vec::new();
        let mut i: usize = 0;
        while i < self.items.len()
            invariant
                i <= self.items.len(),
                words@ == layout(self@.items.take(i as int)),
            decreases self.items.len() - i,
        {
            encode_item_into(&mut words, &self.items[i]);
            proof {
                assert(self@.items.take(i + 1).drop_last() =~= self@.items.take(i as int));
            }
            i = i + 1;
        }
        proof {
            assert(self@.items.take(i as int) =~= self@.items);
        }
        let mut memory: Vec<(usize, u64)> = Vec::new();
        let mut offset: usize = 0;
        while offset < words.len()
            invariant
                offset <= words.len(),
                memory@ == with_offsets(words@.take(offset as int)),
            decreases words.len() - offset,
        {
            memory.push((offset, words[offset]));
            offset = offset + 1;
        }
        memory
    }
}

/// If a transaction is pending, it lies in the part of the sequence that has
/// not been run.
pub proof fn lemma_pending_in_range(items: Seq<BootloaderItemView>, from: int)
    requires
        0 <= from,
    ensures
        next_tx_from(items, from) matches Some(index) ==> from <= index < items.len()
            && items[index] is Tx,
    decreases items.len() - from,
{
    if from < items.len() && !(items[from] is Tx) {
        lemma_pending_in_range(items, from + 1);
    }
}

/// A copy of compressed bytecodes.
pub fn copy_bytecodes(bytecodes: &Vec<CompressedBytecodeInfo>) -> (copy: Vec<
    CompressedBytecodeInfo,
>)
    ensures
        copy@.map_values(|info: CompressedBytecodeInfo| info@) == bytecodes@.map_values(
            |info: CompressedBytecodeInfo| info@,
        ),
{
    let mut copy: Vec<CompressedBytecodeInfo> = Vec::new();
    let mut i: usize = 0;
    while i < bytecodes.len()
        invariant
            i <= bytecodes.len(),
            copy@.len() == i,
            forall|j: int| 0 <= j < i ==> (#[trigger] copy@[j])@ == bytecodes@[j]@,
        decreases bytecodes.len() - i,
    {
        let info = &bytecodes[i];
        copy.push(CompressedBytecodeInfo { hash: info.hash, compressed: info.compressed.clone() });
        i = i + 1;
    }
    copy
}

} // verus!
