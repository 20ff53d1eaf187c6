//! The columns of the copy circuit, and the constraints on them.
use vstd::prelude::*;
use halo2_axiom::plonk::Selector;
use crate::copy_event::{CopyDataType, PrecompileCalls};
use crate::expression::{AdviceColumn, Expr, FixedColumn, Phase, Trace};
use crate::less_than::LtConfig;
use crate::prime::{is_bit, is_zero, same};
use crate::table::{
    exprs_fit, exprs_near, BytecodeTable, Challenges, CopyTable, RwTable, TxTable,
};

verus! {

/// The columns of the copy circuit.
#[derive(Debug)]
pub struct CopyCircuitConfig {
    /// Whether this row denotes a step. A read row is a step and a write row is not.
    pub q_step: Selector,
    /// Whether the row is the last read-write pair for a copy event.
    pub is_last: AdviceColumn,
    /// The value copied in this copy step.
    pub value: AdviceColumn,
    /// The word value for memory lookup.
    pub value_word_rlc: AdviceColumn,
    /// The word value for memory lookup, before the write.
    pub value_word_rlc_prev: AdviceColumn,
    /// The index of the current byte within a word, from 0 to 31.
    pub word_index: AdviceColumn,
    /// Random linear combination of the read value.
    pub rlc_acc_read: AdviceColumn,
    /// Random linear combination of the write value.
    pub rlc_acc_write: AdviceColumn,
    /// Whether the row is not part of the copy, but needed to complete the front or the back of
    /// the first or last memory word.
    pub mask: AdviceColumn,
    /// Whether the row is part of the front mask, before the copy data.
    pub front_mask: AdviceColumn,
    /// Random linear combination accumulator value.
    pub value_acc: AdviceColumn,
    /// Whether the row is padding for out-of-bound reads, where the source address is at or
    /// beyond the end of the source.
    pub is_pad: AdviceColumn,
    /// For a bytecode tag, whether the copied byte is an opcode or push data.
    pub is_code: AdviceColumn,
    /// Whether the row copies bytes to or from a precompiled contract.
    pub is_precompiled: AdviceColumn,
    /// Whether the row is of the data type of call data.
    pub is_tx_calldata: AdviceColumn,
    /// Whether the row is of the data type of bytecode.
    pub is_bytecode: AdviceColumn,
    /// Whether the row is of the data type of memory.
    pub is_memory: AdviceColumn,
    /// Whether the row is of the data type of logs.
    pub is_tx_log: AdviceColumn,
    /// Whether the row is enabled or not.
    pub q_enable: FixedColumn,
    /// The columns that other circuits look up.
    pub copy_table: CopyTable,
    /// Whether the source address is below the end of the source. Both are numbers of eight
    /// bytes.
    pub addr_lt_addr_end: LtConfig,
    /// Whether this row is a continuation of a word, that is not its last byte.
    pub is_word_continue: LtConfig,
    /// Whether the row is neither padding nor masked.
    pub non_pad_non_mask: LtConfig,
    /// The table of transactions.
    pub tx_table: TxTable,
    /// The table of reads and writes.
    pub rw_table: RwTable,
    /// The table of bytecodes.
    pub bytecode_table: BytecodeTable,
}

/// The advice column at a place.
pub open spec fn column(index: nat, phase: Phase) -> AdviceColumn {
    AdviceColumn { index: index as usize, phase }
}

/// The phases of the columns that the copy circuit allocates.
pub open spec fn copy_circuit_phases() -> Seq<Phase> {
    Seq::new(
        30,
        |k: int|
            if 1 <= k <= 6 {
                Phase::Second
            } else {
                Phase::First
            },
    )
}

/// What the copy circuit is configured with.
#[derive(Debug)]
pub struct CopyCircuitConfigArgs {
    /// The table of transactions.
    pub tx_table: TxTable,
    /// The table of reads and writes.
    pub rw_table: RwTable,
    /// The table of bytecodes.
    pub bytecode_table: BytecodeTable,
    /// The copy table.
    pub copy_table: CopyTable,
    /// The column that enables rows.
    pub q_enable: FixedColumn,
    /// A fixed column that holds the values of a byte.
    pub u8_table: FixedColumn,
    /// The challenges of the proof.
    pub challenges: Challenges,
}

impl CopyCircuitConfigArgs {
    /// Every column of the arguments is among the first `n` advice columns, and the bytecode
    /// table has as many columns as are looked up in it.
    pub open spec fn valid(self, n: nat) -> bool {
        &&& self.copy_table.within(n)
        &&& exprs_fit(self.tx_table.table_exprs@, n)
        &&& exprs_fit(self.rw_table.table_exprs@, n)
        &&& exprs_fit(self.bytecode_table.table_exprs@, n)
        &&& self.challenges.keccak_input.fits(n)
        &&& self.bytecode_table.table_exprs@.len() == 6
    }

    /// Every expression of the arguments refers to cells in the current row and the next two
    /// only.
    pub open spec fn near(self) -> bool {
        &&& exprs_near(self.tx_table.table_exprs@)
        &&& exprs_near(self.rw_table.table_exprs@)
        &&& exprs_near(self.bytecode_table.table_exprs@)
        &&& self.challenges.keccak_input.near()
    }
}

impl Clone for CopyCircuitConfig {
    fn clone(&self) -> (r: CopyCircuitConfig)
        ensures
            r.same_as(*self),
    {
        CopyCircuitConfig {
            q_step: self.q_step,
            is_last: self.is_last,
            value: self.value,
            value_word_rlc: self.value_word_rlc,
            value_word_rlc_prev: self.value_word_rlc_prev,
            word_index: self.word_index,
            rlc_acc_read: self.rlc_acc_read,
            rlc_acc_write: self.rlc_acc_write,
            mask: self.mask,
            front_mask: self.front_mask,
            value_acc: self.value_acc,
            is_pad: self.is_pad,
            is_code: self.is_code,
            is_precompiled: self.is_precompiled,
            is_tx_calldata: self.is_tx_calldata,
            is_bytecode: self.is_bytecode,
            is_memory: self.is_memory,
            is_tx_log: self.is_tx_log,
            q_enable: self.q_enable,
            copy_table: self.copy_table.clone(),
            addr_lt_addr_end: self.addr_lt_addr_end.clone(),
            is_word_continue: self.is_word_continue.clone(),
            non_pad_non_mask: self.non_pad_non_mask.clone(),
            tx_table: self.tx_table.clone(),
            rw_table: self.rw_table.clone(),
            bytecode_table: self.bytecode_table.clone(),
        }
    }
}

impl CopyCircuitConfig {
    /// The two have the same columns and tables.
    pub open spec fn same_as(self, other: CopyCircuitConfig) -> bool {
        &&& self.q_step == other.q_step
        &&& self.is_last == other.is_last
        &&& self.value == other.value
        &&& self.value_word_rlc == other.value_word_rlc
        &&& self.value_word_rlc_prev == other.value_word_rlc_prev
        &&& self.word_index == other.word_index
        &&& self.rlc_acc_read == other.rlc_acc_read
        &&& self.rlc_acc_write == other.rlc_acc_write
        &&& self.mask == other.mask
        &&& self.front_mask == other.front_mask
        &&& self.value_acc == other.value_acc
        &&& self.is_pad == other.is_pad
        &&& self.is_code == other.is_code
        &&& self.is_precompiled == other.is_precompiled
        &&& self.is_tx_calldata == other.is_tx_calldata
        &&& self.is_bytecode == other.is_bytecode
        &&& self.is_memory == other.is_memory
        &&& self.is_tx_log == other.is_tx_log
        &&& self.q_enable == other.q_enable
        &&& self.copy_table.same_as(other.copy_table)
        &&& self.addr_lt_addr_end.same_as(other.addr_lt_addr_end)
        &&& self.is_word_continue.same_as(other.is_word_continue)
        &&& self.non_pad_non_mask.same_as(other.non_pad_non_mask)
        &&& self.tx_table.same_as(other.tx_table)
        &&& self.rw_table.same_as(other.rw_table)
        &&& self.bytecode_table.same_as(other.bytecode_table)
    }

    /// Whether every column is among the first `n` advice columns.
    pub open spec fn within(self, n: nat) -> bool {
        &&& self.is_last.index < n
        &&& self.value.index < n
        &&& self.value_word_rlc.index < n
        &&& self.value_word_rlc_prev.index < n
        &&& self.word_index.index < n
        &&& self.rlc_acc_read.index < n
        &&& self.rlc_acc_write.index < n
        &&& self.mask.index < n
        &&& self.front_mask.index < n
        &&& self.value_acc.index < n
        &&& self.is_pad.index < n
        &&& self.is_code.index < n
        &&& self.is_precompiled.index < n
        &&& self.is_tx_calldata.index < n
        &&& self.is_bytecode.index < n
        &&& self.is_memory.index < n
        &&& self.is_tx_log.index < n
        &&& self.copy_table.within(n)
        &&& self.addr_lt_addr_end.within(n)
        &&& self.is_word_continue.within(n)
        &&& self.non_pad_non_mask.within(n)
        &&& exprs_fit(self.tx_table.table_exprs@, n)
        &&& exprs_fit(self.rw_table.table_exprs@, n)
        &&& exprs_fit(self.bytecode_table.table_exprs@, n)
    }

    /// The columns were allocated one after the other, the first of them as the `n`-th.
    pub open spec fn laid_out(self, n: nat) -> bool {
        &&& self.is_last == column(n, Phase::First)
        &&& self.value == column(n + 1, Phase::Second)
        &&& self.value_word_rlc == column(n + 2, Phase::Second)
        &&& self.value_word_rlc_prev == column(n + 3, Phase::Second)
        &&& self.rlc_acc_read == column(n + 4, Phase::Second)
        &&& self.rlc_acc_write == column(n + 5, Phase::Second)
        &&& self.value_acc == column(n + 6, Phase::Second)
        &&& self.is_code == column(n + 7, Phase::First)
        &&& self.is_precompiled == column(n + 8, Phase::First)
        &&& self.is_tx_calldata == column(n + 9, Phase::First)
        &&& self.is_bytecode == column(n + 10, Phase::First)
        &&& self.is_memory == column(n + 11, Phase::First)
        &&& self.is_tx_log == column(n + 12, Phase::First)
        &&& self.is_pad == column(n + 13, Phase::First)
        &&& self.word_index == column(n + 14, Phase::First)
        &&& self.mask == column(n + 15, Phase::First)
        &&& self.front_mask == column(n + 16, Phase::First)
        &&& self.addr_lt_addr_end.diff@.len() == 8
        &&& self.addr_lt_addr_end.laid_out(n + 17)
        &&& self.is_word_continue.diff@.len() == 1
        &&& self.is_word_continue.laid_out(n + 26)
        &&& self.non_pad_non_mask.diff@.len() == 1
        &&& self.non_pad_non_mask.laid_out(n + 28)
        &&& n + 29 <= usize::MAX
    }

    /// The cell of an advice column.
    pub open spec fn cell(t: Trace, column: AdviceColumn, row: int) -> int {
        (t.advice)(column, row)
    }

    /// Whether a row is enabled.
    pub open spec fn enabled(self, t: Trace, row: int, p: int) -> bool {
        !is_zero((t.fixed)(self.q_enable, row), p)
    }

    /// The selector of read rows.
    pub open spec fn step(self, t: Trace, row: int) -> int {
        (t.selector)(self.q_step, row)
    }

    /// One where neither this row nor the next is the last of a copy event.
    pub open spec fn not_last_two_rows(self, t: Trace, row: int) -> int {
        1 - Self::cell(t, self.is_last, row) - Self::cell(t, self.is_last, row + 1)
    }

    /// The row is the last byte of a word or not, by its comparison bit.
    pub open spec fn continues(self, t: Trace, row: int) -> int {
        Self::cell(t, self.is_word_continue.lt, row)
    }

    /// The row is neither padding nor masked, by its comparison bit.
    pub open spec fn plain(self, t: Trace, row: int) -> int {
        Self::cell(t, self.non_pad_non_mask.lt, row)
    }

    /// The indicator that a row is tagged with a data type.
    pub open spec fn tagged(self, data_type: CopyDataType, t: Trace, row: int) -> int {
        self.copy_table.tag.indicator(data_type.spec_code(), t, row)
    }

    /// The indicator that a row is tagged with a precompiled contract: the sum of the indicators
    /// of the contracts.
    pub open spec fn tagged_precompile(self, t: Trace, row: int) -> int {
        self.tagged(CopyDataType::Precompile(PrecompileCalls::Ecrecover), t, row) + self.tagged(
            CopyDataType::Precompile(PrecompileCalls::Sha256),
            t,
            row,
        ) + self.tagged(CopyDataType::Precompile(PrecompileCalls::Ripemd160), t, row)
            + self.tagged(CopyDataType::Precompile(PrecompileCalls::Identity), t, row)
            + self.tagged(CopyDataType::Precompile(PrecompileCalls::Modexp), t, row) + self.tagged(
            CopyDataType::Precompile(PrecompileCalls::Bn128Add),
            t,
            row,
        ) + self.tagged(CopyDataType::Precompile(PrecompileCalls::Bn128Mul), t, row) + self.tagged(
            CopyDataType::Precompile(PrecompileCalls::Bn128Pairing),
            t,
            row,
        ) + self.tagged(CopyDataType::Precompile(PrecompileCalls::Blake2F), t, row)
    }

    /// What the custom gate of the comparison of the source address with the end of the source
    /// states.
    pub open spec fn addr_compared(self, t: Trace, row: int, p: int) -> Seq<(Seq<char>, bool)> {
        self.addr_lt_addr_end.compared(
            Expr::Selector(self.q_step),
            Expr::Advice(self.copy_table.addr, 0),
            Expr::Advice(self.copy_table.src_addr_end, 0),
            t,
            row,
            p,
        )
    }

    /// What the custom gate of the comparison of the word index with the last index states.
    pub open spec fn word_index_compared(self, t: Trace, row: int, p: int) -> Seq<
        (Seq<char>, bool),
    > {
        self.is_word_continue.compared(
            Expr::Selector(self.q_step),
            Expr::Advice(self.word_index, 0),
            Expr::Constant(31),
            t,
            row,
            p,
        )
    }

    /// What the custom gate of the comparison of the markers of padding and masks with one states.
    pub open spec fn pad_and_mask_compared(self, t: Trace, row: int, p: int) -> Seq<
        (Seq<char>, bool),
    > {
        self.non_pad_non_mask.compared(
            Expr::Selector(self.q_step),
            Expr::Sum(
                Box::new(Expr::Advice(self.is_pad, 0)),
                Box::new(Expr::Advice(self.mask, 0)),
            ),
            Expr::Constant(1),
            t,
            row,
            p,
        )
    }

    /// What the custom gate "decode tag" states of a row: the columns for the data types say what
    /// the tag is.
    pub open spec fn decode_tag(self, t: Trace, row: int, p: int) -> Seq<(Seq<char>, bool)> {
        let on = self.enabled(t, row, p);
        seq![
            (
                ""@,
                on ==> same(
                    Self::cell(t, self.is_precompiled, row),
                    self.tagged_precompile(t, row),
                    p,
                ),
            ),
            (
                ""@,
                on ==> same(
                    Self::cell(t, self.is_tx_calldata, row),
                    self.tagged(CopyDataType::TxCalldata, t, row),
                    p,
                ),
            ),
            (
                ""@,
                on ==> same(
                    Self::cell(t, self.is_bytecode, row),
                    self.tagged(CopyDataType::Bytecode, t, row),
                    p,
                ),
            ),
            (
                ""@,
                on ==> same(
                    Self::cell(t, self.is_memory, row),
                    self.tagged(CopyDataType::Memory, t, row),
                    p,
                ),
            ),
            (
                ""@,
                on ==> same(
                    Self::cell(t, self.is_tx_log, row),
                    self.tagged(CopyDataType::TxLog, t, row),
                    p,
                ),
            ),
        ]
    }

    /// What the custom gate "verify row" states of a row.
    pub open spec fn verify_row(self, t: Trace, row: int, p: int) -> Seq<(Seq<char>, bool)> {
        let ct = self.copy_table;
        let on = self.enabled(t, row, p);
        let is_last = Self::cell(t, self.is_last, row);
        let inner = !is_zero(self.not_last_two_rows(t, row), p);
        let plain = !is_zero(self.plain(t, row), p);
        let continues = !is_zero(self.continues(t, row), p);
        let ends = !is_zero(1 - self.continues(t, row), p);
        let rw_counter = Self::cell(t, ct.rw_counter, row);
        let rw_counter_next = Self::cell(t, ct.rw_counter, row + 1);
        seq![
            ("is_first is boolean"@, on ==> is_bit(Self::cell(t, ct.is_first, row), p)),
            ("is_last is boolean"@, on ==> is_bit(is_last, p)),
            ("mask is boolean"@, on ==> is_bit(Self::cell(t, self.mask, row), p)),
            ("front_mask is boolean"@, on ==> is_bit(Self::cell(t, self.front_mask, row), p)),
            (
                "is_first == 0 when q_step == 0"@,
                on && !is_zero(1 - self.step(t, row), p) ==> is_zero(
                    Self::cell(t, ct.is_first, row),
                    p,
                ),
            ),
            (
                "is_last == 0 when q_step == 1"@,
                on && !is_zero(self.step(t, row), p) ==> is_zero(is_last, p),
            ),
            (
                "word_index[0] + 1 == word_index[2]"@,
                on && continues && inner && plain ==> same(
                    Self::cell(t, self.word_index, row) + 1,
                    Self::cell(t, self.word_index, row + 2),
                    p,
                ),
            ),
            (
                "word_index[0] == 31"@,
                on && ends && inner && plain ==> same(
                    Self::cell(t, self.word_index, row),
                    31,
                    p,
                ),
            ),
            (
                "word_index[2] == 0"@,
                on && ends && inner && plain ==> same(
                    Self::cell(t, self.word_index, row + 2),
                    0,
                    p,
                ),
            ),
            (
                "rows[0].rw_counter + rows[0].rwc_inc_left == rows[1].rw_counter + rows[1].rwc_inc_left"@,
                on && !is_zero(1 - is_last, p) && plain ==> same(
                    rw_counter + Self::cell(t, ct.rwc_inc_left, row),
                    rw_counter_next + Self::cell(t, ct.rwc_inc_left, row + 1),
                    p,
                ),
            ),
            (
                "rows[0].rw_counter + diff == rows[1].rw_counter"@,
                on && continues && inner && plain ==> same(
                    rw_counter + (Self::cell(t, self.is_memory, row) * Self::cell(
                        t,
                        self.is_memory,
                        row + 1,
                    )) * (2 * self.step(t, row) - 1),
                    rw_counter_next,
                    p,
                ),
            ),
            (
                "rows[0].rw_counter + 1 == rows[1].rw_counter"@,
                on && !is_zero(
                    1 - (Self::cell(t, self.is_tx_calldata, row) + Self::cell(
                        t,
                        self.is_bytecode,
                        row,
                    )),
                    p,
                ) && ends && !is_zero(1 - is_last, p) && !is_zero(1 - self.step(t, row), p)
                    && plain ==> same(rw_counter + 1, rw_counter_next, p),
            ),
            (
                "rows[0].addr + 1 == rows[2].addr"@,
                on && inner ==> same(
                    Self::cell(t, ct.addr, row) + (1 - Self::cell(t, self.front_mask, row)),
                    Self::cell(t, ct.addr, row + 2),
                    p,
                ),
            ),
            (
                "rows[0].id == rows[2].id"@,
                on && inner && plain ==> same(
                    Self::cell(t, ct.id, row),
                    Self::cell(t, ct.id, row + 2),
                    p,
                ),
            ),
            (
                "rows[0].tag == rows[2].tag"@,
                on && inner && plain ==> same(ct.tag.number(t, row), ct.tag.number(t, row + 2), p),
            ),
            (
                "rows[0].src_addr_end == rows[2].src_addr_end for non-last step"@,
                on && inner && plain ==> same(
                    Self::cell(t, ct.src_addr_end, row),
                    Self::cell(t, ct.src_addr_end, row + 2),
                    p,
                ),
            ),
            (
                "rows[0].rlc_acc == rows[1].rlc_acc"@,
                on && !is_zero(1 - is_last, p) ==> same(
                    Self::cell(t, ct.rlc_acc, row),
                    Self::cell(t, ct.rlc_acc, row + 1),
                    p,
                ),
            ),
        ]
    }

    /// What a gate on the last pair of rows states of the accumulator: where `case` is not zero,
    /// it is the random linear combination of the copied bytes.
    pub open spec fn last_value_acc(self, case: int, t: Trace, row: int, p: int) -> Seq<
        (Seq<char>, bool),
    > {
        seq![
            (
                "value_acc == rlc_acc on the last row"@,
                self.enabled(t, row, p) && !is_zero(Self::cell(t, self.is_last, row + 1), p)
                    && !is_zero(case, p) ==> same(
                    Self::cell(t, self.value_acc, row + 1),
                    Self::cell(t, self.copy_table.rlc_acc, row + 1),
                    p,
                ),
            ),
        ]
    }

    /// Bytes are copied to or from a precompiled contract.
    pub open spec fn precompile_case(self, t: Trace, row: int) -> int {
        1 - (1 - Self::cell(t, self.is_precompiled, row)) * (1 - Self::cell(
            t,
            self.is_precompiled,
            row + 1,
        ))
    }

    /// Bytes are copied from memory to bytecode.
    pub open spec fn memory_to_bytecode_case(self, t: Trace, row: int) -> int {
        Self::cell(t, self.is_memory, row) * Self::cell(t, self.is_bytecode, row + 1)
    }

    /// Bytes are copied from call data to bytecode.
    pub open spec fn tx_calldata_to_bytecode_case(self, t: Trace, row: int) -> int {
        Self::cell(t, self.is_tx_calldata, row) * Self::cell(t, self.is_bytecode, row + 1)
    }

    /// Bytes are copied to an accumulator.
    pub open spec fn rlc_acc_case(self, t: Trace, row: int) -> int {
        self.tagged(CopyDataType::RlcAcc, t, row + 1)
    }

    /// What the custom gate on the last pair of rows states of what was read and written: their
    /// random linear combinations are equal.
    pub open spec fn last_rlc(self, t: Trace, row: int, p: int) -> Seq<(Seq<char>, bool)> {
        seq![
            (
                "rlc_acc_read == rlc_acc_write on the last row"@,
                self.enabled(t, row, p) && !is_zero(Self::cell(t, self.is_last, row + 1), p)
                    ==> same(
                    Self::cell(t, self.rlc_acc_read, row + 1),
                    Self::cell(t, self.rlc_acc_write, row + 1),
                    p,
                ),
            ),
        ]
    }

    /// What the custom gate "verify step" states of a row. `challenge` is the challenge for the
    /// random linear combination of bytes.
    ///
    /// A padded read, one at or beyond the end of the source, reads zero, unless it is masked.
    pub open spec fn verify_step(self, challenge: Expr, t: Trace, row: int, p: int) -> Seq<
        (Seq<char>, bool),
    > {
        let ct = self.copy_table;
        let on = self.enabled(t, row, p) && !is_zero(self.step(t, row), p);
        let last_next = Self::cell(t, self.is_last, row + 1);
        let not_last = !is_zero(1 - Self::cell(t, self.is_last, row), p);
        let not_last_next = !is_zero(1 - last_next, p);
        let is_pad = Self::cell(t, self.is_pad, row);
        let mask = Self::cell(t, self.mask, row);
        seq![
            (
                "bytes_left == 1 for last step"@,
                on && !is_zero(last_next, p) ==> is_zero(
                    1 - Self::cell(t, ct.bytes_left, row),
                    p,
                ),
            ),
            (
                "real_bytes_left == 0 for last step"@,
                on && !is_zero(last_next, p) ==> is_zero(
                    Self::cell(t, ct.real_bytes_left, row + 1),
                    p,
                ),
            ),
            (
                "real_bytes_left[0] == real_bytes_left[2] + !mask"@,
                on && not_last && not_last_next ==> same(
                    Self::cell(t, ct.real_bytes_left, row),
                    Self::cell(t, ct.real_bytes_left, row + 2) + (1 - mask),
                    p,
                ),
            ),
            (
                "real_bytes_left[1] == real_bytes_left[2]"@,
                on && not_last && not_last_next ==> same(
                    Self::cell(t, ct.real_bytes_left, row + 1),
                    Self::cell(t, ct.real_bytes_left, row + 2),
                    p,
                ),
            ),
            (
                "bytes_left == bytes_left_next + 1 for non-last step"@,
                on && not_last_next && !is_zero(self.plain(t, row), p) ==> same(
                    Self::cell(t, ct.bytes_left, row),
                    Self::cell(t, ct.bytes_left, row + 2) + 1,
                    p,
                ),
            ),
            (
                "value_acc is same for read-write rows"@,
                on ==> same(
                    Self::cell(t, self.value_acc, row),
                    Self::cell(t, self.value_acc, row + 1),
                    p,
                ),
            ),
            (
                "value_acc(2) == value_acc(0) * r + value(2)"@,
                on && not_last_next && !is_zero(1 - is_pad, p) && !is_zero(
                    1 - Self::cell(t, self.mask, row + 2),
                    p,
                ) ==> same(
                    Self::cell(t, self.value_acc, row + 2),
                    Self::cell(t, self.value_acc, row) * challenge.eval(t, row) + Self::cell(
                        t,
                        self.value,
                        row + 2,
                    ),
                    p,
                ),
            ),
            (
                "value == 0 when is_pad == 1 for read"@,
                on && !is_zero(1 - mask, p) && !is_zero(is_pad, p) ==> is_zero(
                    Self::cell(t, self.value, row),
                    p,
                ),
            ),
            (
                "is_pad == 1 - (src_addr < src_addr_end) for read row"@,
                on ==> same(1 - Self::cell(t, self.addr_lt_addr_end.lt, row), is_pad, p),
            ),
            (
                "is_pad == 0 for write row"@,
                on ==> is_zero(Self::cell(t, self.is_pad, row + 1), p),
            ),
        ]
    }

    /// What the constraints of the comparison of the source address with the end of the source
    /// evaluate to on a row.
    pub open spec fn addr_compared_values(self, t: Trace, row: int) -> Seq<(Seq<char>, int)> {
        self.addr_lt_addr_end.compared_values(
            Expr::Selector(self.q_step),
            Expr::Advice(self.copy_table.addr, 0),
            Expr::Advice(self.copy_table.src_addr_end, 0),
            t,
            row,
        )
    }

    /// What the constraints of the comparison of the word index with the last index evaluate to
    /// on a row.
    pub open spec fn word_index_compared_values(self, t: Trace, row: int) -> Seq<
        (Seq<char>, int),
    > {
        self.is_word_continue.compared_values(
            Expr::Selector(self.q_step),
            Expr::Advice(self.word_index, 0),
            Expr::Constant(31),
            t,
            row,
        )
    }

    /// What the constraints of the comparison of the markers of padding and masks with one
    /// evaluate to on a row.
    pub open spec fn pad_and_mask_compared_values(self, t: Trace, row: int) -> Seq<
        (Seq<char>, int),
    > {
        self.non_pad_non_mask.compared_values(
            Expr::Selector(self.q_step),
            Expr::Sum(
                Box::new(Expr::Advice(self.is_pad, 0)),
                Box::new(Expr::Advice(self.mask, 0)),
            ),
            Expr::Constant(1),
            t,
            row,
        )
    }

    /// The cell of the column that enables rows.
    pub open spec fn enable(self, t: Trace, row: int) -> int {
        (t.fixed)(self.q_enable, row)
    }

    /// What the constraints of the custom gate "decode tag" evaluate to on a row.
    pub open spec fn decode_tag_values(self, t: Trace, row: int) -> Seq<(Seq<char>, int)> {
        let enable = self.enable(t, row);
        seq![
            (
                ""@,
                enable * (Self::cell(t, self.is_precompiled, row) - self.tagged_precompile(t, row)),
            ),
            (
                ""@,
                enable * (Self::cell(t, self.is_tx_calldata, row) - self.tagged(
                    CopyDataType::TxCalldata,
                    t,
                    row,
                )),
            ),
            (
                ""@,
                enable * (Self::cell(t, self.is_bytecode, row) - self.tagged(
                    CopyDataType::Bytecode,
                    t,
                    row,
                )),
            ),
            (
                ""@,
                enable * (Self::cell(t, self.is_memory, row) - self.tagged(
                    CopyDataType::Memory,
                    t,
                    row,
                )),
            ),
            (
                ""@,
                enable * (Self::cell(t, self.is_tx_log, row) - self.tagged(
                    CopyDataType::TxLog,
                    t,
                    row,
                )),
            ),
        ]
    }

    /// What the constraints of the custom gate "verify row" evaluate to on a row.
    pub open spec fn verify_row_values(self, t: Trace, row: int) -> Seq<(Seq<char>, int)> {
        let ct = self.copy_table;
        let enable = self.enable(t, row);
        let step = self.step(t, row);
        let is_first = Self::cell(t, ct.is_first, row);
        let is_last = Self::cell(t, self.is_last, row);
        let mask = Self::cell(t, self.mask, row);
        let front_mask = Self::cell(t, self.front_mask, row);
        let inner = self.not_last_two_rows(t, row);
        let plain = self.plain(t, row);
        let continues = self.continues(t, row);
        let word_index = Self::cell(t, self.word_index, row);
        let word_index_2 = Self::cell(t, self.word_index, row + 2);
        let rw_counter = Self::cell(t, ct.rw_counter, row);
        let rw_counter_1 = Self::cell(t, ct.rw_counter, row + 1);
        let both_memory = Self::cell(t, self.is_memory, row) * Self::cell(
            t,
            self.is_memory,
            row + 1,
        );
        let uncounted = Self::cell(t, self.is_tx_calldata, row) + Self::cell(
            t,
            self.is_bytecode,
            row,
        );
        seq![
            ("is_first is boolean"@, enable * (is_first * (1 - is_first))),
            ("is_last is boolean"@, enable * (is_last * (1 - is_last))),
            ("mask is boolean"@, enable * (mask * (1 - mask))),
            ("front_mask is boolean"@, enable * (front_mask * (1 - front_mask))),
            ("is_first == 0 when q_step == 0"@, enable * ((1 - step) * is_first)),
            ("is_last == 0 when q_step == 1"@, enable * (is_last * step)),
            (
                "word_index[0] + 1 == word_index[2]"@,
                enable * ((continues * inner * plain) * (word_index + 1 - word_index_2)),
            ),
            (
                "word_index[0] == 31"@,
                enable * (((1 - continues) * inner * plain) * (word_index - 31)),
            ),
            (
                "word_index[2] == 0"@,
                enable * (((1 - continues) * inner * plain) * (word_index_2 - 0)),
            ),
            (
                "rows[0].rw_counter + rows[0].rwc_inc_left == rows[1].rw_counter + rows[1].rwc_inc_left"@,
                enable * (((1 - is_last) * plain) * (rw_counter + Self::cell(
                    t,
                    ct.rwc_inc_left,
                    row,
                ) - (rw_counter_1 + Self::cell(t, ct.rwc_inc_left, row + 1)))),
            ),
            (
                "rows[0].rw_counter + diff == rows[1].rw_counter"@,
                enable * ((continues * inner * plain) * (rw_counter + both_memory * (2 * step - 1)
                    - rw_counter_1)),
            ),
            (
                "rows[0].rw_counter + 1 == rows[1].rw_counter"@,
                enable * (((1 - uncounted) * (1 - continues) * (1 - is_last) * (1 - step) * plain)
                    * (rw_counter + 1 - rw_counter_1)),
            ),
            (
                "rows[0].addr + 1 == rows[2].addr"@,
                enable * (inner * (Self::cell(t, ct.addr, row) + (1 - front_mask) - Self::cell(
                    t,
                    ct.addr,
                    row + 2,
                ))),
            ),
            (
                "rows[0].id == rows[2].id"@,
                enable * ((inner * plain) * (Self::cell(t, ct.id, row) - Self::cell(
                    t,
                    ct.id,
                    row + 2,
                ))),
            ),
            (
                "rows[0].tag == rows[2].tag"@,
                enable * ((inner * plain) * (ct.tag.number(t, row) - ct.tag.number(t, row + 2))),
            ),
            (
                "rows[0].src_addr_end == rows[2].src_addr_end for non-last step"@,
                enable * ((inner * plain) * (Self::cell(t, ct.src_addr_end, row) - Self::cell(
                    t,
                    ct.src_addr_end,
                    row + 2,
                ))),
            ),
            (
                "rows[0].rlc_acc == rows[1].rlc_acc"@,
                enable * ((1 - is_last) * (Self::cell(t, ct.rlc_acc, row) - Self::cell(
                    t,
                    ct.rlc_acc,
                    row + 1,
                ))),
            ),
        ]
    }

    /// What the constraint of a gate on the last pair of rows evaluates to, for the copies where
    /// `case` is not zero.
    pub open spec fn last_value_acc_values(self, case: int, t: Trace, row: int) -> Seq<
        (Seq<char>, int),
    > {
        seq![
            (
                "value_acc == rlc_acc on the last row"@,
                (self.enable(t, row) * Self::cell(t, self.is_last, row + 1) * case) * (Self::cell(
                    t,
                    self.value_acc,
                    row + 1,
                ) - Self::cell(t, self.copy_table.rlc_acc, row + 1)),
            ),
        ]
    }

    /// What the constraint on what was read and written evaluates to on a row.
    pub open spec fn last_rlc_values(self, t: Trace, row: int) -> Seq<(Seq<char>, int)> {
        seq![
            (
                "rlc_acc_read == rlc_acc_write on the last row"@,
                (self.enable(t, row) * Self::cell(t, self.is_last, row + 1)) * (Self::cell(
                    t,
                    self.rlc_acc_read,
                    row + 1,
                ) - Self::cell(t, self.rlc_acc_write, row + 1)),
            ),
        ]
    }

    /// What the constraints of the custom gate "verify step" evaluate to on a row. `challenge` is
    /// the challenge for the random linear combination of bytes.
    pub open spec fn verify_step_values(self, challenge: Expr, t: Trace, row: int) -> Seq<
        (Seq<char>, int),
    > {
        let ct = self.copy_table;
        let on = self.enable(t, row) * self.step(t, row);
        let is_last = Self::cell(t, self.is_last, row);
        let is_last_1 = Self::cell(t, self.is_last, row + 1);
        let is_pad = Self::cell(t, self.is_pad, row);
        let mask = Self::cell(t, self.mask, row);
        let value_acc = Self::cell(t, self.value_acc, row);
        let real_bytes_left_1 = Self::cell(t, ct.real_bytes_left, row + 1);
        let real_bytes_left_2 = Self::cell(t, ct.real_bytes_left, row + 2);
        seq![
            (
                "bytes_left == 1 for last step"@,
                on * (is_last_1 * (1 - Self::cell(t, ct.bytes_left, row))),
            ),
            ("real_bytes_left == 0 for last step"@, on * (is_last_1 * real_bytes_left_1)),
            (
                "real_bytes_left[0] == real_bytes_left[2] + !mask"@,
                on * (((1 - is_last) * (1 - is_last_1)) * (Self::cell(t, ct.real_bytes_left, row)
                    - (real_bytes_left_2 + (1 - mask)))),
            ),
            (
                "real_bytes_left[1] == real_bytes_left[2]"@,
                on * (((1 - is_last) * (1 - is_last_1)) * (real_bytes_left_1 - real_bytes_left_2)),
            ),
            (
                "bytes_left == bytes_left_next + 1 for non-last step"@,
                on * (((1 - is_last_1) * self.plain(t, row)) * (Self::cell(t, ct.bytes_left, row)
                    - (Self::cell(t, ct.bytes_left, row + 2) + 1))),
            ),
            (
                "value_acc is same for read-write rows"@,
                on * (value_acc - Self::cell(t, self.value_acc, row + 1)),
            ),
            (
                "value_acc(2) == value_acc(0) * r + value(2)"@,
                on * (((1 - is_last_1) * (1 - is_pad) * (1 - Self::cell(t, self.mask, row + 2)))
                    * (Self::cell(t, self.value_acc, row + 2) - (value_acc * challenge.eval(t, row)
                    + Self::cell(t, self.value, row + 2)))),
            ),
            (
                "value == 0 when is_pad == 1 for read"@,
                on * ((1 - mask) * (is_pad * Self::cell(t, self.value, row))),
            ),
            (
                "is_pad == 1 - (src_addr < src_addr_end) for read row"@,
                on * (1 - Self::cell(t, self.addr_lt_addr_end.lt, row) - is_pad),
            ),
            ("is_pad == 0 for write row"@, on * Self::cell(t, self.is_pad, row + 1)),
        ]
    }

    /// Where memory words are looked up: on enabled memory rows at the end of a word.
    pub open spec fn memory_lookup_on(self, t: Trace, row: int) -> int {
        (t.fixed)(self.q_enable, row) * Self::cell(t, self.is_memory, row) * (1 - self.continues(
            t,
            row,
        ))
    }

    /// What is looked up of a memory word.
    pub open spec fn memory_lookup(self, t: Trace, row: int) -> Seq<int> {
        let ct = self.copy_table;
        seq![
            1,
            Self::cell(t, ct.rw_counter, row),
            1 - self.step(t, row),
            self.rw_table.memory_tag as int,
            Self::cell(t, ct.id, row),
            Self::cell(t, ct.addr, row) - 31,
            0,
            0,
            Self::cell(t, self.value_word_rlc, row),
            Self::cell(t, self.value_word_rlc_prev, row),
            0,
            0,
        ]
    }

    /// Where log words are looked up: on enabled log rows at the end of a word.
    pub open spec fn tx_log_lookup_on(self, t: Trace, row: int) -> int {
        (t.fixed)(self.q_enable, row) * Self::cell(t, self.is_tx_log, row) * (1 - self.continues(
            t,
            row,
        ))
    }

    /// What is looked up of a log word.
    pub open spec fn tx_log_lookup(self, t: Trace, row: int) -> Seq<int> {
        let ct = self.copy_table;
        seq![
            1,
            Self::cell(t, ct.rw_counter, row),
            1,
            self.rw_table.tx_log_tag as int,
            Self::cell(t, ct.id, row),
            Self::cell(t, ct.addr, row) - 31,
            0,
            0,
            Self::cell(t, self.value_word_rlc, row),
            0,
            0,
            0,
        ]
    }

    /// Where bytes of code are looked up: on enabled bytecode rows that are neither padding nor
    /// masked.
    pub open spec fn bytecode_lookup_on(self, t: Trace, row: int) -> int {
        (t.fixed)(self.q_enable, row) * Self::cell(t, self.is_bytecode, row) * self.plain(t, row)
    }

    /// What is looked up of a byte of code.
    pub open spec fn bytecode_lookup(self, t: Trace, row: int) -> Seq<int> {
        let ct = self.copy_table;
        seq![
            1,
            Self::cell(t, ct.id, row),
            self.bytecode_table.byte_tag as int,
            Self::cell(t, ct.addr, row),
            Self::cell(t, self.is_code, row),
            Self::cell(t, self.value, row),
        ]
    }

    /// Where bytes of call data are looked up: on enabled call data rows that are neither
    /// padding nor masked.
    pub open spec fn tx_calldata_lookup_on(self, t: Trace, row: int) -> int {
        (t.fixed)(self.q_enable, row) * Self::cell(t, self.is_tx_calldata, row) * self.plain(t, row)
    }

    /// What is looked up of a byte of call data.
    pub open spec fn tx_calldata_lookup(self, t: Trace, row: int) -> Seq<int> {
        let ct = self.copy_table;
        seq![
            1,
            Self::cell(t, ct.id, row),
            self.tx_table.call_data_tag as int,
            Self::cell(t, ct.addr, row),
            Self::cell(t, self.value, row),
        ]
    }
}

/// The columns of the circuit that hold values: they are filled once the challenge is drawn.
pub open spec fn value_columns(config: CopyCircuitConfig) -> Seq<AdviceColumn> {
    seq![
        config.value,
        config.value_word_rlc,
        config.value_word_rlc_prev,
        config.rlc_acc_read,
        config.rlc_acc_write,
        config.value_acc,
    ]
}

/// The columns of the circuit that hold markers, indices and the bytes of differences: they are
/// filled before the challenge is drawn.
pub open spec fn marker_columns(config: CopyCircuitConfig) -> Seq<AdviceColumn> {
    seq![
        config.is_last,
        config.word_index,
        config.mask,
        config.front_mask,
        config.is_pad,
        config.is_code,
        config.is_precompiled,
        config.is_tx_calldata,
        config.is_bytecode,
        config.is_memory,
        config.is_tx_log,
        config.addr_lt_addr_end.lt,
        config.is_word_continue.lt,
        config.non_pad_non_mask.lt,
    ] + config.addr_lt_addr_end.diff@ + config.is_word_continue.diff@
        + config.non_pad_non_mask.diff@
}

/// The columns of a circuit whose columns were allocated one after the other are all different and
/// among the thirty that are allocated, each in the phase that it is allocated in: those that hold
/// values in the second phase, and the others in the first.
pub proof fn law_columns_have_their_phases(config: CopyCircuitConfig, n: nat)
    requires
        config.laid_out(n),
    ensures
        copy_circuit_phases().len() == 30,
        (value_columns(config) + marker_columns(config)).len() == 30,
        (value_columns(config) + marker_columns(config)).no_duplicates(),
        forall|k: int|
            0 <= k < 6 ==> (#[trigger] value_columns(config)[k]).phase == Phase::Second,
        forall|k: int|
            0 <= k < 24 ==> (#[trigger] marker_columns(config)[k]).phase == Phase::First,
        forall|k: int|
            0 <= k < 30 ==> {
                let c = #[trigger] (value_columns(config) + marker_columns(config))[k];
                n <= c.index < n + 30 && copy_circuit_phases()[c.index - n] == c.phase
            },
{
    let a = config.addr_lt_addr_end.diff@;
    let b = config.is_word_continue.diff@;
    let c = config.non_pad_non_mask.diff@;
    let all = value_columns(config) + marker_columns(config);
    assert(forall|k: int| 20 <= k < 28 ==> all[k] == a[k - 20]);
    assert(all[28] == b[0] && all[29] == c[0]);
    let places = seq![1nat, 2, 3, 4, 5, 6, 0, 14, 15, 16, 13, 7, 8, 9, 10, 11, 12, 17, 26, 28];
    assert(forall|k: int| 0 <= k < 20 ==> (#[trigger] all[k]).index == n + places[k]);
}

} // verus!
