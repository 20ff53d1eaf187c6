//! Fills the rows of the copy circuit.
use vstd::prelude::*;
use crate::config::CopyCircuitConfig;
use crate::copy_event::{copy_rows, count_copy_rows, CopyDataType, CopyEvent};
use crate::copy_event::lemma_copy_rows_prefix;
use crate::field::{modulus, value_of, Scalar};
use crate::region::{Label, Region, Write};

verus! {

/// The values of a row in the columns of the copy table, `None` where a value is not known.
#[derive(Clone, Copy, Debug)]
pub struct CopyTableRow {
    /// Whether the row is the first of a copy event.
    pub is_first: Option<Scalar>,
    /// The identifier of the source or the destination.
    pub id: Option<Scalar>,
    /// The address of the byte in the source or the destination.
    pub addr: Option<Scalar>,
    /// The address at which the data of the source ends.
    pub src_addr_end: Option<Scalar>,
    /// The number of bytes that are left to copy.
    pub bytes_left: Option<Scalar>,
    /// The number of bytes that are left to copy, without those that only fill up a word.
    pub real_bytes_left: Option<Scalar>,
    /// The random linear combination of the copied bytes.
    pub rlc_acc: Option<Scalar>,
    /// The read-write counter.
    pub rw_counter: Option<Scalar>,
    /// By how much the read-write counter is still to grow.
    pub rwc_inc_left: Option<Scalar>,
}

/// The values of a row in the columns of the copy circuit, `None` where a value is not known.
#[derive(Clone, Copy, Debug)]
pub struct CopyCircuitRow {
    /// Whether the row is the last of a copy event.
    pub is_last: Option<Scalar>,
    /// The value copied in this copy step.
    pub value: Option<Scalar>,
    /// The word value for memory lookup.
    pub value_word_rlc: Option<Scalar>,
    /// The word value for memory lookup, before the write.
    pub value_word_rlc_prev: Option<Scalar>,
    /// Random linear combination of the read value.
    pub rlc_acc_read: Option<Scalar>,
    /// Random linear combination of the write value.
    pub rlc_acc_write: Option<Scalar>,
    /// Random linear combination accumulator value.
    pub value_acc: Option<Scalar>,
    /// Whether the row is padding for out-of-bound reads.
    pub is_pad: Option<Scalar>,
    /// Whether the copied byte is an opcode or push data.
    pub is_code: Option<Scalar>,
    /// Whether the row only fills up a memory word.
    pub mask: Option<Scalar>,
    /// Whether the row is part of the front mask.
    pub front_mask: Option<Scalar>,
    /// The index of the current byte within a word.
    pub word_index: Option<Scalar>,
}

/// What a row of a copy event holds.
#[derive(Clone, Copy, Debug)]
pub struct CopyRow {
    /// The data type of the source or the destination.
    pub tag: CopyDataType,
    /// The values in the columns of the copy table.
    pub table: CopyTableRow,
    /// The values in the columns of the copy circuit.
    pub circuit: CopyCircuitRow,
}

/// The number in a cell value, zero where it is not known.
pub open spec fn known(value: Option<Scalar>) -> nat {
    match value {
        Some(s) => s.value(),
        None => 0,
    }
}

/// The field element in a cell value, zero where it is not known.
pub fn unwrap_value(value: Option<Scalar>) -> (r: Scalar)
    ensures
        r.value() == known(value),
{
    match value {
        Some(s) => s,
        None => Scalar::zero(),
    }
}

/// One for a true statement, zero for a false one.
pub open spec fn number_of(b: bool) -> nat {
    if b {
        1
    } else {
        0
    }
}

/// What a cell of a column for a data type is called.
pub open spec fn data_type_label(padding: bool, name: &'static str) -> Label {
    if padding {
        Label::PaddingRow
    } else {
        Label::AtRow(name)
    }
}

impl CopyCircuitConfig {
    /// What is written of a row in the columns of the copy table. The end of the source and the
    /// number of bytes left are written on read rows only.
    pub open spec fn table_writes(self, offset: int, is_read: bool, row: CopyTableRow) -> Seq<
        Write,
    > {
        let ct = self.copy_table;
        seq![
            Write::Advice(ct.is_first, offset, value_of(row.is_first), Label::AtRow("is_first")),
            Write::Advice(ct.id, offset, value_of(row.id), Label::AtRow("id")),
            Write::Advice(ct.addr, offset, value_of(row.addr), Label::AtRow("addr")),
        ] + (if is_read {
            seq![
                Write::Advice(
                    ct.src_addr_end,
                    offset,
                    value_of(row.src_addr_end),
                    Label::AtRow("src_addr_end"),
                ),
                Write::Advice(
                    ct.bytes_left,
                    offset,
                    value_of(row.bytes_left),
                    Label::AtRow("bytes_left"),
                ),
            ]
        } else {
            Seq::empty()
        }) + seq![
            Write::Advice(
                ct.real_bytes_left,
                offset,
                value_of(row.real_bytes_left),
                Label::AtRow("real_bytes_left"),
            ),
            Write::Advice(ct.rlc_acc, offset, value_of(row.rlc_acc), Label::AtRow("rlc_acc")),
            Write::Advice(
                ct.rw_counter,
                offset,
                value_of(row.rw_counter),
                Label::AtRow("rw_counter"),
            ),
            Write::Advice(
                ct.rwc_inc_left,
                offset,
                value_of(row.rwc_inc_left),
                Label::AtRow("rwc_inc_left"),
            ),
        ]
    }

    /// What is written of a row in the columns of the copy circuit.
    pub open spec fn circuit_writes(self, offset: int, row: CopyCircuitRow) -> Seq<Write> {
        seq![
            Write::Advice(self.is_last, offset, value_of(row.is_last), Label::AtRow("is_last")),
            Write::Advice(self.value, offset, value_of(row.value), Label::AtRow("value")),
            Write::Advice(
                self.value_word_rlc,
                offset,
                value_of(row.value_word_rlc),
                Label::AtRow("value_word_rlc"),
            ),
            Write::Advice(
                self.value_word_rlc_prev,
                offset,
                value_of(row.value_word_rlc_prev),
                Label::AtRow("value_word_rlc_prev"),
            ),
            Write::Advice(
                self.rlc_acc_read,
                offset,
                value_of(row.rlc_acc_read),
                Label::AtRow("rlc_acc_read"),
            ),
            Write::Advice(
                self.rlc_acc_write,
                offset,
                value_of(row.rlc_acc_write),
                Label::AtRow("rlc_acc_write"),
            ),
            Write::Advice(
                self.value_acc,
                offset,
                value_of(row.value_acc),
                Label::AtRow("value_acc"),
            ),
            Write::Advice(self.is_pad, offset, value_of(row.is_pad), Label::AtRow("is_pad")),
            Write::Advice(self.is_code, offset, value_of(row.is_code), Label::AtRow("is_code")),
            Write::Advice(self.mask, offset, value_of(row.mask), Label::AtRow("mask")),
            Write::Advice(
                self.front_mask,
                offset,
                value_of(row.front_mask),
                Label::AtRow("front_mask"),
            ),
            Write::Advice(
                self.word_index,
                offset,
                value_of(row.word_index),
                Label::AtRow("word_index"),
            ),
        ]
    }

    /// What is written of the data type of a row in the columns for the data types. The rows that
    /// fill up the circuit have a label of their own.
    pub open spec fn data_type_writes(self, offset: int, tag: CopyDataType, padding: bool) -> Seq<
        Write,
    > {
        seq![
            Write::Advice(
                self.is_precompiled,
                offset,
                Some(number_of(tag is Precompile)),
                data_type_label(padding, "is_precompiled"),
            ),
            Write::Advice(
                self.is_tx_calldata,
                offset,
                Some(number_of(tag == CopyDataType::TxCalldata)),
                data_type_label(padding, "is_tx_calldata"),
            ),
            Write::Advice(
                self.is_bytecode,
                offset,
                Some(number_of(tag == CopyDataType::Bytecode)),
                data_type_label(padding, "is_bytecode"),
            ),
            Write::Advice(
                self.is_memory,
                offset,
                Some(number_of(tag == CopyDataType::Memory)),
                data_type_label(padding, "is_memory"),
            ),
            Write::Advice(
                self.is_tx_log,
                offset,
                Some(number_of(tag == CopyDataType::TxLog)),
                data_type_label(padding, "is_tx_log"),
            ),
        ]
    }

    /// What is written of a row before its comparisons.
    pub open spec fn row_values(self, offset: int, is_read: bool, row: CopyRow) -> Seq<Write> {
        seq![Write::Fixed(self.q_enable, offset, 1, Label::AtRow("q_enable"))] + self.table_writes(
            offset,
            is_read,
            row.table,
        ) + (if is_read {
            seq![Write::Enable(self.q_step, offset)]
        } else {
            Seq::empty()
        }) + seq![
            Write::Fixed(self.q_enable, offset, 1, Label::Text("q_enable")),
        ] + self.circuit_writes(offset, row.circuit)
            + self.copy_table.tag.writes(offset, row.tag.spec_code())
    }

    /// What is written of the comparisons of a row: that of the source address with the end of
    /// the source on read rows, and on all rows those of the index of the byte within its word
    /// with the last index, and of the markers of padding and masks with one.
    pub open spec fn row_comparisons(
        self,
        offset: int,
        index: int,
        row: CopyRow,
        src_addr_end: u64,
    ) -> Seq<Write> {
        (if index % 2 == 0 {
            self.addr_lt_addr_end.writes(offset, known(row.table.addr), src_addr_end as nat)
        } else {
            Seq::empty()
        }) + self.is_word_continue.writes(offset, ((index / 2) % 32) as nat, 31)
            + self.non_pad_non_mask.writes(
            offset,
            (known(row.circuit.is_pad) + known(row.circuit.mask)) % modulus(),
            1,
        )
    }

    /// What is written of the row of a copy event at an index.
    pub open spec fn row_writes(
        self,
        offset: int,
        index: int,
        row: CopyRow,
        src_addr_end: u64,
    ) -> Seq<Write> {
        self.row_values(offset, index % 2 == 0, row) + self.row_comparisons(
            offset,
            index,
            row,
            src_addr_end,
        ) + self.data_type_writes(offset, row.tag, false)
    }

    /// What is written of a copy event whose first row is at an offset.
    pub open spec fn event_writes(self, offset: int, rows: Seq<CopyRow>, src_addr_end: u64) -> Seq<
        Write,
    >
        decreases rows.len(),
    {
        if rows.len() == 0 {
            Seq::empty()
        } else {
            self.event_writes(offset, rows.drop_last(), src_addr_end) + self.row_writes(
                offset + rows.len() - 1,
                rows.len() - 1,
                rows.last(),
                src_addr_end,
            )
        }
    }

    /// The columns of the comparisons are as many as they are declared with.
    pub open spec fn comparisons_fit(self) -> bool {
        &&& self.addr_lt_addr_end.diff@.len() == 8
        &&& self.is_word_continue.diff@.len() == 1
        &&& self.non_pad_non_mask.diff@.len() == 1
    }

    /// Writes a row in the columns of the copy table.
    fn assign_table_row(
        &self,
        region: &mut Region,
        offset: usize,
        is_read: bool,
        row: &CopyTableRow,
    )
        ensures
            final(region)@ == old(region)@ + self.table_writes(offset as int, is_read, *row),
    {
        let ct = &self.copy_table;
        region.assign_advice(Label::AtRow("is_first"), ct.is_first, offset, row.is_first);
        region.assign_advice(Label::AtRow("id"), ct.id, offset, row.id);
        region.assign_advice(Label::AtRow("addr"), ct.addr, offset, row.addr);
        // The end of the source and the number of bytes left stay unassigned on write rows.
        if is_read {
            region.assign_advice(
                Label::AtRow("src_addr_end"),
                ct.src_addr_end,
                offset,
                row.src_addr_end,
            );
            region.assign_advice(Label::AtRow("bytes_left"), ct.bytes_left, offset, row.bytes_left);
        }
        region.assign_advice(
            Label::AtRow("real_bytes_left"),
            ct.real_bytes_left,
            offset,
            row.real_bytes_left,
        );
        region.assign_advice(Label::AtRow("rlc_acc"), ct.rlc_acc, offset, row.rlc_acc);
        region.assign_advice(Label::AtRow("rw_counter"), ct.rw_counter, offset, row.rw_counter);
        region.assign_advice(
            Label::AtRow("rwc_inc_left"),
            ct.rwc_inc_left,
            offset,
            row.rwc_inc_left,
        );
        assert(region@ =~= old(region)@ + self.table_writes(offset as int, is_read, *row));
    }

    /// Writes a row in the columns of the copy circuit.
    fn assign_circuit_row(&self, region: &mut Region, offset: usize, row: &CopyCircuitRow)
        ensures
            final(region)@ == old(region)@ + self.circuit_writes(offset as int, *row),
    {
        region.assign_advice(Label::AtRow("is_last"), self.is_last, offset, row.is_last);
        region.assign_advice(Label::AtRow("value"), self.value, offset, row.value);
        region.assign_advice(
            Label::AtRow("value_word_rlc"),
            self.value_word_rlc,
            offset,
            row.value_word_rlc,
        );
        region.assign_advice(
            Label::AtRow("value_word_rlc_prev"),
            self.value_word_rlc_prev,
            offset,
            row.value_word_rlc_prev,
        );
        region.assign_advice(
            Label::AtRow("rlc_acc_read"),
            self.rlc_acc_read,
            offset,
            row.rlc_acc_read,
        );
        region.assign_advice(
            Label::AtRow("rlc_acc_write"),
            self.rlc_acc_write,
            offset,
            row.rlc_acc_write,
        );
        region.assign_advice(Label::AtRow("value_acc"), self.value_acc, offset, row.value_acc);
        region.assign_advice(Label::AtRow("is_pad"), self.is_pad, offset, row.is_pad);
        region.assign_advice(Label::AtRow("is_code"), self.is_code, offset, row.is_code);
        region.assign_advice(Label::AtRow("mask"), self.mask, offset, row.mask);
        region.assign_advice(Label::AtRow("front_mask"), self.front_mask, offset, row.front_mask);
        region.assign_advice(Label::AtRow("word_index"), self.word_index, offset, row.word_index);
        assert(region@ =~= old(region)@ + self.circuit_writes(offset as int, *row));
    }

    /// Writes the data type of a row in the columns for the data types.
    fn assign_data_type(
        &self,
        region: &mut Region,
        offset: usize,
        tag: CopyDataType,
        padding: bool,
    )
        ensures
            final(region)@ == old(region)@ + self.data_type_writes(offset as int, tag, padding),
    {
        region.assign_number(
            label_of(padding, "is_precompiled"),
            self.is_precompiled,
            offset,
            flag(tag.is_precompile()),
        );
        region.assign_number(
            label_of(padding, "is_tx_calldata"),
            self.is_tx_calldata,
            offset,
            flag(tag == CopyDataType::TxCalldata),
        );
        region.assign_number(
            label_of(padding, "is_bytecode"),
            self.is_bytecode,
            offset,
            flag(tag == CopyDataType::Bytecode),
        );
        region.assign_number(
            label_of(padding, "is_memory"),
            self.is_memory,
            offset,
            flag(tag == CopyDataType::Memory),
        );
        region.assign_number(
            label_of(padding, "is_tx_log"),
            self.is_tx_log,
            offset,
            flag(tag == CopyDataType::TxLog),
        );
        assert(region@ =~= old(region)@ + self.data_type_writes(offset as int, tag, padding));
    }

    /// Writes the values of a row of a copy event.
    fn assign_row_values(&self, region: &mut Region, offset: usize, is_read: bool, row: &CopyRow)
        ensures
            final(region)@ == old(region)@ + self.row_values(offset as int, is_read, *row),
    {
        let ghost start = region@;
        region.assign_fixed(Label::AtRow("q_enable"), self.q_enable, offset, Scalar::one());
        let ghost w1 = seq![
            Write::Fixed(self.q_enable, offset as int, 1, Label::AtRow("q_enable")),
        ];
        assert(region@ =~= start + w1);
        self.assign_table_row(region, offset, is_read, &row.table);
        let ghost w2 = w1 + self.table_writes(offset as int, is_read, row.table);
        assert(region@ =~= start + w2);
        if is_read {
            region.enable(self.q_step, offset);
        }
        let ghost w3 = w2 + if is_read {
            seq![Write::Enable(self.q_step, offset as int)]
        } else {
            Seq::empty()
        };
        assert(region@ =~= start + w3);
        region.assign_fixed(Label::Text("q_enable"), self.q_enable, offset, Scalar::one());
        let ghost w4 = w3 + seq![
            Write::Fixed(self.q_enable, offset as int, 1, Label::Text("q_enable")),
        ];
        assert(region@ =~= start + w4);
        self.assign_circuit_row(region, offset, &row.circuit);
        let ghost w5 = w4 + self.circuit_writes(offset as int, row.circuit);
        assert(region@ =~= start + w5);
        self.copy_table.tag.assign(region, offset, row.tag);
        assert(region@ =~= start + (w5 + self.copy_table.tag.writes(
            offset as int,
            row.tag.spec_code(),
        )));
    }

    /// Writes the comparisons of the row of a copy event at an index.
    fn assign_row_comparisons(
        &self,
        region: &mut Region,
        offset: usize,
        index: usize,
        row: &CopyRow,
        src_addr_end: u64,
    )
        requires
            self.comparisons_fit(),
        ensures
            final(region)@ == old(region)@ + self.row_comparisons(
                offset as int,
                index as int,
                *row,
                src_addr_end,
            ),
    {
        let ghost start = region@;
        if index % 2 == 0 {
            let addr = unwrap_value(row.table.addr);
            self.addr_lt_addr_end.assign(region, offset, addr, Scalar::from_u64(src_addr_end));
        }
        let ghost w1 = if index % 2 == 0 {
            self.addr_lt_addr_end.writes(
                offset as int,
                known(row.table.addr),
                src_addr_end as nat,
            )
        } else {
            Seq::empty()
        };
        assert(region@ =~= start + w1);
        self.is_word_continue.assign(
            region,
            offset,
            Scalar::from_u64(((index / 2) % 32) as u64),
            Scalar::from_u64(31),
        );
        let ghost w2 = w1 + self.is_word_continue.writes(
            offset as int,
            ((index / 2) % 32) as nat,
            31,
        );
        assert(region@ =~= start + w2);
        let pad = unwrap_value(row.circuit.is_pad);
        let mask = unwrap_value(row.circuit.mask);
        self.non_pad_non_mask.assign(region, offset, pad.plus(mask), Scalar::from_u64(1));
        assert(region@ =~= start + (w2 + self.non_pad_non_mask.writes(
            offset as int,
            (known(row.circuit.is_pad) + known(row.circuit.mask)) % modulus(),
            1,
        )));
    }

    /// Assigns an individual copy event to the copy circuit. `rows` are the rows that the copy
    /// table holds of the event, a read row and a write row in turns.
    pub fn assign_copy_event(
        &self,
        region: &mut Region,
        offset: &mut usize,
        copy_event: &CopyEvent,
        rows: &Vec<CopyRow>,
    )
        requires
            self.comparisons_fit(),
            *old(offset) + rows@.len() <= usize::MAX,
        ensures
            *final(offset) == *old(offset) + rows@.len(),
            final(region)@ == old(region)@ + self.event_writes(
                *old(offset) as int,
                rows@,
                copy_event.src_addr_end,
            ),
    {
        let ghost start = region@;
        let ghost first = *offset as int;
        let mut index: usize = 0;
        assert(rows@.take(0) =~= Seq::empty());
        assert(region@ =~= start + self.event_writes(
            first,
            rows@.take(0),
            copy_event.src_addr_end,
        ));
        while index < rows.len()
            invariant
                index <= rows@.len(),
                *offset == first + index,
                first + rows@.len() <= usize::MAX,
                self.comparisons_fit(),
                region@ == start + self.event_writes(
                    first,
                    rows@.take(index as int),
                    copy_event.src_addr_end,
                ),
            decreases rows@.len() - index,
        {
            let row = &rows[index];
            let at: usize = *offset;
            let ghost before = region@;
            self.assign_row_values(region, at, index % 2 == 0, row);
            self.assign_row_comparisons(region, at, index, row, copy_event.src_addr_end);
            self.assign_data_type(region, at, row.tag, false);
            proof {
                let writes = self.row_writes(
                    at as int,
                    index as int,
                    *row,
                    copy_event.src_addr_end,
                );
                assert(region@ =~= before + writes);
                assert(rows@.take(index + 1).drop_last() =~= rows@.take(index as int));
                assert(region@ =~= start + (self.event_writes(
                    first,
                    rows@.take(index as int),
                    copy_event.src_addr_end,
                ) + writes));
            }
            *offset = at + 1;
            index += 1;
        }
        assert(rows@.take(index as int) =~= rows@);
    }

    /// What is written of a row that fills up the circuit. The last two rows are not enabled.
    pub open spec fn padding_row_writes(self, offset: int, is_last_two: bool) -> Seq<Write> {
        self.padding_selectors(offset, is_last_two) + self.padding_values(offset)
            + self.copy_table.tag.writes(offset, CopyDataType::Padding.spec_code())
            + self.addr_lt_addr_end.writes(offset, 0, 1) + self.is_word_continue.writes(
            offset,
            0,
            31,
        ) + self.non_pad_non_mask.writes(offset, 1, 1) + self.data_type_writes(
            offset,
            CopyDataType::Padding,
            true,
        )
    }

    /// How a row that fills up the circuit is enabled.
    pub open spec fn padding_selectors(self, offset: int, is_last_two: bool) -> Seq<Write> {
        if is_last_two {
            Seq::empty()
        } else {
            seq![
                Write::Fixed(self.q_enable, offset, 1, Label::Text("q_enable")),
            ] + if offset % 2 == 0 {
                seq![Write::Enable(self.q_step, offset)]
            } else {
                Seq::empty()
            }
        }
    }

    /// The values of a row that fills up the circuit.
    pub open spec fn padding_values(self, offset: int) -> Seq<Write> {
        let ct = self.copy_table;
        seq![
            Write::Advice(ct.is_first, offset, Some(0), Label::Assign("is_first")),
            Write::Advice(self.is_last, offset, Some(0), Label::Assign("is_last")),
            Write::Advice(ct.id, offset, Some(0), Label::Assign("id")),
            Write::Advice(ct.addr, offset, Some(0), Label::Assign("addr")),
            Write::Advice(ct.src_addr_end, offset, Some(1), Label::Assign("src_addr_end")),
            Write::Advice(ct.bytes_left, offset, Some(0), Label::Assign("bytes_left")),
            Write::Advice(ct.real_bytes_left, offset, Some(0), Label::Assign("bytes_left")),
            Write::Advice(self.value, offset, Some(0), Label::Assign("value")),
            Write::Advice(self.value_word_rlc, offset, Some(0), Label::Assign("value_word_rlc")),
            Write::Advice(
                self.value_word_rlc_prev,
                offset,
                Some(0),
                Label::Assign("value_word_rlc_prev"),
            ),
            Write::Advice(self.word_index, offset, Some(0), Label::Assign("word_index")),
            Write::Advice(self.mask, offset, Some(1), Label::Assign("mask")),
            Write::Advice(self.front_mask, offset, Some(1), Label::Assign("front mask")),
            Write::Advice(self.value_acc, offset, Some(0), Label::Assign("value_acc")),
            Write::Advice(ct.rlc_acc, offset, Some(0), Label::Assign("rlc_acc")),
            Write::Advice(self.is_code, offset, Some(0), Label::Assign("is_code")),
            Write::Advice(self.is_pad, offset, Some(0), Label::Assign("is_pad")),
            Write::Advice(ct.rw_counter, offset, Some(0), Label::Assign("rw_counter")),
            Write::Advice(ct.rwc_inc_left, offset, Some(0), Label::Assign("rwc_inc_left")),
        ]
    }

    /// Writes the values of a row that fills up the circuit.
    fn assign_padding_values(&self, region: &mut Region, offset: usize)
        ensures
            final(region)@ == old(region)@ + self.padding_values(offset as int),
    {
        let ct = &self.copy_table;
        region.assign_number(Label::Assign("is_first"), ct.is_first, offset, 0);
        region.assign_number(Label::Assign("is_last"), self.is_last, offset, 0);
        region.assign_number(Label::Assign("id"), ct.id, offset, 0);
        region.assign_number(Label::Assign("addr"), ct.addr, offset, 0);
        region.assign_number(Label::Assign("src_addr_end"), ct.src_addr_end, offset, 1);
        region.assign_number(Label::Assign("bytes_left"), ct.bytes_left, offset, 0);
        region.assign_number(Label::Assign("bytes_left"), ct.real_bytes_left, offset, 0);
        region.assign_number(Label::Assign("value"), self.value, offset, 0);
        region.assign_number(Label::Assign("value_word_rlc"), self.value_word_rlc, offset, 0);
        region.assign_number(
            Label::Assign("value_word_rlc_prev"),
            self.value_word_rlc_prev,
            offset,
            0,
        );
        region.assign_number(Label::Assign("word_index"), self.word_index, offset, 0);
        region.assign_number(Label::Assign("mask"), self.mask, offset, 1);
        region.assign_number(Label::Assign("front mask"), self.front_mask, offset, 1);
        region.assign_number(Label::Assign("value_acc"), self.value_acc, offset, 0);
        region.assign_number(Label::Assign("rlc_acc"), ct.rlc_acc, offset, 0);
        region.assign_number(Label::Assign("is_code"), self.is_code, offset, 0);
        region.assign_number(Label::Assign("is_pad"), self.is_pad, offset, 0);
        region.assign_number(Label::Assign("rw_counter"), ct.rw_counter, offset, 0);
        region.assign_number(Label::Assign("rwc_inc_left"), ct.rwc_inc_left, offset, 0);
        assert(region@ =~= old(region)@ + self.padding_values(offset as int));
    }

    /// Assigns a row that fills up the circuit.
    pub fn assign_padding_row(&self, region: &mut Region, offset: &mut usize, is_last_two: bool)
        requires
            self.comparisons_fit(),
            *old(offset) < usize::MAX,
        ensures
            *final(offset) == *old(offset) + 1,
            final(region)@ == old(region)@ + self.padding_row_writes(
                *old(offset) as int,
                is_last_two,
            ),
    {
        let ghost start = region@;
        let at: usize = *offset;
        let ghost row = at as int;
        if !is_last_two {
            region.assign_fixed(Label::Text("q_enable"), self.q_enable, at, Scalar::one());
            if at % 2 == 0 {
                region.enable(self.q_step, at);
            }
        }
        let ghost w1 = self.padding_selectors(row, is_last_two);
        assert(region@ =~= start + w1);
        self.assign_padding_values(region, at);
        let ghost w2 = w1 + self.padding_values(row);
        assert(region@ =~= start + w2);
        self.copy_table.tag.assign(region, at, CopyDataType::Padding);
        let ghost w3 = w2 + self.copy_table.tag.writes(row, CopyDataType::Padding.spec_code());
        assert(region@ =~= start + w3);
        self.addr_lt_addr_end.assign(region, at, Scalar::zero(), Scalar::one());
        let ghost w4 = w3 + self.addr_lt_addr_end.writes(row, 0, 1);
        assert(region@ =~= start + w4);
        self.is_word_continue.assign(region, at, Scalar::zero(), Scalar::from_u64(31));
        let ghost w5 = w4 + self.is_word_continue.writes(row, 0, 31);
        assert(region@ =~= start + w5);
        self.non_pad_non_mask.assign(region, at, Scalar::one(), Scalar::one());
        let ghost w6 = w5 + self.non_pad_non_mask.writes(row, 1, 1);
        assert(region@ =~= start + w6);
        self.assign_data_type(region, at, CopyDataType::Padding, true);
        assert(region@ =~= start + (w6 + self.data_type_writes(row, CopyDataType::Padding, true)));
        *offset = at + 1;
    }

    /// What is written of the names of the columns.
    pub open spec fn name_writes(self) -> Seq<Write> {
        seq![
            Write::Name(self.is_last, "is_last"@),
            Write::Name(self.value, "value"@),
            Write::Name(self.value_word_rlc, "value_word_rlc"@),
            Write::Name(self.value_word_rlc_prev, "value_word_rlc_prev"@),
            Write::Name(self.word_index, "word_index"@),
            Write::Name(self.mask, "mask"@),
            Write::Name(self.front_mask, "front_mask"@),
            Write::Name(self.is_code, "is_code"@),
            Write::Name(self.is_pad, "is_pad"@),
        ]
    }

    /// What is written of copy events, one after the other from the first row on.
    pub open spec fn events_writes(self, events: Seq<CopyEvent>, rows: Seq<Vec<CopyRow>>) -> Seq<
        Write,
    >
        decreases events.len(),
    {
        if events.len() == 0 {
            Seq::empty()
        } else {
            self.events_writes(events.drop_last(), rows.drop_last()) + self.event_writes(
                copy_rows(events.drop_last()) as int,
                rows.last()@,
                events.last().src_addr_end,
            )
        }
    }

    /// What is written of `n` rows that fill up the circuit from an offset on.
    pub open spec fn padding_writes(self, offset: int, n: nat) -> Seq<Write>
        decreases n,
    {
        if n == 0 {
            Seq::empty()
        } else {
            self.padding_writes(offset, (n - 1) as nat) + self.padding_row_writes(
                offset + n - 1,
                false,
            )
        }
    }

    /// What is written of a circuit of `max_copy_rows` rows: the names, the copy events, rows
    /// that fill it up, and two more that are not enabled.
    pub open spec fn circuit_log(
        self,
        events: Seq<CopyEvent>,
        rows: Seq<Vec<CopyRow>>,
        max_copy_rows: int,
    ) -> Seq<Write> {
        self.name_writes() + self.events_writes(events, rows) + self.padding_writes(
            copy_rows(events) as int,
            (max_copy_rows - copy_rows(events) - 2) as nat,
        ) + self.padding_row_writes(max_copy_rows - 2, true) + self.padding_row_writes(
            max_copy_rows - 1,
            true,
        )
    }

    /// Names the columns.
    fn name_columns(&self, region: &mut Region)
        ensures
            final(region)@ == old(region)@ + self.name_writes(),
    {
        region.name_column(self.is_last, "is_last");
        region.name_column(self.value, "value");
        region.name_column(self.value_word_rlc, "value_word_rlc");
        region.name_column(self.value_word_rlc_prev, "value_word_rlc_prev");
        region.name_column(self.word_index, "word_index");
        region.name_column(self.mask, "mask");
        region.name_column(self.front_mask, "front_mask");
        region.name_column(self.is_code, "is_code");
        region.name_column(self.is_pad, "is_pad");
        assert(region@ =~= old(region)@ + self.name_writes());
    }

    /// Assigns the copy events one after the other.
    fn assign_events(
        &self,
        region: &mut Region,
        offset: &mut usize,
        copy_events: &Vec<CopyEvent>,
        rows: &Vec<Vec<CopyRow>>,
    )
        requires
            self.comparisons_fit(),
            *old(offset) == 0,
            copy_rows(copy_events@) <= usize::MAX,
            rows_of_events(copy_events@, rows@),
        ensures
            *final(offset) == copy_rows(copy_events@),
            final(region)@ == old(region)@ + self.events_writes(copy_events@, rows@),
    {
        let ghost start = region@;
        let mut k: usize = 0;
        assert(region@ =~= start + self.events_writes(copy_events@.take(0), rows@.take(0)));
        while k < copy_events.len()
            invariant
                k <= copy_events@.len(),
                self.comparisons_fit(),
                *offset == copy_rows(copy_events@.take(k as int)),
                copy_rows(copy_events@) <= usize::MAX,
                rows_of_events(copy_events@, rows@),
                region@ == start + self.events_writes(
                    copy_events@.take(k as int),
                    rows@.take(k as int),
                ),
            decreases copy_events@.len() - k,
        {
            let ghost before = region@;
            let ghost first = *offset as int;
            proof {
                lemma_copy_rows_prefix(copy_events@, k + 1);
                assert(copy_events@.take(k + 1).drop_last() =~= copy_events@.take(k as int));
                assert(rows@.take(k + 1).drop_last() =~= rows@.take(k as int));
                assert(rows@[k as int]@.len() == copy_events@[k as int].rows());
            }
            self.assign_copy_event(region, offset, &copy_events[k], &rows[k]);
            proof {
                let writes = self.event_writes(
                    first,
                    rows@[k as int]@,
                    copy_events@[k as int].src_addr_end,
                );
                assert(region@ =~= start + (self.events_writes(
                    copy_events@.take(k as int),
                    rows@.take(k as int),
                ) + writes));
            }
            k += 1;
        }
        assert(copy_events@.take(k as int) =~= copy_events@);
        assert(rows@.take(k as int) =~= rows@);
    }

    /// Assigns rows that fill up the circuit.
    fn assign_padding(&self, region: &mut Region, offset: &mut usize, n: usize)
        requires
            self.comparisons_fit(),
            *old(offset) + n <= usize::MAX,
        ensures
            *final(offset) == *old(offset) + n,
            final(region)@ == old(region)@ + self.padding_writes(*old(offset) as int, n as nat),
    {
        let ghost start = region@;
        let ghost first = *offset as int;
        let mut k: usize = 0;
        assert(region@ =~= start + self.padding_writes(first, 0));
        while k < n
            invariant
                k <= n,
                self.comparisons_fit(),
                *offset == first + k,
                first + n <= usize::MAX,
                region@ == start + self.padding_writes(first, k as nat),
            decreases n - k,
        {
            self.assign_padding_row(region, offset, false);
            assert(region@ =~= start + (self.padding_writes(first, k as nat)
                + self.padding_row_writes(first + k, false)));
            k += 1;
        }
    }

    /// Assigns the copy events, and fills the circuit up to `max_copy_rows` rows. `rows` are the
    /// rows that the copy table holds of each event.
    ///
    /// Two rows are left over after those that are enabled, for the cells that an enabled row
    /// refers to two rows further on.
    pub fn assign_copy_events(
        &self,
        region: &mut Region,
        copy_events: &Vec<CopyEvent>,
        rows: &Vec<Vec<CopyRow>>,
        max_copy_rows: usize,
    )
        requires
            self.comparisons_fit(),
            rows_of_events(copy_events@, rows@),
            copy_rows(copy_events@) + 2 <= max_copy_rows,
        ensures
            final(region)@ == old(region)@ + self.circuit_log(
                copy_events@,
                rows@,
                max_copy_rows as int,
            ),
    {
        let copy_rows_needed: usize = count_copy_rows(copy_events);
        let ghost start = region@;
        let ghost events = self.events_writes(copy_events@, rows@);
        let ghost padding = self.padding_writes(
            copy_rows_needed as int,
            (max_copy_rows - copy_rows_needed - 2) as nat,
        );
        let ghost last_but_one = self.padding_row_writes(max_copy_rows - 2, true);
        let ghost last = self.padding_row_writes(max_copy_rows - 1, true);
        let ghost w1 = self.name_writes();
        let ghost w2 = w1 + events;
        let ghost w3 = w2 + padding;
        let ghost w4 = w3 + last_but_one;
        self.name_columns(region);
        let mut offset: usize = 0;
        self.assign_events(region, &mut offset, copy_events, rows);
        self.assign_padding(region, &mut offset, max_copy_rows - copy_rows_needed - 2);
        self.assign_padding_row(region, &mut offset, true);
        self.assign_padding_row(region, &mut offset, true);
        proof {
            lemma_append(start, w1, events);
            lemma_append(start, w2, padding);
            lemma_append(start, w3, last_but_one);
            lemma_append(start, w4, last);
        }
    }
}

/// Writes that follow one another can be taken together.
proof fn lemma_append(a: Seq<Write>, b: Seq<Write>, c: Seq<Write>)
    ensures
        (a + b) + c == a + (b + c),
{
    assert((a + b) + c =~= a + (b + c));
}

/// There are rows for each event, two for each of its bytes.
pub open spec fn rows_of_events(events: Seq<CopyEvent>, rows: Seq<Vec<CopyRow>>) -> bool {
    &&& rows.len() == events.len()
    &&& forall|k: int|
        0 <= k < events.len() ==> (#[trigger] rows[k])@.len() == events[k].rows()
}

/// What a cell of a column for a data type is called.
fn label_of(padding: bool, name: &'static str) -> (r: Label)
    ensures
        r == data_type_label(padding, name),
{
    if padding {
        Label::PaddingRow
    } else {
        Label::AtRow(name)
    }
}

/// One for a true statement, zero for a false one.
fn flag(b: bool) -> (r: u64)
    ensures
        r == number_of(b),
{
    if b {
        1
    } else {
        0
    }
}

} // verus!
