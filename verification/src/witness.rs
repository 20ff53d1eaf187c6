//! What the cells of the copy circuit hold once its rows are filled, and which constraints they
//! satisfy.
use vstd::prelude::*;
use vstd::arithmetic::div_mod::lemma_small_mod;
use crate::assign::{known, number_of, rows_of_events, CopyRow};
use crate::binary_number::{law_indicator, lemma_bits};
use crate::config::CopyCircuitConfig;
use crate::copy_event::{copy_rows, CopyDataType, CopyEvent, PrecompileCalls};
use crate::copy_event::law_codes_are_distinct;
use crate::expression::{AdviceColumn, Expr, Trace};
use crate::field::{modulus, Scalar};
use crate::less_than::{byte_of, law_assigned_comparison_holds, range, LtConfig};
use crate::region::{Label, Write};

verus! {

/// The cells are as a write says. A cell of unknown value may hold anything.
pub open spec fn holds(t: Trace, w: Write) -> bool {
    match w {
        Write::Name(_, _) => true,
        Write::Advice(c, row, Some(v), _) => (t.advice)(c, row) == v,
        Write::Advice(_, _, None, _) => true,
        Write::Fixed(c, row, v, _) => (t.fixed)(c, row) == v,
        Write::Enable(s, row) => (t.selector)(s, row) == 1,
    }
}

/// The cells are as all writes say.
pub open spec fn all_hold(t: Trace, log: Seq<Write>) -> bool {
    forall|k: int| 0 <= k < log.len() ==> holds(t, #[trigger] log[k])
}

/// Fixed columns are written and selectors enabled only in rows from the first on and before
/// `high`, and selectors only in every other row.
pub open spec fn enables_before(log: Seq<Write>, high: int) -> bool {
    forall|k: int|
        0 <= k < log.len() ==> match #[trigger] log[k] {
            Write::Fixed(_, row, _, _) => 0 <= row < high,
            Write::Enable(_, row) => 0 <= row < high && row % 2 == 0,
            _ => true,
        }
}

/// All statements of a table hold.
pub open spec fn all_true(table: Seq<(Seq<char>, bool)>) -> bool {
    forall|k: int| 0 <= k < table.len() ==> (#[trigger] table[k]).1
}

/// Writes that follow one another hold exactly where each of the two groups holds.
proof fn lemma_all_hold_append(t: Trace, a: Seq<Write>, b: Seq<Write>)
    ensures
        all_hold(t, a + b) <==> all_hold(t, a) && all_hold(t, b),
{
    if all_hold(t, a + b) {
        assert forall|k: int| 0 <= k < a.len() implies holds(t, #[trigger] a[k]) by {
            assert(a[k] == (a + b)[k]);
        }
        assert forall|k: int| 0 <= k < b.len() implies holds(t, #[trigger] b[k]) by {
            assert(b[k] == (a + b)[a.len() + k]);
        }
    }
}

/// Writes that follow one another enable rows where each of the two groups does.
proof fn lemma_enables_append(a: Seq<Write>, b: Seq<Write>, high: int)
    requires
        enables_before(a, high),
        enables_before(b, high),
    ensures
        enables_before(a + b, high),
{
    assert forall|k: int| 0 <= k < (a + b).len() implies match #[trigger] (a + b)[k] {
        Write::Fixed(_, row, _, _) => 0 <= row < high,
        Write::Enable(_, row) => 0 <= row < high && row % 2 == 0,
        _ => true,
    } by {
        if k < a.len() {
            assert((a + b)[k] == a[k]);
        } else {
            assert((a + b)[k] == b[k - a.len()]);
        }
    }
}

impl CopyCircuitConfig {
    /// The cells are as the assignment of copy events leaves them: as it wrote them, and where it
    /// did not enable a row, that row is not enabled.
    pub open spec fn filled(
        self,
        t: Trace,
        events: Seq<CopyEvent>,
        rows: Seq<Vec<CopyRow>>,
        max_copy_rows: int,
    ) -> bool {
        let log = self.circuit_log(events, rows, max_copy_rows);
        &&& all_hold(t, log)
        &&& forall|row: int|
            (forall|v: nat, label: Label|
                !log.contains(Write::Fixed(self.q_enable, row, v, label))) ==> #[trigger] (
            t.fixed)(self.q_enable, row) == 0
        &&& forall|row: int|
            !log.contains(Write::Enable(self.q_step, row)) ==> #[trigger] (t.selector)(
                self.q_step,
                row,
            ) == 0
    }

    /// The cells of a row that fills up the circuit.
    pub open spec fn is_padding_row(self, t: Trace, row: int) -> bool {
        let ct = self.copy_table;
        &&& Self::cell(t, ct.is_first, row) == 0
        &&& Self::cell(t, self.is_last, row) == 0
        &&& Self::cell(t, ct.id, row) == 0
        &&& Self::cell(t, ct.addr, row) == 0
        &&& Self::cell(t, ct.src_addr_end, row) == 1
        &&& Self::cell(t, ct.bytes_left, row) == 0
        &&& Self::cell(t, ct.real_bytes_left, row) == 0
        &&& Self::cell(t, self.value, row) == 0
        &&& Self::cell(t, self.value_word_rlc, row) == 0
        &&& Self::cell(t, self.value_word_rlc_prev, row) == 0
        &&& Self::cell(t, self.word_index, row) == 0
        &&& Self::cell(t, self.mask, row) == 1
        &&& Self::cell(t, self.front_mask, row) == 1
        &&& Self::cell(t, self.value_acc, row) == 0
        &&& Self::cell(t, ct.rlc_acc, row) == 0
        &&& Self::cell(t, self.is_code, row) == 0
        &&& Self::cell(t, self.is_pad, row) == 0
        &&& Self::cell(t, ct.rw_counter, row) == 0
        &&& Self::cell(t, ct.rwc_inc_left, row) == 0
        &&& Self::cell(t, ct.tag.bit_8, row) == 0
        &&& Self::cell(t, ct.tag.bit_4, row) == 0
        &&& Self::cell(t, ct.tag.bit_2, row) == 0
        &&& Self::cell(t, ct.tag.bit_1, row) == 0
        &&& Self::cell(t, self.is_precompiled, row) == 0
        &&& Self::cell(t, self.is_tx_calldata, row) == 0
        &&& Self::cell(t, self.is_bytecode, row) == 0
        &&& Self::cell(t, self.is_memory, row) == 0
        &&& Self::cell(t, self.is_tx_log, row) == 0
        &&& Self::is_compared(self.addr_lt_addr_end, t, row, 0, 1)
        &&& Self::is_compared(self.is_word_continue, t, row, 0, 31)
        &&& Self::is_compared(self.non_pad_non_mask, t, row, 1, 1)
    }

    /// The cells of the comparison of two numbers.
    pub open spec fn is_compared(config: LtConfig, t: Trace, row: int, lhs: nat, rhs: nat) -> bool {
        &&& Self::cell(t, config.lt, row) == LtConfig::bit(lhs, rhs)
        &&& forall|k: int|
            0 <= k < config.diff@.len() ==> Self::cell(t, #[trigger] config.diff@[k], row)
                == byte_of(LtConfig::difference(config.diff@.len(), lhs, rhs), k as nat)
    }

    /// The cells of a comparison are as its assignment wrote them.
    proof fn lemma_compared(config: LtConfig, t: Trace, row: int, lhs: nat, rhs: nat)
        requires
            all_hold(t, config.writes(row, lhs, rhs)),
        ensures
            Self::is_compared(config, t, row, lhs, rhs),
    {
        let w = config.writes(row, lhs, rhs);
        assert(holds(t, w[0]));
        assert forall|k: int| 0 <= k < config.diff@.len() implies Self::cell(
            t,
            #[trigger] config.diff@[k],
            row,
        ) == byte_of(LtConfig::difference(config.diff@.len(), lhs, rhs), k as nat) by {
            assert(holds(t, w[k + 1]));
        }
    }

    /// The cells of a row that fills up the circuit are as its assignment wrote them.
    proof fn lemma_padding_row(self, t: Trace, row: int, is_last_two: bool)
        requires
            all_hold(t, self.padding_row_writes(row, is_last_two)),
        ensures
            self.is_padding_row(t, row),
            !is_last_two ==> (t.fixed)(self.q_enable, row) == 1,
            !is_last_two && row % 2 == 0 ==> (t.selector)(self.q_step, row) == 1,
    {
        let w1 = self.padding_selectors(row, is_last_two);
        let w2 = self.padding_values(row);
        let w3 = self.copy_table.tag.writes(row, CopyDataType::Padding.spec_code());
        let w4 = self.addr_lt_addr_end.writes(row, 0, 1);
        let w5 = self.is_word_continue.writes(row, 0, 31);
        let w6 = self.non_pad_non_mask.writes(row, 1, 1);
        let w7 = self.data_type_writes(row, CopyDataType::Padding, true);
        lemma_all_hold_append(t, w1 + w2 + w3 + w4 + w5 + w6, w7);
        lemma_all_hold_append(t, w1 + w2 + w3 + w4 + w5, w6);
        lemma_all_hold_append(t, w1 + w2 + w3 + w4, w5);
        lemma_all_hold_append(t, w1 + w2 + w3, w4);
        lemma_all_hold_append(t, w1 + w2, w3);
        lemma_all_hold_append(t, w1, w2);
        Self::lemma_compared(self.addr_lt_addr_end, t, row, 0, 1);
        Self::lemma_compared(self.is_word_continue, t, row, 0, 31);
        Self::lemma_compared(self.non_pad_non_mask, t, row, 1, 1);
        assert(w2.len() == 19);
        assert(forall|k: int| 0 <= k < 19 ==> holds(t, #[trigger] w2[k]));
        assert(holds(t, w2[0]) && holds(t, w2[1]) && holds(t, w2[2]) && holds(t, w2[3]));
        assert(holds(t, w2[4]) && holds(t, w2[5]) && holds(t, w2[6]) && holds(t, w2[7]));
        assert(holds(t, w2[8]) && holds(t, w2[9]) && holds(t, w2[10]) && holds(t, w2[11]));
        assert(holds(t, w2[12]) && holds(t, w2[13]) && holds(t, w2[14]) && holds(t, w2[15]));
        assert(holds(t, w2[16]) && holds(t, w2[17]) && holds(t, w2[18]));
        assert(holds(t, w3[0]) && holds(t, w3[1]) && holds(t, w3[2]) && holds(t, w3[3]));
        assert(holds(t, w7[0]) && holds(t, w7[1]) && holds(t, w7[2]) && holds(t, w7[3])
            && holds(t, w7[4]));
        if !is_last_two {
            assert(holds(t, w1[0]));
            if row % 2 == 0 {
                assert(holds(t, w1[1]));
            }
        }
    }

    /// Among rows that fill up the circuit, the cells of each are as its assignment wrote them.
    proof fn lemma_padding_rows(self, t: Trace, offset: int, n: nat, row: int)
        requires
            all_hold(t, self.padding_writes(offset, n)),
            offset <= row < offset + n,
        ensures
            all_hold(t, self.padding_row_writes(row, false)),
        decreases n,
    {
        let rest = self.padding_writes(offset, (n - 1) as nat);
        let last = self.padding_row_writes(offset + n - 1, false);
        lemma_all_hold_append(t, rest, last);
        if row < offset + n - 1 {
            self.lemma_padding_rows(t, offset, (n - 1) as nat, row);
        }
    }

    /// A row that fills up the circuit is enabled unless it is one of the last two.
    proof fn lemma_padding_enables(self, row: int, is_last_two: bool, high: int)
        requires
            is_last_two || 0 <= row < high,
        ensures
            enables_before(self.padding_row_writes(row, is_last_two), high),
    {
        let w1 = self.padding_selectors(row, is_last_two);
        let w2 = self.padding_values(row);
        let w3 = self.copy_table.tag.writes(row, CopyDataType::Padding.spec_code());
        let w4 = self.addr_lt_addr_end.writes(row, 0, 1);
        let w5 = self.is_word_continue.writes(row, 0, 31);
        let w6 = self.non_pad_non_mask.writes(row, 1, 1);
        let w7 = self.data_type_writes(row, CopyDataType::Padding, true);
        lemma_enables_append(w1, w2, high);
        lemma_enables_append(w1 + w2, w3, high);
        lemma_enables_append(w1 + w2 + w3, w4, high);
        lemma_enables_append(w1 + w2 + w3 + w4, w5, high);
        lemma_enables_append(w1 + w2 + w3 + w4 + w5, w6, high);
        lemma_enables_append(w1 + w2 + w3 + w4 + w5 + w6, w7, high);
    }

    /// The rows that fill up the circuit are enabled.
    proof fn lemma_paddings_enable(self, offset: int, n: nat, high: int)
        requires
            0 <= offset,
            offset + n <= high,
        ensures
            enables_before(self.padding_writes(offset, n), high),
        decreases n,
    {
        if n > 0 {
            self.lemma_paddings_enable(offset, (n - 1) as nat, high);
            self.lemma_padding_enables(offset + n - 1, false, high);
            lemma_enables_append(
                self.padding_writes(offset, (n - 1) as nat),
                self.padding_row_writes(offset + n - 1, false),
                high,
            );
        }
    }

    /// A row of a copy event is enabled, and its selector where it is a read row.
    proof fn lemma_row_enables(
        self,
        offset: int,
        index: int,
        row: CopyRow,
        src_addr_end: u64,
        high: int,
    )
        requires
            0 <= offset < high,
            offset % 2 == index % 2,
        ensures
            enables_before(self.row_writes(offset, index, row, src_addr_end), high),
    {
        let is_read = index % 2 == 0;
        let w1 = seq![Write::Fixed(self.q_enable, offset, 1, Label::AtRow("q_enable"))];
        let w4 = seq![Write::Fixed(self.q_enable, offset, 1, Label::Text("q_enable"))];
        let w2 = self.table_writes(offset, is_read, row.table);
        let w3 = if is_read {
            seq![Write::Enable(self.q_step, offset)]
        } else {
            Seq::empty()
        };
        let w5 = self.circuit_writes(offset, row.circuit);
        let w6 = self.copy_table.tag.writes(offset, row.tag.spec_code());
        let w7 = self.row_comparisons(offset, index, row, src_addr_end);
        let w8 = self.data_type_writes(offset, row.tag, false);
        lemma_enables_append(w1, w2, high);
        lemma_enables_append(w1 + w2, w3, high);
        lemma_enables_append(w1 + w2 + w3, w4, high);
        lemma_enables_append(w1 + w2 + w3 + w4, w5, high);
        lemma_enables_append(w1 + w2 + w3 + w4 + w5, w6, high);
        lemma_enables_append(self.row_values(offset, is_read, row), w7, high);
        lemma_enables_append(self.row_values(offset, is_read, row) + w7, w8, high);
    }

    /// The rows of a copy event are enabled.
    proof fn lemma_event_enables(
        self,
        offset: int,
        rows: Seq<CopyRow>,
        src_addr_end: u64,
        high: int,
    )
        requires
            0 <= offset,
            offset % 2 == 0,
            offset + rows.len() <= high,
        ensures
            enables_before(self.event_writes(offset, rows, src_addr_end), high),
        decreases rows.len(),
    {
        if rows.len() > 0 {
            let last = rows.len() - 1;
            self.lemma_event_enables(offset, rows.drop_last(), src_addr_end, high);
            self.lemma_row_enables(offset + last, last, rows.last(), src_addr_end, high);
            lemma_enables_append(
                self.event_writes(offset, rows.drop_last(), src_addr_end),
                self.row_writes(offset + last, last, rows.last(), src_addr_end),
                high,
            );
        }
    }

    /// The rows of copy events are enabled.
    proof fn lemma_events_enable(self, events: Seq<CopyEvent>, rows: Seq<Vec<CopyRow>>, high: int)
        requires
            rows_of_events(events, rows),
            copy_rows(events) <= high,
        ensures
            enables_before(self.events_writes(events, rows), high),
            copy_rows(events) % 2 == 0,
        decreases events.len(),
    {
        if events.len() > 0 {
            let n = events.len() - 1;
            let first = copy_rows(events.drop_last());
            self.lemma_events_enable(events.drop_last(), rows.drop_last(), high);
            assert(rows[n]@.len() == events[n].rows());
            self.lemma_event_enables(
                first as int,
                rows.last()@,
                events.last().src_addr_end,
                high,
            );
            lemma_enables_append(
                self.events_writes(events.drop_last(), rows.drop_last()),
                self.event_writes(first as int, rows.last()@, events.last().src_addr_end),
                high,
            );
        }
    }

    /// No row is enabled but those before the last two.
    proof fn lemma_circuit_enables(
        self,
        events: Seq<CopyEvent>,
        rows: Seq<Vec<CopyRow>>,
        max_copy_rows: int,
    )
        requires
            rows_of_events(events, rows),
            copy_rows(events) + 2 <= max_copy_rows,
        ensures
            enables_before(self.circuit_log(events, rows, max_copy_rows), max_copy_rows - 2),
    {
        let high = max_copy_rows - 2;
        let n = (high - copy_rows(events)) as nat;
        let w1 = self.name_writes();
        let w2 = self.events_writes(events, rows);
        let w3 = self.padding_writes(copy_rows(events) as int, n);
        let w4 = self.padding_row_writes(max_copy_rows - 2, true);
        let w5 = self.padding_row_writes(max_copy_rows - 1, true);
        self.lemma_events_enable(events, rows, high);
        self.lemma_paddings_enable(copy_rows(events) as int, n, high);
        self.lemma_padding_enables(max_copy_rows - 2, true, high);
        self.lemma_padding_enables(max_copy_rows - 1, true, high);
        lemma_enables_append(w1, w2, high);
        lemma_enables_append(w1 + w2, w3, high);
        lemma_enables_append(w1 + w2 + w3, w4, high);
        lemma_enables_append(w1 + w2 + w3 + w4, w5, high);
    }

    /// The cells of the row of a copy event at an index, as far as their values are known.
    pub open spec fn is_copy_row(
        self,
        t: Trace,
        row: int,
        index: int,
        copy_row: CopyRow,
        src_addr_end: u64,
    ) -> bool {
        let ct = self.copy_table;
        let table = copy_row.table;
        let circuit = copy_row.circuit;
        let code = copy_row.tag.spec_code();
        &&& is_given(t, ct.is_first, row, table.is_first)
        &&& is_given(t, ct.id, row, table.id)
        &&& is_given(t, ct.addr, row, table.addr)
        &&& index % 2 == 0 ==> is_given(t, ct.src_addr_end, row, table.src_addr_end)
        &&& index % 2 == 0 ==> is_given(t, ct.bytes_left, row, table.bytes_left)
        &&& is_given(t, ct.real_bytes_left, row, table.real_bytes_left)
        &&& is_given(t, ct.rlc_acc, row, table.rlc_acc)
        &&& is_given(t, ct.rw_counter, row, table.rw_counter)
        &&& is_given(t, ct.rwc_inc_left, row, table.rwc_inc_left)
        &&& is_given(t, self.is_last, row, circuit.is_last)
        &&& is_given(t, self.value, row, circuit.value)
        &&& is_given(t, self.value_word_rlc, row, circuit.value_word_rlc)
        &&& is_given(t, self.value_word_rlc_prev, row, circuit.value_word_rlc_prev)
        &&& is_given(t, self.rlc_acc_read, row, circuit.rlc_acc_read)
        &&& is_given(t, self.rlc_acc_write, row, circuit.rlc_acc_write)
        &&& is_given(t, self.value_acc, row, circuit.value_acc)
        &&& is_given(t, self.is_pad, row, circuit.is_pad)
        &&& is_given(t, self.is_code, row, circuit.is_code)
        &&& is_given(t, self.mask, row, circuit.mask)
        &&& is_given(t, self.front_mask, row, circuit.front_mask)
        &&& is_given(t, self.word_index, row, circuit.word_index)
        &&& Self::cell(t, ct.tag.bit_8, row) == (code / 8) % 2
        &&& Self::cell(t, ct.tag.bit_4, row) == (code / 4) % 2
        &&& Self::cell(t, ct.tag.bit_2, row) == (code / 2) % 2
        &&& Self::cell(t, ct.tag.bit_1, row) == code % 2
        &&& index % 2 == 0 ==> Self::is_compared(
            self.addr_lt_addr_end,
            t,
            row,
            known(table.addr),
            src_addr_end as nat,
        )
        &&& Self::is_compared(self.is_word_continue, t, row, ((index / 2) % 32) as nat, 31)
        &&& Self::is_compared(
            self.non_pad_non_mask,
            t,
            row,
            (known(circuit.is_pad) + known(circuit.mask)) % modulus(),
            1,
        )
        &&& Self::cell(t, self.is_precompiled, row) == number_of(copy_row.tag is Precompile)
        &&& Self::cell(t, self.is_tx_calldata, row) == number_of(
            copy_row.tag == CopyDataType::TxCalldata,
        )
        &&& Self::cell(t, self.is_bytecode, row) == number_of(
            copy_row.tag == CopyDataType::Bytecode,
        )
        &&& Self::cell(t, self.is_memory, row) == number_of(copy_row.tag == CopyDataType::Memory)
        &&& Self::cell(t, self.is_tx_log, row) == number_of(copy_row.tag == CopyDataType::TxLog)
    }

    /// The cells of a row of a copy event are as its assignment wrote them.
    #[verifier::rlimit(50)]
    proof fn lemma_copy_row(
        self,
        t: Trace,
        row: int,
        index: int,
        copy_row: CopyRow,
        src_addr_end: u64,
    )
        requires
            all_hold(t, self.row_writes(row, index, copy_row, src_addr_end)),
        ensures
            self.is_copy_row(t, row, index, copy_row, src_addr_end),
            (t.fixed)(self.q_enable, row) == 1,
            index % 2 == 0 ==> (t.selector)(self.q_step, row) == 1,
    {
        let is_read = index % 2 == 0;
        let w1 = seq![Write::Fixed(self.q_enable, row, 1, Label::AtRow("q_enable"))];
        let w4 = seq![Write::Fixed(self.q_enable, row, 1, Label::Text("q_enable"))];
        let w2 = self.table_writes(row, is_read, copy_row.table);
        let w3 = if is_read {
            seq![Write::Enable(self.q_step, row)]
        } else {
            Seq::empty()
        };
        let w5 = self.circuit_writes(row, copy_row.circuit);
        let w6 = self.copy_table.tag.writes(row, copy_row.tag.spec_code());
        let values = self.row_values(row, is_read, copy_row);
        let w7 = self.row_comparisons(row, index, copy_row, src_addr_end);
        let w8 = self.data_type_writes(row, copy_row.tag, false);
        lemma_all_hold_append(t, values + w7, w8);
        lemma_all_hold_append(t, values, w7);
        lemma_all_hold_append(t, w1 + w2 + w3 + w4 + w5, w6);
        lemma_all_hold_append(t, w1 + w2 + w3 + w4, w5);
        lemma_all_hold_append(t, w1 + w2 + w3, w4);
        lemma_all_hold_append(t, w1 + w2, w3);
        lemma_all_hold_append(t, w1, w2);
        let c1 = if is_read {
            self.addr_lt_addr_end.writes(row, known(copy_row.table.addr), src_addr_end as nat)
        } else {
            Seq::empty()
        };
        let c2 = self.is_word_continue.writes(row, ((index / 2) % 32) as nat, 31);
        let pad_and_mask = (known(copy_row.circuit.is_pad) + known(copy_row.circuit.mask))
            % modulus();
        let c3 = self.non_pad_non_mask.writes(row, pad_and_mask, 1);
        lemma_all_hold_append(t, c1 + c2, c3);
        lemma_all_hold_append(t, c1, c2);
        if is_read {
            Self::lemma_compared(
                self.addr_lt_addr_end,
                t,
                row,
                known(copy_row.table.addr),
                src_addr_end as nat,
            );
            assert(holds(t, w3[0]));
        }
        Self::lemma_compared(self.is_word_continue, t, row, ((index / 2) % 32) as nat, 31);
        Self::lemma_compared(self.non_pad_non_mask, t, row, pad_and_mask, 1);
        assert(holds(t, w1[0]));
        assert(holds(t, w2[0]) && holds(t, w2[1]) && holds(t, w2[2]) && holds(t, w2[3]));
        assert(holds(t, w2[4]) && holds(t, w2[5]) && holds(t, w2[6]));
        if is_read {
            assert(holds(t, w2[7]) && holds(t, w2[8]));
        }
        assert(holds(t, w5[0]) && holds(t, w5[1]) && holds(t, w5[2]) && holds(t, w5[3]));
        assert(holds(t, w5[4]) && holds(t, w5[5]) && holds(t, w5[6]) && holds(t, w5[7]));
        assert(holds(t, w5[8]) && holds(t, w5[9]) && holds(t, w5[10]) && holds(t, w5[11]));
        assert(holds(t, w6[0]) && holds(t, w6[1]) && holds(t, w6[2]) && holds(t, w6[3]));
        assert(holds(t, w8[0]) && holds(t, w8[1]) && holds(t, w8[2]) && holds(t, w8[3])
            && holds(t, w8[4]));
    }

    /// Among the rows of a copy event, the cells of each are as its assignment wrote them.
    proof fn lemma_event_rows(
        self,
        t: Trace,
        offset: int,
        rows: Seq<CopyRow>,
        src_addr_end: u64,
        i: int,
    )
        requires
            all_hold(t, self.event_writes(offset, rows, src_addr_end)),
            0 <= i < rows.len(),
        ensures
            all_hold(t, self.row_writes(offset + i, i, rows[i], src_addr_end)),
        decreases rows.len(),
    {
        let last = rows.len() - 1;
        lemma_all_hold_append(
            t,
            self.event_writes(offset, rows.drop_last(), src_addr_end),
            self.row_writes(offset + last, last, rows.last(), src_addr_end),
        );
        if i < last {
            self.lemma_event_rows(t, offset, rows.drop_last(), src_addr_end, i);
        }
    }

    /// Among copy events, the cells of each are as its assignment wrote them.
    proof fn lemma_events_rows(
        self,
        t: Trace,
        events: Seq<CopyEvent>,
        rows: Seq<Vec<CopyRow>>,
        k: int,
    )
        requires
            all_hold(t, self.events_writes(events, rows)),
            rows_of_events(events, rows),
            0 <= k < events.len(),
        ensures
            all_hold(
                t,
                self.event_writes(
                    copy_rows(events.take(k)) as int,
                    rows[k]@,
                    events[k].src_addr_end,
                ),
            ),
        decreases events.len(),
    {
        let n = events.len() - 1;
        lemma_all_hold_append(
            t,
            self.events_writes(events.drop_last(), rows.drop_last()),
            self.event_writes(
                copy_rows(events.drop_last()) as int,
                rows.last()@,
                events.last().src_addr_end,
            ),
        );
        if k < n {
            self.lemma_events_rows(t, events.drop_last(), rows.drop_last(), k);
            assert(events.drop_last().take(k) =~= events.take(k));
        } else {
            assert(events.take(k) =~= events.drop_last());
        }
    }

    /// The groups of writes of the circuit hold.
    proof fn lemma_circuit_holds(
        self,
        t: Trace,
        events: Seq<CopyEvent>,
        rows: Seq<Vec<CopyRow>>,
        max_copy_rows: int,
    )
        requires
            all_hold(t, self.circuit_log(events, rows, max_copy_rows)),
        ensures
            all_hold(t, self.events_writes(events, rows)),
            all_hold(
                t,
                self.padding_writes(
                    copy_rows(events) as int,
                    (max_copy_rows - copy_rows(events) - 2) as nat,
                ),
            ),
            all_hold(t, self.padding_row_writes(max_copy_rows - 2, true)),
            all_hold(t, self.padding_row_writes(max_copy_rows - 1, true)),
    {
        let w1 = self.name_writes();
        let w2 = self.events_writes(events, rows);
        let w3 = self.padding_writes(
            copy_rows(events) as int,
            (max_copy_rows - copy_rows(events) - 2) as nat,
        );
        let w4 = self.padding_row_writes(max_copy_rows - 2, true);
        let w5 = self.padding_row_writes(max_copy_rows - 1, true);
        lemma_all_hold_append(t, w1 + w2 + w3 + w4, w5);
        lemma_all_hold_append(t, w1 + w2 + w3, w4);
        lemma_all_hold_append(t, w1 + w2, w3);
        lemma_all_hold_append(t, w1, w2);
    }
}

/// A cell holds a value, where the value is known.
pub open spec fn is_given(t: Trace, column: AdviceColumn, row: int, value: Option<Scalar>) -> bool {
    value matches Some(s) ==> (t.advice)(column, row) == s.value()
}

/// A row of copy events belongs to one of the events.
pub proof fn lemma_find_event(events: Seq<CopyEvent>, row: int) -> (k: int)
    requires
        0 <= row < copy_rows(events),
    ensures
        0 <= k < events.len(),
        copy_rows(events.take(k)) <= row < copy_rows(events.take(k)) + events[k].rows(),
    decreases events.len(),
{
    let n = events.len() - 1;
    assert(events.take(n) =~= events.drop_last());
    if row < copy_rows(events.drop_last()) {
        let k = lemma_find_event(events.drop_last(), row);
        assert(events.drop_last().take(k) =~= events.take(k));
        k
    } else {
        n
    }
}

/// Every row but the last two is enabled, and among these every other row, starting with the
/// first, is a step.
pub proof fn law_enabled_rows(
    config: CopyCircuitConfig,
    t: Trace,
    events: Seq<CopyEvent>,
    rows: Seq<Vec<CopyRow>>,
    max_copy_rows: int,
    row: int,
)
    requires
        rows_of_events(events, rows),
        copy_rows(events) + 2 <= max_copy_rows,
        config.filled(t, events, rows, max_copy_rows),
    ensures
        (t.fixed)(config.q_enable, row) == (if 0 <= row < max_copy_rows - 2 {
            1int
        } else {
            0int
        }),
        config.step(t, row) == (if 0 <= row < max_copy_rows - 2 && row % 2 == 0 {
            1int
        } else {
            0int
        }),
{
    let log = config.circuit_log(events, rows, max_copy_rows);
    config.lemma_circuit_holds(t, events, rows, max_copy_rows);
    config.lemma_circuit_enables(events, rows, max_copy_rows);
    config.lemma_events_enable(events, rows, max_copy_rows);
    if 0 <= row < max_copy_rows - 2 {
        if row < copy_rows(events) {
            let k = lemma_find_event(events, row);
            let first = copy_rows(events.take(k)) as int;
            lemma_even_copy_rows(events.take(k));
            config.lemma_events_rows(t, events, rows, k);
            assert(rows[k]@.len() == events[k].rows());
            config.lemma_event_rows(t, first, rows[k]@, events[k].src_addr_end, row - first);
            config.lemma_copy_row(
                t,
                row,
                row - first,
                rows[k]@[row - first],
                events[k].src_addr_end,
            );
        } else {
            config.lemma_padding_rows(
                t,
                copy_rows(events) as int,
                (max_copy_rows - copy_rows(events) - 2) as nat,
                row,
            );
            config.lemma_padding_row(t, row, false);
        }
    } else {
        assert forall|v: nat, label: Label|
            !log.contains(Write::Fixed(config.q_enable, row, v, label)) by {
            let w = Write::Fixed(config.q_enable, row, v, label);
            if log.contains(w) {
                let k = choose|k: int| 0 <= k < log.len() && log[k] == w;
                assert(log[k] is Fixed);
            }
        }
    }
    if !(0 <= row < max_copy_rows - 2 && row % 2 == 0) {
        if log.contains(Write::Enable(config.q_step, row)) {
            let k = choose|k: int|
                0 <= k < log.len() && log[k] == Write::Enable(config.q_step, row);
            assert(log[k] is Enable);
        }
    }
}

/// Each row of a copy event holds what the copy table says of it, the data type of its source or
/// destination, and its comparisons.
pub proof fn law_copy_rows(
    config: CopyCircuitConfig,
    t: Trace,
    events: Seq<CopyEvent>,
    rows: Seq<Vec<CopyRow>>,
    max_copy_rows: int,
    k: int,
    i: int,
)
    requires
        rows_of_events(events, rows),
        config.filled(t, events, rows, max_copy_rows),
        0 <= k < events.len(),
        0 <= i < rows[k]@.len(),
    ensures
        config.is_copy_row(
            t,
            copy_rows(events.take(k)) + i,
            i,
            rows[k]@[i],
            events[k].src_addr_end,
        ),
{
    let first = copy_rows(events.take(k)) as int;
    config.lemma_circuit_holds(t, events, rows, max_copy_rows);
    config.lemma_events_rows(t, events, rows, k);
    config.lemma_event_rows(t, first, rows[k]@, events[k].src_addr_end, i);
    config.lemma_copy_row(t, first + i, i, rows[k]@[i], events[k].src_addr_end);
}

/// Each row after the copy events is one that fills up the circuit.
pub proof fn law_padding_rows(
    config: CopyCircuitConfig,
    t: Trace,
    events: Seq<CopyEvent>,
    rows: Seq<Vec<CopyRow>>,
    max_copy_rows: int,
    row: int,
)
    requires
        config.filled(t, events, rows, max_copy_rows),
        copy_rows(events) + 2 <= max_copy_rows,
        copy_rows(events) <= row < max_copy_rows,
    ensures
        config.is_padding_row(t, row),
{
    config.lemma_circuit_holds(t, events, rows, max_copy_rows);
    if row < max_copy_rows - 2 {
        config.lemma_padding_rows(
            t,
            copy_rows(events) as int,
            (max_copy_rows - copy_rows(events) - 2) as nat,
            row,
        );
        config.lemma_padding_row(t, row, false);
    } else {
        config.lemma_padding_row(t, row, true);
    }
}

/// Copy events take an even number of rows.
proof fn lemma_even_copy_rows(events: Seq<CopyEvent>)
    ensures
        copy_rows(events) % 2 == 0,
    decreases events.len(),
{
    if events.len() > 0 {
        lemma_even_copy_rows(events.drop_last());
    }
}

/// On a row whose tag holds the code of a data type, the indicator of a data type is one for that
/// type, and zero for the others.
proof fn lemma_tagged(
    config: CopyCircuitConfig,
    t: Trace,
    row: int,
    tag: CopyDataType,
    other: CopyDataType,
)
    requires
        CopyCircuitConfig::cell(t, config.copy_table.tag.bit_8, row) == (tag.spec_code() / 8) % 2,
        CopyCircuitConfig::cell(t, config.copy_table.tag.bit_4, row) == (tag.spec_code() / 4) % 2,
        CopyCircuitConfig::cell(t, config.copy_table.tag.bit_2, row) == (tag.spec_code() / 2) % 2,
        CopyCircuitConfig::cell(t, config.copy_table.tag.bit_1, row) == tag.spec_code() % 2,
    ensures
        config.tagged(other, t, row) == number_of(tag == other),
{
    law_codes_are_distinct(tag, other);
    law_codes_are_distinct(other, tag);
    law_indicator(config.copy_table.tag, other.spec_code(), t, row);
    lemma_bits(tag.spec_code());
}

/// The statements of a row on the data types hold where its tag and the columns for the data
/// types were written for one data type.
proof fn lemma_decoded(
    config: CopyCircuitConfig,
    t: Trace,
    row: int,
    tag: CopyDataType,
    p: int,
)
    requires
        p > 1,
        CopyCircuitConfig::cell(t, config.copy_table.tag.bit_8, row) == (tag.spec_code() / 8) % 2,
        CopyCircuitConfig::cell(t, config.copy_table.tag.bit_4, row) == (tag.spec_code() / 4) % 2,
        CopyCircuitConfig::cell(t, config.copy_table.tag.bit_2, row) == (tag.spec_code() / 2) % 2,
        CopyCircuitConfig::cell(t, config.copy_table.tag.bit_1, row) == tag.spec_code() % 2,
        CopyCircuitConfig::cell(t, config.is_precompiled, row) == number_of(tag is Precompile),
        CopyCircuitConfig::cell(t, config.is_tx_calldata, row) == number_of(
            tag == CopyDataType::TxCalldata,
        ),
        CopyCircuitConfig::cell(t, config.is_bytecode, row) == number_of(
            tag == CopyDataType::Bytecode,
        ),
        CopyCircuitConfig::cell(t, config.is_memory, row) == number_of(
            tag == CopyDataType::Memory,
        ),
        CopyCircuitConfig::cell(t, config.is_tx_log, row) == number_of(
            tag == CopyDataType::TxLog,
        ),
    ensures
        all_true(config.decode_tag(t, row, p)),
{
    lemma_tagged(config, t, row, tag, CopyDataType::TxCalldata);
    lemma_tagged(config, t, row, tag, CopyDataType::Bytecode);
    lemma_tagged(config, t, row, tag, CopyDataType::Memory);
    lemma_tagged(config, t, row, tag, CopyDataType::TxLog);
    lemma_tagged(config, t, row, tag, CopyDataType::Precompile(PrecompileCalls::Ecrecover));
    lemma_tagged(config, t, row, tag, CopyDataType::Precompile(PrecompileCalls::Sha256));
    lemma_tagged(config, t, row, tag, CopyDataType::Precompile(PrecompileCalls::Ripemd160));
    lemma_tagged(config, t, row, tag, CopyDataType::Precompile(PrecompileCalls::Identity));
    lemma_tagged(config, t, row, tag, CopyDataType::Precompile(PrecompileCalls::Modexp));
    lemma_tagged(config, t, row, tag, CopyDataType::Precompile(PrecompileCalls::Bn128Add));
    lemma_tagged(config, t, row, tag, CopyDataType::Precompile(PrecompileCalls::Bn128Mul));
    lemma_tagged(config, t, row, tag, CopyDataType::Precompile(PrecompileCalls::Bn128Pairing));
    lemma_tagged(config, t, row, tag, CopyDataType::Precompile(PrecompileCalls::Blake2F));
    lemma_small_mod(0, p as nat);
    match tag {
        CopyDataType::Precompile(call) => match call {
            PrecompileCalls::Ecrecover => {},
            PrecompileCalls::Sha256 => {},
            PrecompileCalls::Ripemd160 => {},
            PrecompileCalls::Identity => {},
            PrecompileCalls::Modexp => {},
            PrecompileCalls::Bn128Add => {},
            PrecompileCalls::Bn128Mul => {},
            PrecompileCalls::Bn128Pairing => {},
            PrecompileCalls::Blake2F => {},
        },
        _ => {},
    }
    assert(config.tagged_precompile(t, row) == number_of(tag is Precompile));
}

/// The tag of a row holds the code whose bits were written.
proof fn lemma_number(config: CopyCircuitConfig, t: Trace, row: int, tag: CopyDataType)
    requires
        CopyCircuitConfig::cell(t, config.copy_table.tag.bit_8, row) == (tag.spec_code() / 8) % 2,
        CopyCircuitConfig::cell(t, config.copy_table.tag.bit_4, row) == (tag.spec_code() / 4) % 2,
        CopyCircuitConfig::cell(t, config.copy_table.tag.bit_2, row) == (tag.spec_code() / 2) % 2,
        CopyCircuitConfig::cell(t, config.copy_table.tag.bit_1, row) == tag.spec_code() % 2,
    ensures
        config.copy_table.tag.number(t, row) == tag.spec_code(),
{
    law_codes_are_distinct(tag, tag);
    lemma_bits(tag.spec_code());
}

/// The tag of each row of a copy event is decoded as its data type.
pub proof fn law_copy_rows_are_decoded(
    config: CopyCircuitConfig,
    t: Trace,
    row: int,
    index: int,
    copy_row: CopyRow,
    src_addr_end: u64,
    p: int,
)
    requires
        p > 1,
        config.is_copy_row(t, row, index, copy_row, src_addr_end),
    ensures
        all_true(config.decode_tag(t, row, p)),
        config.copy_table.tag.number(t, row) == copy_row.tag.spec_code(),
{
    lemma_decoded(config, t, row, copy_row.tag, p);
    lemma_number(config, t, row, copy_row.tag);
}

/// The comparisons of each row of a copy event hold, where its values are those that are
/// compared: addresses of eight bytes, the end of the source, the index of the byte within a word
/// of thirty-two bytes, and the markers of padding and masks, each zero or one.
pub proof fn law_copy_rows_are_compared(
    config: CopyCircuitConfig,
    t: Trace,
    row: int,
    index: int,
    copy_row: CopyRow,
    src_addr_end: u64,
)
    requires
        config.comparisons_fit(),
        config.is_copy_row(t, row, index, copy_row, src_addr_end),
        config.step(t, row) == number_of(index % 2 == 0),
        copy_row.table.addr matches Some(s) && s.value() <= u64::MAX,
        copy_row.table.src_addr_end matches Some(s) && s.value() == src_addr_end,
        copy_row.circuit.word_index matches Some(s) && s.value() == (index / 2) % 32,
        copy_row.circuit.is_pad matches Some(s) && s.value() <= 1,
        copy_row.circuit.mask matches Some(s) && s.value() <= 1,
    ensures
        all_true(config.addr_compared(t, row, modulus() as int)),
        all_true(config.word_index_compared(t, row, modulus() as int)),
        all_true(config.pad_and_mask_compared(t, row, modulus() as int)),
{
    let m = modulus() as int;
    lemma_small_mod(0, modulus());
    reveal_with_fuel(range, 9);
    reveal_with_fuel(Expr::eval, 3);
    if index % 2 == 0 {
        let pad_and_mask = (known(copy_row.circuit.is_pad) + known(copy_row.circuit.mask)) as nat;
        lemma_small_mod(pad_and_mask, modulus());
        law_assigned_comparison_holds(
            config.addr_lt_addr_end,
            Expr::Selector(config.q_step),
            Expr::Advice(config.copy_table.addr, 0),
            Expr::Advice(config.copy_table.src_addr_end, 0),
            t,
            row,
            known(copy_row.table.addr),
            src_addr_end as nat,
        );
        law_assigned_comparison_holds(
            config.is_word_continue,
            Expr::Selector(config.q_step),
            Expr::Advice(config.word_index, 0),
            Expr::Constant(31),
            t,
            row,
            ((index / 2) % 32) as nat,
            31,
        );
        law_assigned_comparison_holds(
            config.non_pad_non_mask,
            Expr::Selector(config.q_step),
            Expr::Sum(
                Box::new(Expr::Advice(config.is_pad, 0)),
                Box::new(Expr::Advice(config.mask, 0)),
            ),
            Expr::Constant(1),
            t,
            row,
            pad_and_mask,
            1,
        );
    } else {
        assert(Expr::Selector(config.q_step).vanishes(t, row, m));
    }
}

/// The statements of the comparisons of a row that fills up the circuit hold.
proof fn lemma_padding_compared(config: CopyCircuitConfig, t: Trace, row: int)
    requires
        config.comparisons_fit(),
        config.is_padding_row(t, row),
    ensures
        all_true(config.addr_compared(t, row, modulus() as int)),
        all_true(config.word_index_compared(t, row, modulus() as int)),
        all_true(config.pad_and_mask_compared(t, row, modulus() as int)),
{
    reveal_with_fuel(range, 9);
    reveal_with_fuel(Expr::eval, 3);
    law_assigned_comparison_holds(
        config.addr_lt_addr_end,
        Expr::Selector(config.q_step),
        Expr::Advice(config.copy_table.addr, 0),
        Expr::Advice(config.copy_table.src_addr_end, 0),
        t,
        row,
        0,
        1,
    );
    law_assigned_comparison_holds(
        config.is_word_continue,
        Expr::Selector(config.q_step),
        Expr::Advice(config.word_index, 0),
        Expr::Constant(31),
        t,
        row,
        0,
        31,
    );
    law_assigned_comparison_holds(
        config.non_pad_non_mask,
        Expr::Selector(config.q_step),
        Expr::Sum(
            Box::new(Expr::Advice(config.is_pad, 0)),
            Box::new(Expr::Advice(config.mask, 0)),
        ),
        Expr::Constant(1),
        t,
        row,
        1,
        1,
    );
}

/// Every constraint holds on a row that fills up the circuit, if the two rows after it fill up
/// the circuit too or it is not enabled, and it looks nothing up.
pub proof fn law_padding_rows_satisfy(
    config: CopyCircuitConfig,
    challenge: Expr,
    t: Trace,
    row: int,
)
    requires
        config.comparisons_fit(),
        config.is_padding_row(t, row),
        (t.fixed)(config.q_enable, row) == 0 || config.is_padding_row(t, row + 1)
            && config.is_padding_row(t, row + 2),
    ensures
        forall|k: int|
            0 <= k < 11 ==> all_true(
                #[trigger] config.statements(challenge, t, row, modulus() as int)[k],
            ),
        config.memory_lookup_on(t, row) == 0,
        config.tx_log_lookup_on(t, row) == 0,
        config.bytecode_lookup_on(t, row) == 0,
        config.tx_calldata_lookup_on(t, row) == 0,
{
    let p = modulus() as int;
    lemma_small_mod(0, modulus());
    lemma_small_mod(1, modulus());
    lemma_padding_compared(config, t, row);
    lemma_decoded(config, t, row, CopyDataType::Padding, p);
    let enable = (t.fixed)(config.q_enable, row);
    assert(enable * 0 == 0) by (nonlinear_arith);
    assert(config.continues(t, row) == 1);
    assert(config.plain(t, row) == 0);
    assert(0 * (1 - config.continues(t, row)) == 0);
    let table = config.verify_row(t, row, p);
    assert(all_true(table));
    assert(all_true(config.verify_step(challenge, t, row, p)));
    assert(all_true(config.last_rlc(t, row, p)));
}

/// Once the circuit is filled, every constraint holds on each row after the copy events, and these
/// rows look nothing up.
pub proof fn law_filled_padding_satisfies(
    config: CopyCircuitConfig,
    challenge: Expr,
    t: Trace,
    events: Seq<CopyEvent>,
    rows: Seq<Vec<CopyRow>>,
    max_copy_rows: int,
    row: int,
)
    requires
        config.comparisons_fit(),
        rows_of_events(events, rows),
        copy_rows(events) + 2 <= max_copy_rows,
        config.filled(t, events, rows, max_copy_rows),
        copy_rows(events) <= row < max_copy_rows,
    ensures
        forall|k: int|
            0 <= k < 11 ==> all_true(
                #[trigger] config.statements(challenge, t, row, modulus() as int)[k],
            ),
        config.memory_lookup_on(t, row) == 0,
        config.tx_log_lookup_on(t, row) == 0,
        config.bytecode_lookup_on(t, row) == 0,
        config.tx_calldata_lookup_on(t, row) == 0,
{
    law_enabled_rows(config, t, events, rows, max_copy_rows, row);
    law_padding_rows(config, t, events, rows, max_copy_rows, row);
    if row < max_copy_rows - 2 {
        law_padding_rows(config, t, events, rows, max_copy_rows, row + 1);
        law_padding_rows(config, t, events, rows, max_copy_rows, row + 2);
    }
    law_padding_rows_satisfy(config, challenge, t, row);
}

} // verus!
