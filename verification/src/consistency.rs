//! The assignment of the copy circuit never gives a cell two values.
use vstd::prelude::*;
use halo2_axiom::plonk::{Challenge, Selector};
use crate::assign::{known, rows_of_events, CopyCircuitRow, CopyRow, CopyTableRow};
use crate::config::CopyCircuitConfig;
use crate::copy_event::{copy_rows, CopyDataType, CopyEvent};
use crate::expression::{AdviceColumn, FixedColumn, Trace};
use crate::field::modulus;
use crate::less_than::LtConfig;
use crate::region::{Label, Write};
use crate::witness::holds;

verus! {

/// No two writes give different values to a cell.
pub open spec fn consistent(log: Seq<Write>) -> bool {
    forall|i: int, j: int|
        #![trigger log[i], log[j]]
        0 <= i < j < log.len() ==> agreeing(log[i], log[j])
}

/// Two writes do not give different values to a cell.
pub open spec fn agreeing(a: Write, b: Write) -> bool {
    match (a, b) {
        (Write::Advice(c, row, v, _), Write::Advice(d, other_row, w, _)) => c == d && row
            == other_row ==> v == w,
        (Write::Fixed(c, row, v, _), Write::Fixed(d, other_row, w, _)) => c == d && row
            == other_row ==> v == w,
        _ => true,
    }
}

/// The row of a cell that is written, and `None` for a name.
pub open spec fn row_of(w: Write) -> Option<int> {
    match w {
        Write::Name(_, _) => None,
        Write::Advice(_, row, _, _) => Some(row),
        Write::Fixed(_, row, _, _) => Some(row),
        Write::Enable(_, row) => Some(row),
    }
}

/// Every written cell is in a row from `low` on and before `high`.
pub open spec fn between(log: Seq<Write>, low: int, high: int) -> bool {
    forall|k: int|
        0 <= k < log.len() ==> match row_of(#[trigger] log[k]) {
            Some(row) => low <= row < high,
            None => true,
        }
}

/// The advice column that is written, and `None` for other writes.
pub open spec fn column_of(w: Write) -> Option<AdviceColumn> {
    match w {
        Write::Advice(c, _, _, _) => Some(c),
        _ => None,
    }
}

/// No two writes are to the same advice column, and fixed columns are written with one only.
pub open spec fn distinct(log: Seq<Write>) -> bool {
    &&& forall|i: int, j: int|
        #![trigger log[i], log[j]]
        0 <= i < j < log.len() && column_of(log[i]) is Some ==> column_of(log[i]) != column_of(
            log[j],
        )
    &&& forall|i: int| 0 <= i < log.len() ==> match #[trigger] log[i] {
        Write::Fixed(_, _, v, _) => v == 1,
        _ => true,
    }
}

/// Writes to distinct columns are consistent.
proof fn lemma_distinct_is_consistent(log: Seq<Write>)
    requires
        distinct(log),
    ensures
        consistent(log),
{
}

/// Writes that follow one another are between two rows where each of the two groups is.
proof fn lemma_between_append(a: Seq<Write>, b: Seq<Write>, low: int, high: int)
    requires
        between(a, low, high),
        between(b, low, high),
    ensures
        between(a + b, low, high),
{
    assert forall|k: int| 0 <= k < (a + b).len() implies match row_of(#[trigger] (a + b)[k]) {
        Some(row) => low <= row < high,
        None => true,
    } by {
        if k < a.len() {
            assert((a + b)[k] == a[k]);
        } else {
            assert((a + b)[k] == b[k - a.len()]);
        }
    }
}

/// Consistent writes to the rows before `middle`, and from `middle` on, are consistent.
proof fn lemma_consistent_append(a: Seq<Write>, b: Seq<Write>, low: int, middle: int, high: int)
    requires
        consistent(a),
        consistent(b),
        between(a, low, middle),
        between(b, middle, high),
        low <= middle <= high,
    ensures
        consistent(a + b),
        between(a + b, low, high),
{
    assert(between(a, low, high));
    assert(between(b, low, high));
    lemma_between_append(a, b, low, high);
    let log = a + b;
    assert forall|i: int, j: int|
        #![trigger log[i], log[j]]
        0 <= i < j < log.len() implies agreeing(log[i], log[j]) by {
        if j < a.len() {
            assert(log[i] == a[i] && log[j] == a[j]);
        } else if i >= a.len() {
            assert(log[i] == b[i - a.len()] && log[j] == b[j - a.len()]);
        } else {
            assert(log[i] == a[i] && log[j] == b[j - a.len()]);
        }
    }
}

impl CopyCircuitConfig {
    /// The columns of the copy table and of the circuit are all different: those of the copy
    /// table come first, and those of the circuit follow from the `n`-th on.
    pub open spec fn has_distinct_columns(self, n: nat) -> bool {
        &&& self.copy_table.within(n)
        &&& self.copy_table.columns().no_duplicates()
        &&& self.laid_out(n)
    }

    /// A number that tells the columns apart.
    spec fn rank(self, n: nat, c: AdviceColumn) -> int {
        if c.index >= n {
            100 + (c.index - n)
        } else {
            self.copy_table.columns().index_of(c)
        }
    }

    /// The group of columns that a rank belongs to, by the order in which a row is written.
    spec fn group(rank: int) -> int {
        if rank < 9 {
            0
        } else if rank < 100 {
            2
        } else if rank < 108 {
            1
        } else if rank < 113 {
            6
        } else if rank < 117 {
            1
        } else if rank < 126 {
            3
        } else if rank < 128 {
            4
        } else {
            5
        }
    }

    /// The advice columns that are written have these ranks, in order.
    spec fn ranked(self, n: nat, log: Seq<Write>, ranks: Seq<int>) -> bool {
        &&& log.len() == ranks.len()
        &&& forall|k: int|
            0 <= k < log.len() ==> match column_of(#[trigger] log[k]) {
                Some(c) => self.rank(n, c) == ranks[k],
                None => false,
            }
    }

    /// The advice columns that are written are in the groups from `low` on and before `high`.
    spec fn grouped(self, n: nat, log: Seq<Write>, low: int, high: int) -> bool {
        forall|k: int|
            0 <= k < log.len() ==> match column_of(#[trigger] log[k]) {
                Some(c) => low <= Self::group(self.rank(n, c)) < high,
                None => true,
            }
    }

    /// The ranks of the columns of the copy table.
    proof fn lemma_table_ranks(self, n: nat)
        requires
            self.has_distinct_columns(n),
        ensures
            forall|k: int|
                0 <= k < 13 ==> self.rank(n, #[trigger] self.copy_table.columns()[k]) == k,
    {
        let columns = self.copy_table.columns();
        assert forall|k: int| 0 <= k < 13 implies self.rank(n, #[trigger] columns[k]) == k by {
            assert(columns[k].index < n);
            assert(columns.contains(columns[k]));
            let i = columns.index_of(columns[k]);
            assert(0 <= i < columns.len() && columns[i] == columns[k]);
        }
    }

    /// Writes to columns of different ranks are to different columns.
    proof fn lemma_ranked(self, n: nat, log: Seq<Write>, ranks: Seq<int>)
        requires
            self.ranked(n, log, ranks),
            ranks.no_duplicates(),
        ensures
            distinct(log),
    {
        assert forall|i: int, j: int|
            #![trigger log[i], log[j]]
            0 <= i < j < log.len() && column_of(log[i]) is Some implies column_of(log[i])
            != column_of(log[j]) by {
            assert(ranks[i] != ranks[j]);
        }
        assert forall|i: int| 0 <= i < log.len() implies match #[trigger] log[i] {
            Write::Fixed(_, _, v, _) => v == 1,
            _ => true,
        } by {
            assert(column_of(log[i]) is Some);
        }
    }

    /// Writes to columns of different groups are to different columns.
    proof fn lemma_distinct_append(
        self,
        n: nat,
        a: Seq<Write>,
        b: Seq<Write>,
        low: int,
        middle: int,
        high: int,
    )
        requires
            distinct(a),
            distinct(b),
            self.grouped(n, a, low, middle),
            self.grouped(n, b, middle, high),
            low <= middle <= high,
        ensures
            distinct(a + b),
            self.grouped(n, a + b, low, high),
    {
        let log = a + b;
        assert forall|k: int| 0 <= k < log.len() implies match column_of(#[trigger] log[k]) {
            Some(c) => low <= Self::group(self.rank(n, c)) < high,
            None => true,
        } by {
            if k < a.len() {
                assert(log[k] == a[k]);
            } else {
                assert(log[k] == b[k - a.len()]);
            }
        }
        assert forall|i: int, j: int|
            #![trigger log[i], log[j]]
            0 <= i < j < log.len() && column_of(log[i]) is Some implies column_of(log[i])
            != column_of(log[j]) by {
            if j < a.len() {
                assert(log[i] == a[i] && log[j] == a[j]);
            } else if i >= a.len() {
                assert(log[i] == b[i - a.len()] && log[j] == b[j - a.len()]);
            } else {
                assert(log[i] == a[i] && log[j] == b[j - a.len()]);
            }
        }
        assert forall|i: int| 0 <= i < log.len() implies match #[trigger] log[i] {
            Write::Fixed(_, _, v, _) => v == 1,
            _ => true,
        } by {
            if i < a.len() {
                assert(log[i] == a[i]);
            } else {
                assert(log[i] == b[i - a.len()]);
            }
        }
    }

    /// The columns of the copy table are written once each.
    proof fn lemma_table_writes(self, n: nat, offset: int, is_read: bool, row: CopyTableRow)
        requires
            self.has_distinct_columns(n),
        ensures
            distinct(self.table_writes(offset, is_read, row)),
            self.grouped(n, self.table_writes(offset, is_read, row), 0, 1),
    {
        self.lemma_table_ranks(n);
        let columns = self.copy_table.columns();
        assert(self.rank(n, columns[0]) == 0);
        assert(self.rank(n, columns[1]) == 1);
        assert(self.rank(n, columns[2]) == 2);
        assert(self.rank(n, columns[3]) == 3);
        assert(self.rank(n, columns[4]) == 4);
        assert(self.rank(n, columns[5]) == 5);
        assert(self.rank(n, columns[6]) == 6);
        assert(self.rank(n, columns[7]) == 7);
        assert(self.rank(n, columns[8]) == 8);
        let ranks = if is_read {
            seq![0int, 1, 2, 3, 4, 5, 6, 7, 8]
        } else {
            seq![0int, 1, 2, 5, 6, 7, 8]
        };
        self.lemma_ranked(n, self.table_writes(offset, is_read, row), ranks);
    }

    /// The columns of the circuit are written once each.
    proof fn lemma_circuit_writes(self, n: nat, offset: int, row: CopyCircuitRow)
        requires
            self.has_distinct_columns(n),
        ensures
            distinct(self.circuit_writes(offset, row)),
            self.grouped(n, self.circuit_writes(offset, row), 1, 2),
    {
        let ranks = seq![100int, 101, 102, 103, 104, 105, 106, 113, 107, 115, 116, 114];
        self.lemma_ranked(n, self.circuit_writes(offset, row), ranks);
    }

    /// The columns of the tag are written once each.
    proof fn lemma_tag_writes(self, n: nat, offset: int, code: u64)
        requires
            self.has_distinct_columns(n),
        ensures
            distinct(self.copy_table.tag.writes(offset, code)),
            self.grouped(n, self.copy_table.tag.writes(offset, code), 2, 3),
    {
        self.lemma_table_ranks(n);
        let columns = self.copy_table.columns();
        assert(self.rank(n, columns[9]) == 9);
        assert(self.rank(n, columns[10]) == 10);
        assert(self.rank(n, columns[11]) == 11);
        assert(self.rank(n, columns[12]) == 12);
        self.lemma_ranked(n, self.copy_table.tag.writes(offset, code), seq![9int, 10, 11, 12]);
    }

    /// The columns of a comparison are written once each.
    proof fn lemma_comparison_writes(
        self,
        n: nat,
        config: LtConfig,
        first: nat,
        offset: int,
        lhs: nat,
        rhs: nat,
    )
        requires
            config.laid_out(n + first),
        ensures
            distinct(config.writes(offset, lhs, rhs)),
            forall|k: int|
                0 <= k < config.writes(offset, lhs, rhs).len() ==> match column_of(
                    #[trigger] config.writes(offset, lhs, rhs)[k],
                ) {
                    Some(c) => self.rank(n, c) == 100 + first + k,
                    None => false,
                },
    {
        let log = config.writes(offset, lhs, rhs);
        let ranks = Seq::new(log.len(), |k: int| 100 + first + k);
        assert forall|k: int| 0 <= k < log.len() implies match column_of(#[trigger] log[k]) {
            Some(c) => self.rank(n, c) == ranks[k],
            None => false,
        } by {
            if k > 0 {
                assert(config.diff@[k - 1].index == n + first + 1 + (k - 1));
            }
        }
        self.lemma_ranked(n, log, ranks);
    }

    /// The comparisons of a row are written once each.
    proof fn lemma_comparisons(
        self,
        n: nat,
        offset: int,
        addr: Option<(nat, nat)>,
        word_index: nat,
        pad_and_mask: nat,
    )
        requires
            self.has_distinct_columns(n),
        ensures
            ({
                let a = match addr {
                    Some(x) => self.addr_lt_addr_end.writes(offset, x.0, x.1),
                    None => Seq::empty(),
                };
                let b = self.is_word_continue.writes(offset, word_index, 31);
                let c = self.non_pad_non_mask.writes(offset, pad_and_mask, 1);
                &&& distinct(a)
                &&& distinct(b)
                &&& distinct(c)
                &&& self.grouped(n, a, 3, 4)
                &&& self.grouped(n, b, 4, 5)
                &&& self.grouped(n, c, 5, 6)
            }),
    {
        match addr {
            Some(x) => {
                self.lemma_comparison_writes(n, self.addr_lt_addr_end, 17, offset, x.0, x.1);
            },
            None => {},
        }
        self.lemma_comparison_writes(n, self.is_word_continue, 26, offset, word_index, 31);
        self.lemma_comparison_writes(n, self.non_pad_non_mask, 28, offset, pad_and_mask, 1);
    }

    /// The columns for the data types are written once each.
    proof fn lemma_data_type_writes(
        self,
        n: nat,
        offset: int,
        tag: CopyDataType,
        padding: bool,
    )
        requires
            self.has_distinct_columns(n),
        ensures
            distinct(self.data_type_writes(offset, tag, padding)),
            self.grouped(n, self.data_type_writes(offset, tag, padding), 6, 7),
    {
        self.lemma_ranked(
            n,
            self.data_type_writes(offset, tag, padding),
            seq![108int, 109, 110, 111, 112],
        );
    }

    /// The values of a row that fills up the circuit are written once each.
    #[verifier::rlimit(50)]
    proof fn lemma_padding_values(self, n: nat, offset: int)
        requires
            self.has_distinct_columns(n),
        ensures
            distinct(self.padding_values(offset)),
            self.grouped(n, self.padding_values(offset), 0, 2),
    {
        self.lemma_table_ranks(n);
        let columns = self.copy_table.columns();
        assert(self.rank(n, columns[0]) == 0);
        assert(self.rank(n, columns[1]) == 1);
        assert(self.rank(n, columns[2]) == 2);
        assert(self.rank(n, columns[3]) == 3);
        assert(self.rank(n, columns[4]) == 4);
        assert(self.rank(n, columns[5]) == 5);
        assert(self.rank(n, columns[6]) == 6);
        assert(self.rank(n, columns[7]) == 7);
        assert(self.rank(n, columns[8]) == 8);
        let ranks = seq![
            0int,
            100,
            1,
            2,
            3,
            4,
            5,
            101,
            102,
            103,
            114,
            115,
            116,
            106,
            6,
            107,
            113,
            7,
            8,
        ];
        self.lemma_ranked(n, self.padding_values(offset), ranks);
    }

    /// The values of a row of a copy event are written once each, and in that row.
    proof fn lemma_row_values(self, n: nat, offset: int, is_read: bool, row: CopyRow)
        requires
            self.has_distinct_columns(n),
        ensures
            distinct(self.row_values(offset, is_read, row)),
            self.grouped(n, self.row_values(offset, is_read, row), 0, 3),
            between(self.row_values(offset, is_read, row), offset, offset + 1),
    {
        let w1 = seq![Write::Fixed(self.q_enable, offset, 1, Label::AtRow("q_enable"))];
        let w4 = seq![Write::Fixed(self.q_enable, offset, 1, Label::Text("q_enable"))];
        let w2 = self.table_writes(offset, is_read, row.table);
        let w3 = if is_read {
            seq![Write::Enable(self.q_step, offset)]
        } else {
            Seq::empty()
        };
        let w5 = self.circuit_writes(offset, row.circuit);
        let w6 = self.copy_table.tag.writes(offset, row.tag.spec_code());
        self.lemma_table_writes(n, offset, is_read, row.table);
        self.lemma_circuit_writes(n, offset, row.circuit);
        self.lemma_tag_writes(n, offset, row.tag.spec_code());
        self.lemma_distinct_append(n, w1, w2, 0, 0, 1);
        self.lemma_distinct_append(n, w1 + w2, w3, 0, 1, 1);
        self.lemma_distinct_append(n, w1 + w2 + w3, w4, 0, 1, 1);
        self.lemma_distinct_append(n, w1 + w2 + w3 + w4, w5, 0, 1, 2);
        self.lemma_distinct_append(n, w1 + w2 + w3 + w4 + w5, w6, 0, 2, 3);
        lemma_between_append(w1, w2, offset, offset + 1);
        lemma_between_append(w1 + w2, w3, offset, offset + 1);
        lemma_between_append(w1 + w2 + w3, w4, offset, offset + 1);
        lemma_between_append(w1 + w2 + w3 + w4, w5, offset, offset + 1);
        lemma_between_append(w1 + w2 + w3 + w4 + w5, w6, offset, offset + 1);
    }

    /// The comparisons of a row of a copy event are written once each, and in that row.
    proof fn lemma_row_comparisons(
        self,
        n: nat,
        offset: int,
        index: int,
        row: CopyRow,
        src_addr_end: u64,
    )
        requires
            self.has_distinct_columns(n),
        ensures
            distinct(self.row_comparisons(offset, index, row, src_addr_end)),
            self.grouped(n, self.row_comparisons(offset, index, row, src_addr_end), 3, 6),
            between(self.row_comparisons(offset, index, row, src_addr_end), offset, offset + 1),
    {
        let addr = known(row.table.addr);
        let word_index = ((index / 2) % 32) as nat;
        let pad_and_mask = (known(row.circuit.is_pad) + known(row.circuit.mask)) % modulus();
        let c1 = if index % 2 == 0 {
            self.addr_lt_addr_end.writes(offset, addr, src_addr_end as nat)
        } else {
            Seq::empty()
        };
        let c2 = self.is_word_continue.writes(offset, word_index, 31);
        let c3 = self.non_pad_non_mask.writes(offset, pad_and_mask, 1);
        self.lemma_comparisons(
            n,
            offset,
            if index % 2 == 0 {
                Some((addr, src_addr_end as nat))
            } else {
                None
            },
            word_index,
            pad_and_mask,
        );
        self.lemma_distinct_append(n, c1, c2, 3, 4, 5);
        self.lemma_distinct_append(n, c1 + c2, c3, 3, 5, 6);
        lemma_between_append(c1, c2, offset, offset + 1);
        lemma_between_append(c1 + c2, c3, offset, offset + 1);
    }

    /// A row of a copy event is written consistently, and nothing else is.
    proof fn lemma_row_is_consistent(
        self,
        n: nat,
        offset: int,
        index: int,
        row: CopyRow,
        src_addr_end: u64,
    )
        requires
            self.has_distinct_columns(n),
        ensures
            consistent(self.row_writes(offset, index, row, src_addr_end)),
            between(self.row_writes(offset, index, row, src_addr_end), offset, offset + 1),
    {
        let a = self.row_values(offset, index % 2 == 0, row);
        let b = self.row_comparisons(offset, index, row, src_addr_end);
        let c = self.data_type_writes(offset, row.tag, false);
        self.lemma_row_values(n, offset, index % 2 == 0, row);
        self.lemma_row_comparisons(n, offset, index, row, src_addr_end);
        self.lemma_data_type_writes(n, offset, row.tag, false);
        self.lemma_distinct_append(n, a, b, 0, 3, 6);
        self.lemma_distinct_append(n, a + b, c, 0, 6, 7);
        lemma_distinct_is_consistent(a + b + c);
        lemma_between_append(a, b, offset, offset + 1);
        lemma_between_append(a + b, c, offset, offset + 1);
    }

    /// A row that fills up the circuit is written consistently, and nothing else is.
    proof fn lemma_padding_is_consistent(self, n: nat, offset: int, is_last_two: bool)
        requires
            self.has_distinct_columns(n),
        ensures
            consistent(self.padding_row_writes(offset, is_last_two)),
            between(self.padding_row_writes(offset, is_last_two), offset, offset + 1),
    {
        let w1 = self.padding_selectors(offset, is_last_two);
        let w2 = self.padding_values(offset);
        let w3 = self.copy_table.tag.writes(offset, CopyDataType::Padding.spec_code());
        let w4 = self.addr_lt_addr_end.writes(offset, 0, 1);
        let w5 = self.is_word_continue.writes(offset, 0, 31);
        let w6 = self.non_pad_non_mask.writes(offset, 1, 1);
        let w7 = self.data_type_writes(offset, CopyDataType::Padding, true);
        self.lemma_padding_values(n, offset);
        self.lemma_tag_writes(n, offset, CopyDataType::Padding.spec_code());
        self.lemma_comparisons(n, offset, Some((0, 1)), 0, 1);
        self.lemma_data_type_writes(n, offset, CopyDataType::Padding, true);
        self.lemma_distinct_append(n, w1, w2, 0, 0, 2);
        self.lemma_distinct_append(n, w1 + w2, w3, 0, 2, 3);
        self.lemma_distinct_append(n, w1 + w2 + w3, w4, 0, 3, 4);
        self.lemma_distinct_append(n, w1 + w2 + w3 + w4, w5, 0, 4, 5);
        self.lemma_distinct_append(n, w1 + w2 + w3 + w4 + w5, w6, 0, 5, 6);
        self.lemma_distinct_append(n, w1 + w2 + w3 + w4 + w5 + w6, w7, 0, 6, 7);
        lemma_distinct_is_consistent(self.padding_row_writes(offset, is_last_two));
        lemma_between_append(w1, w2, offset, offset + 1);
        lemma_between_append(w1 + w2, w3, offset, offset + 1);
        lemma_between_append(w1 + w2 + w3, w4, offset, offset + 1);
        lemma_between_append(w1 + w2 + w3 + w4, w5, offset, offset + 1);
        lemma_between_append(w1 + w2 + w3 + w4 + w5, w6, offset, offset + 1);
        lemma_between_append(w1 + w2 + w3 + w4 + w5 + w6, w7, offset, offset + 1);
    }

    /// Rows that fill up the circuit are written consistently.
    proof fn lemma_paddings_are_consistent(self, n: nat, offset: int, count: nat)
        requires
            self.has_distinct_columns(n),
        ensures
            consistent(self.padding_writes(offset, count)),
            between(self.padding_writes(offset, count), offset, offset + count),
        decreases count,
    {
        if count > 0 {
            let last = offset + count - 1;
            self.lemma_paddings_are_consistent(n, offset, (count - 1) as nat);
            self.lemma_padding_is_consistent(n, last, false);
            lemma_consistent_append(
                self.padding_writes(offset, (count - 1) as nat),
                self.padding_row_writes(last, false),
                offset,
                last,
                last + 1,
            );
        }
    }

    /// The rows of a copy event are written consistently.
    proof fn lemma_event_is_consistent(
        self,
        n: nat,
        offset: int,
        rows: Seq<CopyRow>,
        src_addr_end: u64,
    )
        requires
            self.has_distinct_columns(n),
        ensures
            consistent(self.event_writes(offset, rows, src_addr_end)),
            between(
                self.event_writes(offset, rows, src_addr_end),
                offset,
                offset + rows.len(),
            ),
        decreases rows.len(),
    {
        if rows.len() > 0 {
            let index = rows.len() - 1;
            let last = offset + index;
            self.lemma_event_is_consistent(n, offset, rows.drop_last(), src_addr_end);
            self.lemma_row_is_consistent(n, last, index, rows.last(), src_addr_end);
            lemma_consistent_append(
                self.event_writes(offset, rows.drop_last(), src_addr_end),
                self.row_writes(last, index, rows.last(), src_addr_end),
                offset,
                last,
                last + 1,
            );
        }
    }

    /// The rows of copy events are written consistently.
    proof fn lemma_events_are_consistent(
        self,
        n: nat,
        events: Seq<CopyEvent>,
        rows: Seq<Vec<CopyRow>>,
    )
        requires
            self.has_distinct_columns(n),
            rows_of_events(events, rows),
        ensures
            consistent(self.events_writes(events, rows)),
            between(self.events_writes(events, rows), 0, copy_rows(events) as int),
        decreases events.len(),
    {
        if events.len() > 0 {
            let k = events.len() - 1;
            let first = copy_rows(events.drop_last()) as int;
            self.lemma_events_are_consistent(n, events.drop_last(), rows.drop_last());
            assert(rows[k]@.len() == events[k].rows());
            self.lemma_event_is_consistent(
                n,
                first,
                rows.last()@,
                events.last().src_addr_end,
            );
            lemma_consistent_append(
                self.events_writes(events.drop_last(), rows.drop_last()),
                self.event_writes(first, rows.last()@, events.last().src_addr_end),
                0,
                first,
                copy_rows(events) as int,
            );
        }
    }
}

/// No cell is given two values, and every cell that is written is in one of the `max_copy_rows`
/// rows of the circuit, where the columns are all different.
pub proof fn law_writes_are_consistent(
    config: CopyCircuitConfig,
    n: nat,
    events: Seq<CopyEvent>,
    rows: Seq<Vec<CopyRow>>,
    max_copy_rows: int,
)
    requires
        config.has_distinct_columns(n),
        rows_of_events(events, rows),
        copy_rows(events) + 2 <= max_copy_rows,
    ensures
        consistent(config.circuit_log(events, rows, max_copy_rows)),
        between(config.circuit_log(events, rows, max_copy_rows), 0, max_copy_rows),
{
    let used = copy_rows(events) as int;
    let count = (max_copy_rows - used - 2) as nat;
    let w1 = config.name_writes();
    let w2 = config.events_writes(events, rows);
    let w3 = config.padding_writes(used, count);
    let w4 = config.padding_row_writes(max_copy_rows - 2, true);
    let w5 = config.padding_row_writes(max_copy_rows - 1, true);
    config.lemma_events_are_consistent(n, events, rows);
    config.lemma_paddings_are_consistent(n, used, count);
    config.lemma_padding_is_consistent(n, max_copy_rows - 2, true);
    config.lemma_padding_is_consistent(n, max_copy_rows - 1, true);
    lemma_consistent_append(w1, w2, 0, 0, used);
    lemma_consistent_append(w1 + w2, w3, 0, used, max_copy_rows - 2);
    lemma_consistent_append(w1 + w2 + w3, w4, 0, max_copy_rows - 2, max_copy_rows - 1);
    lemma_consistent_append(w1 + w2 + w3 + w4, w5, 0, max_copy_rows - 1, max_copy_rows);
}

/// The cells that writes leave behind: each as it was written, and zero where it was not.
pub open spec fn left_by(log: Seq<Write>, challenge: spec_fn(Challenge) -> int) -> Trace {
    Trace {
        advice: |c: AdviceColumn, row: int|
            if exists|v: nat, label: Label| log.contains(Write::Advice(c, row, Some(v), label)) {
                (choose|v: nat, label: Label|
                    log.contains(Write::Advice(c, row, Some(v), label))).0 as int
            } else {
                0
            },
        fixed: |c: FixedColumn, row: int|
            if exists|v: nat, label: Label| log.contains(Write::Fixed(c, row, v, label)) {
                (choose|v: nat, label: Label| log.contains(Write::Fixed(c, row, v, label))).0 as int
            } else {
                0
            },
        selector: |s: Selector, row: int|
            if log.contains(Write::Enable(s, row)) {
                1
            } else {
                0
            },
        challenge,
    }
}

/// The assignment of copy events leaves the cells as it wrote them, where the columns are all
/// different.
pub proof fn law_circuit_is_filled(
    config: CopyCircuitConfig,
    n: nat,
    events: Seq<CopyEvent>,
    rows: Seq<Vec<CopyRow>>,
    max_copy_rows: int,
    challenge: spec_fn(Challenge) -> int,
)
    requires
        config.has_distinct_columns(n),
        rows_of_events(events, rows),
        copy_rows(events) + 2 <= max_copy_rows,
    ensures
        config.filled(
            left_by(config.circuit_log(events, rows, max_copy_rows), challenge),
            events,
            rows,
            max_copy_rows,
        ),
{
    let log = config.circuit_log(events, rows, max_copy_rows);
    let t = left_by(log, challenge);
    law_writes_are_consistent(config, n, events, rows, max_copy_rows);
    assert forall|k: int| 0 <= k < log.len() implies holds(t, #[trigger] log[k]) by {
        match log[k] {
            Write::Advice(c, row, Some(v), label) => {
                assert(log.contains(Write::Advice(c, row, Some(v), label)));
                let (w, other) = choose|w: nat, other: Label|
                    log.contains(Write::Advice(c, row, Some(w), other));
                let j = choose|j: int|
                    0 <= j < log.len() && log[j] == Write::Advice(c, row, Some(w), other);
                assert(agreeing(log[k], log[j]) || agreeing(log[j], log[k]) || j == k);
            },
            Write::Fixed(c, row, v, label) => {
                assert(log.contains(Write::Fixed(c, row, v, label)));
                let (w, other) = choose|w: nat, other: Label|
                    log.contains(Write::Fixed(c, row, w, other));
                let j = choose|j: int|
                    0 <= j < log.len() && log[j] == Write::Fixed(c, row, w, other);
                assert(agreeing(log[k], log[j]) || agreeing(log[j], log[k]) || j == k);
            },
            Write::Enable(s, row) => {
                assert(log.contains(Write::Enable(s, row)));
            },
            _ => {},
        }
    }
}

} // verus!
