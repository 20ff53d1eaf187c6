//! Builds the gates and lookups of the copy circuit.
use vstd::prelude::*;
use crate::config::CopyCircuitConfig;
use crate::constraint_builder::{evaluates, states, BaseConstraintBuilder};
use crate::constraint_system::named;
use crate::copy_event::{CopyDataType, PrecompileCalls};
use crate::expression::{not, or, select, Expr, Trace};
use crate::prime::{is_zero, tells};
use crate::table::{exprs_fit, exprs_near};

verus! {

/// Every constraint is within the first `n` advice columns.
pub open spec fn constraints_fit(constraints: Seq<(&'static str, Expr)>, n: nat) -> bool {
    forall|k: int| 0 <= k < constraints.len() ==> (#[trigger] constraints[k]).1.fits(n)
}

/// Every pair of a lookup is within the first `n` advice columns.
pub open spec fn pairs_fit(pairs: Seq<(Expr, Expr)>, n: nat) -> bool {
    forall|k: int|
        0 <= k < pairs.len() ==> (#[trigger] pairs[k]).0.fits(n) && pairs[k].1.fits(n)
}

/// Every constraint refers to cells in the current row and the next two only.
pub open spec fn constraints_near(constraints: Seq<(&'static str, Expr)>) -> bool {
    forall|k: int| 0 <= k < constraints.len() ==> (#[trigger] constraints[k]).1.near()
}

/// Every pair of a lookup refers to cells in the current row and the next two only.
pub open spec fn pairs_near(pairs: Seq<(Expr, Expr)>) -> bool {
    forall|k: int|
        0 <= k < pairs.len() ==> (#[trigger] pairs[k]).0.near() && pairs[k].1.near()
}

/// A lookup asks for the inputs, each multiplied by `on`, in the columns of a table. Where the
/// numbers of inputs and columns differ, those without a counterpart are left out.
pub open spec fn looks_up(
    pairs: Seq<(Expr, Expr)>,
    t: Trace,
    row: int,
    on: int,
    inputs: Seq<int>,
    table: Seq<Expr>,
) -> bool {
    &&& pairs.len() == (if inputs.len() <= table.len() {
        inputs.len()
    } else {
        table.len()
    })
    &&& forall|k: int|
        0 <= k < pairs.len() ==> (#[trigger] pairs[k]).1 == table[k] && pairs[k].0.eval(t, row)
            == on * inputs[k]
}

/// Pairs the inputs of a lookup, each multiplied by `on`, with the columns of a table.
fn lookup_pairs(on: &Expr, inputs: Vec<Expr>, table: &Vec<Expr>) -> (r: Vec<(Expr, Expr)>)
    ensures
        r@.len() == (if inputs@.len() <= table@.len() {
            inputs@.len()
        } else {
            table@.len()
        }),
        forall|k: int| 0 <= k < r@.len() ==> (#[trigger] r@[k]).1 == table@[k],
        forall|k: int, t: Trace, row: int|
            0 <= k < r@.len() ==> #[trigger] r@[k].0.eval(t, row) == on.eval(t, row)
                * inputs@[k].eval(t, row),
        forall|n: nat|
            on.fits(n) && exprs_fit(inputs@, n) && exprs_fit(table@, n) ==> #[trigger] pairs_fit(
                r@,
                n,
            ),
        on.near() && exprs_near(inputs@) && exprs_near(table@) ==> pairs_near(r@),
{
    let mut r: Vec<(Expr, Expr)> = Vec::new();
    let mut k: usize = 0;
    while k < inputs.len() && k < table.len()
        invariant
            k <= inputs@.len(),
            k <= table@.len(),
            r@.len() == k,
            forall|j: int| 0 <= j < k ==> (#[trigger] r@[j]).1 == table@[j],
            forall|j: int, t: Trace, row: int|
                0 <= j < k ==> #[trigger] r@[j].0.eval(t, row) == on.eval(t, row)
                    * inputs@[j].eval(t, row),
            forall|j: int, n: nat|
                0 <= j < k ==> #[trigger] r@[j].0.fits(n) == (on.fits(n) && inputs@[j].fits(n)),
            forall|j: int|
                0 <= j < k ==> #[trigger] r@[j].0.near() == (on.near() && inputs@[j].near()),
        decreases inputs@.len() - k,
    {
        let input = on.duplicate().times(inputs[k].duplicate());
        r.push((input, table[k].duplicate()));
        k += 1;
    }
    r
}

impl CopyCircuitConfig {
    /// The sum of the indicators of the precompiled contracts at the current row.
    fn precompile_tags(&self) -> (r: Expr)
        ensures
            forall|t: Trace, row: int| #[trigger]
                r.eval(t, row) == self.tagged_precompile(t, row),
            forall|n: nat| self.within(n) ==> #[trigger] r.fits(n),
            r.near(),
    {
        let tag = &self.copy_table.tag;
        tag.value_equals(CopyDataType::Precompile(PrecompileCalls::Ecrecover), 0).plus(
            tag.value_equals(CopyDataType::Precompile(PrecompileCalls::Sha256), 0),
        ).plus(tag.value_equals(CopyDataType::Precompile(PrecompileCalls::Ripemd160), 0)).plus(
            tag.value_equals(CopyDataType::Precompile(PrecompileCalls::Identity), 0),
        ).plus(tag.value_equals(CopyDataType::Precompile(PrecompileCalls::Modexp), 0)).plus(
            tag.value_equals(CopyDataType::Precompile(PrecompileCalls::Bn128Add), 0),
        ).plus(tag.value_equals(CopyDataType::Precompile(PrecompileCalls::Bn128Mul), 0)).plus(
            tag.value_equals(CopyDataType::Precompile(PrecompileCalls::Bn128Pairing), 0),
        ).plus(tag.value_equals(CopyDataType::Precompile(PrecompileCalls::Blake2F), 0))
    }

    /// The constraints of the custom gate "decode tag".
    pub fn decode_tag_gate(&self) -> (r: Vec<(&'static str, Expr)>)
        ensures
            forall|t: Trace, row: int| #[trigger]
                evaluates(named(r@), t, row, self.decode_tag_values(t, row)),
            forall|t: Trace, row: int, p: int|
                #[trigger] states(
                    named(r@),
                    t,
                    row,
                    p,
                    self.decode_tag(t, row, p),
                ),
            forall|n: nat| self.within(n) ==> #[trigger] constraints_fit(r@, n),
            constraints_near(r@),
            r@.len() > 0,
    {
        let tag = &self.copy_table.tag;
        let mut cb = BaseConstraintBuilder::new();
        cb.require_equal("", Expr::advice(self.is_precompiled, 0), self.precompile_tags());
        cb.require_equal(
            "",
            Expr::advice(self.is_tx_calldata, 0),
            tag.value_equals(CopyDataType::TxCalldata, 0),
        );
        cb.require_equal(
            "",
            Expr::advice(self.is_bytecode, 0),
            tag.value_equals(CopyDataType::Bytecode, 0),
        );
        cb.require_equal(
            "",
            Expr::advice(self.is_memory, 0),
            tag.value_equals(CopyDataType::Memory, 0),
        );
        cb.require_equal(
            "",
            Expr::advice(self.is_tx_log, 0),
            tag.value_equals(CopyDataType::TxLog, 0),
        );
        let r = cb.gate(Expr::fixed(self.q_enable));
        assert forall|t: Trace, row: int, p: int| #[trigger] states(
            named(r@),
            t,
            row,
            p,
            self.decode_tag(t, row, p),
        ) by {
            let table = self.decode_tag(t, row, p);
            assert(tells(r@[0].1.vanishes(t, row, p), table[0].1, p));
            assert(tells(r@[1].1.vanishes(t, row, p), table[1].1, p));
            assert(tells(r@[2].1.vanishes(t, row, p), table[2].1, p));
            assert(tells(r@[3].1.vanishes(t, row, p), table[3].1, p));
            assert(tells(r@[4].1.vanishes(t, row, p), table[4].1, p));
        }
        assert forall|t: Trace, row: int| #[trigger]
            evaluates(named(r@), t, row, self.decode_tag_values(t, row)) by {
            let values = self.decode_tag_values(t, row);
            assert(r@[0].1.eval(t, row) == values[0].1);
            assert(r@[1].1.eval(t, row) == values[1].1);
            assert(r@[2].1.eval(t, row) == values[2].1);
            assert(r@[3].1.eval(t, row) == values[3].1);
            assert(r@[4].1.eval(t, row) == values[4].1);
        }
        r
    }

    /// One minus the markers of the last row, at this row and at the next.
    fn not_last_two_rows_expr(&self) -> (r: Expr)
        ensures
            forall|t: Trace, row: int| #[trigger]
                r.eval(t, row) == self.not_last_two_rows(t, row),
            forall|n: nat| self.within(n) ==> #[trigger] r.fits(n),
            r.near(),
    {
        Expr::constant(1).minus(Expr::advice(self.is_last, 0)).minus(Expr::advice(self.is_last, 1))
    }

    /// By how much the read-write counter grows from this row to the next within a word: by one
    /// from the read to the write of a copy from memory to memory, back by one after the write,
    /// and not at all in other copies.
    fn rw_counter_diff(&self) -> (r: Expr)
        ensures
            forall|t: Trace, row: int| #[trigger]
                r.eval(t, row) == (Self::cell(t, self.is_memory, row) * Self::cell(
                    t,
                    self.is_memory,
                    row + 1,
                )) * (2 * self.step(t, row) - 1),
            forall|n: nat| self.within(n) ==> #[trigger] r.fits(n),
            r.near(),
    {
        let is_memory2memory = Expr::advice(self.is_memory, 0).times(
            Expr::advice(self.is_memory, 1),
        );
        let one = Expr::constant(1);
        let minus_one = Expr::constant(1).negated();
        let zero = Expr::constant(0);
        let ghost (g_one, g_minus_one, g_zero) = (one, minus_one, zero);
        let sign = select(Expr::selector(self.q_step), one, minus_one);
        assert forall|t: Trace, row: int| #[trigger]
            sign.eval(t, row) == 2 * self.step(t, row) - 1 by {
            let s = self.step(t, row);
            let (a, b) = (g_one.eval(t, row), g_minus_one.eval(t, row));
            assert(s * a + (1 - s) * b == 2 * s - 1) by (nonlinear_arith)
                requires
                    a == 1,
                    b == -1,
            ;
        }
        let ghost (g_m, g_sign) = (is_memory2memory, sign);
        let r = select(is_memory2memory, sign, zero);
        assert forall|t: Trace, row: int| #[trigger]
            r.eval(t, row) == g_m.eval(t, row) * g_sign.eval(t, row) by {
            let m = g_m.eval(t, row);
            let z = g_zero.eval(t, row);
            assert((1 - m) * z == 0) by (nonlinear_arith)
                requires
                    z == 0,
            ;
        }
        r
    }

    /// The constraints of the custom gate "verify row".
    #[verifier::rlimit(60)]
    pub fn verify_row_gate(&self) -> (r: Vec<(&'static str, Expr)>)
        ensures
            forall|t: Trace, row: int| #[trigger]
                evaluates(named(r@), t, row, self.verify_row_values(t, row)),
            forall|t: Trace, row: int, p: int|
                #[trigger] states(
                    named(r@),
                    t,
                    row,
                    p,
                    self.verify_row(t, row, p),
                ),
            forall|n: nat| self.within(n) ==> #[trigger] constraints_fit(r@, n),
            constraints_near(r@),
            r@.len() > 0,
    {
        let ct = &self.copy_table;
        let mut cb = BaseConstraintBuilder::new();
        cb.require_boolean("is_first is boolean", Expr::advice(ct.is_first, 0));
        cb.require_boolean("is_last is boolean", Expr::advice(self.is_last, 0));
        cb.require_boolean("mask is boolean", Expr::advice(self.mask, 0));
        cb.require_boolean("front_mask is boolean", Expr::advice(self.front_mask, 0));
        let not_step_and_first = not(Expr::selector(self.q_step)).times(
            Expr::advice(ct.is_first, 0),
        );
        cb.require_zero("is_first == 0 when q_step == 0", not_step_and_first);
        let last_and_step = Expr::advice(self.is_last, 0).times(Expr::selector(self.q_step));
        cb.require_zero("is_last == 0 when q_step == 1", last_and_step);

        let within_word = self.is_word_continue.is_lt().times(self.not_last_two_rows_expr()).times(
            self.non_pad_non_mask.is_lt(),
        );
        cb.begin_condition(within_word);
        cb.require_equal(
            "word_index[0] + 1 == word_index[2]",
            Expr::advice(self.word_index, 0).plus(Expr::constant(1)),
            Expr::advice(self.word_index, 2),
        );
        let word_end = not(self.is_word_continue.is_lt()).times(
            self.not_last_two_rows_expr(),
        ).times(self.non_pad_non_mask.is_lt());
        cb.begin_condition(word_end);
        cb.require_equal(
            "word_index[0] == 31",
            Expr::advice(self.word_index, 0),
            Expr::constant(31),
        );
        cb.require_equal(
            "word_index[2] == 0",
            Expr::advice(self.word_index, 2),
            Expr::constant(0),
        );

        // In all cases the sum of the counter and what it is still to grow by stays the same.
        let not_last_plain = not(Expr::advice(self.is_last, 0)).times(
            self.non_pad_non_mask.is_lt(),
        );
        cb.begin_condition(not_last_plain);
        cb.require_equal(
            "rows[0].rw_counter + rows[0].rwc_inc_left == rows[1].rw_counter + rows[1].rwc_inc_left",
            Expr::advice(ct.rw_counter, 0).plus(Expr::advice(ct.rwc_inc_left, 0)),
            Expr::advice(ct.rw_counter, 1).plus(Expr::advice(ct.rwc_inc_left, 1)),
        );
        let within_word = self.is_word_continue.is_lt().times(self.not_last_two_rows_expr()).times(
            self.non_pad_non_mask.is_lt(),
        );
        cb.begin_condition(within_word);
        cb.require_equal(
            "rows[0].rw_counter + diff == rows[1].rw_counter",
            Expr::advice(ct.rw_counter, 0).plus(self.rw_counter_diff()),
            Expr::advice(ct.rw_counter, 1),
        );
        // The counter grows by one at the end of a word after a write. Reads of call data and
        // of bytecode do not count.
        let counted_word_end = not(
            Expr::advice(self.is_tx_calldata, 0).plus(Expr::advice(self.is_bytecode, 0)),
        ).times(not(self.is_word_continue.is_lt())).times(not(Expr::advice(self.is_last, 0))).times(
            not(Expr::selector(self.q_step)),
        ).times(self.non_pad_non_mask.is_lt());
        cb.begin_condition(counted_word_end);
        cb.require_equal(
            "rows[0].rw_counter + 1 == rows[1].rw_counter",
            Expr::advice(ct.rw_counter, 0).plus(Expr::constant(1)),
            Expr::advice(ct.rw_counter, 1),
        );

        // The address grows by one, except in the front mask, where the address of the row has
        // not caught up with the address of the event yet.
        cb.begin_condition(self.not_last_two_rows_expr());
        cb.require_equal(
            "rows[0].addr + 1 == rows[2].addr",
            Expr::advice(ct.addr, 0).plus(not(Expr::advice(self.front_mask, 0))),
            Expr::advice(ct.addr, 2),
        );

        cb.begin_condition(
            self.not_last_two_rows_expr().times(self.non_pad_non_mask.is_lt()),
        );
        cb.require_equal(
            "rows[0].id == rows[2].id",
            Expr::advice(ct.id, 0),
            Expr::advice(ct.id, 2),
        );
        cb.require_equal("rows[0].tag == rows[2].tag", ct.tag.value(0), ct.tag.value(2));
        cb.require_equal(
            "rows[0].src_addr_end == rows[2].src_addr_end for non-last step",
            Expr::advice(ct.src_addr_end, 0),
            Expr::advice(ct.src_addr_end, 2),
        );

        cb.begin_condition(not(Expr::advice(self.is_last, 0)));
        cb.require_equal(
            "rows[0].rlc_acc == rows[1].rlc_acc",
            Expr::advice(ct.rlc_acc, 0),
            Expr::advice(ct.rlc_acc, 1),
        );
        let r = cb.gate(Expr::fixed(self.q_enable));
        assert forall|t: Trace, row: int, p: int| #[trigger] states(
            named(r@),
            t,
            row,
            p,
            self.verify_row(t, row, p),
        ) by {
            let table = self.verify_row(t, row, p);
            assert(is_zero(not_step_and_first.eval(t, row), p) == not_step_and_first.vanishes(
                t,
                row,
                p,
            ));
            assert(is_zero(last_and_step.eval(t, row), p) == last_and_step.vanishes(t, row, p));
            assert(tells(r@[0].1.vanishes(t, row, p), table[0].1, p));
            assert(tells(r@[1].1.vanishes(t, row, p), table[1].1, p));
            assert(tells(r@[2].1.vanishes(t, row, p), table[2].1, p));
            assert(tells(r@[3].1.vanishes(t, row, p), table[3].1, p));
            assert(tells(r@[4].1.vanishes(t, row, p), table[4].1, p));
            assert(tells(r@[5].1.vanishes(t, row, p), table[5].1, p));
            assert(tells(r@[6].1.vanishes(t, row, p), table[6].1, p));
            assert(tells(r@[7].1.vanishes(t, row, p), table[7].1, p));
            assert(tells(r@[8].1.vanishes(t, row, p), table[8].1, p));
            assert(tells(r@[9].1.vanishes(t, row, p), table[9].1, p));
            assert(tells(r@[10].1.vanishes(t, row, p), table[10].1, p));
            assert(tells(r@[11].1.vanishes(t, row, p), table[11].1, p));
            assert(tells(r@[12].1.vanishes(t, row, p), table[12].1, p));
            assert(tells(r@[13].1.vanishes(t, row, p), table[13].1, p));
            assert(tells(r@[14].1.vanishes(t, row, p), table[14].1, p));
            assert(tells(r@[15].1.vanishes(t, row, p), table[15].1, p));
            assert(tells(r@[16].1.vanishes(t, row, p), table[16].1, p));
        }
        assert forall|t: Trace, row: int| #[trigger]
            evaluates(named(r@), t, row, self.verify_row_values(t, row)) by {
            let values = self.verify_row_values(t, row);
            assert(r@[0].1.eval(t, row) == values[0].1);
            assert(r@[1].1.eval(t, row) == values[1].1);
            assert(r@[2].1.eval(t, row) == values[2].1);
            assert(r@[3].1.eval(t, row) == values[3].1);
            assert(r@[4].1.eval(t, row) == values[4].1);
            assert(r@[5].1.eval(t, row) == values[5].1);
            assert(r@[6].1.eval(t, row) == values[6].1);
            assert(r@[7].1.eval(t, row) == values[7].1);
            assert(r@[8].1.eval(t, row) == values[8].1);
            assert(r@[9].1.eval(t, row) == values[9].1);
            assert(r@[10].1.eval(t, row) == values[10].1);
            assert(r@[11].1.eval(t, row) == values[11].1);
            assert(r@[12].1.eval(t, row) == values[12].1);
            assert(r@[13].1.eval(t, row) == values[13].1);
            assert(r@[14].1.eval(t, row) == values[14].1);
            assert(r@[15].1.eval(t, row) == values[15].1);
            assert(r@[16].1.eval(t, row) == values[16].1);
        }
        r
    }

    /// The constraints of a gate on the last pair of rows, for the copies where `case` is not
    /// zero: the accumulator is the random linear combination of the copied bytes.
    fn last_value_acc_gate(&self, case: Expr) -> (r: Vec<(&'static str, Expr)>)
        ensures
            forall|t: Trace, row: int| #[trigger]
                evaluates(named(r@), t, row, self.last_value_acc_values(case.eval(t, row), t, row)),
            forall|t: Trace, row: int, p: int|
                #[trigger] states(
                    named(r@),
                    t,
                    row,
                    p,
                    self.last_value_acc(case.eval(t, row), t, row, p),
                ),
            forall|n: nat| self.within(n) && case.fits(n) ==> #[trigger] constraints_fit(r@, n),
            case.near() ==> constraints_near(r@),
            r@.len() > 0,
    {
        let ghost g_case = case;
        let mut cb = BaseConstraintBuilder::new();
        cb.require_equal(
            "value_acc == rlc_acc on the last row",
            Expr::advice(self.value_acc, 1),
            Expr::advice(self.copy_table.rlc_acc, 1),
        );
        let r = cb.gate(
            Expr::fixed(self.q_enable).times(Expr::advice(self.is_last, 1)).times(case),
        );
        assert forall|t: Trace, row: int, p: int| #[trigger] states(
            named(r@),
            t,
            row,
            p,
            self.last_value_acc(g_case.eval(t, row), t, row, p),
        ) by {
            let table = self.last_value_acc(g_case.eval(t, row), t, row, p);
            assert(tells(r@[0].1.vanishes(t, row, p), table[0].1, p));
        }
        assert forall|t: Trace, row: int| #[trigger]
            evaluates(
                named(r@),
                t,
                row,
                self.last_value_acc_values(g_case.eval(t, row), t, row),
            ) by {
            let values = self.last_value_acc_values(g_case.eval(t, row), t, row);
            assert(r@[0].1.eval(t, row) == values[0].1);
        }
        r
    }

    /// The constraints of the custom gate on the last pair of rows of a copy to or from a
    /// precompiled contract.
    pub fn last_precompile_gate(&self) -> (r: Vec<(&'static str, Expr)>)
        ensures
            forall|t: Trace, row: int| #[trigger]
                evaluates(
                    named(r@),
                    t,
                    row,
                    self.last_value_acc_values(self.precompile_case(t, row), t, row),
                ),
            forall|t: Trace, row: int, p: int|
                #[trigger] states(
                    named(r@),
                    t,
                    row,
                    p,
                    self.last_value_acc(self.precompile_case(t, row), t, row, p),
                ),
            forall|n: nat| self.within(n) ==> #[trigger] constraints_fit(r@, n),
            constraints_near(r@),
            r@.len() > 0,
    {
        let case = or(Expr::advice(self.is_precompiled, 0), Expr::advice(self.is_precompiled, 1));
        let ghost g_case = case;
        let r = self.last_value_acc_gate(case);
        assert forall|t: Trace, row: int, p: int| #[trigger] states(
            named(r@),
            t,
            row,
            p,
            self.last_value_acc(self.precompile_case(t, row), t, row, p),
        ) by {
            assert(g_case.eval(t, row) == self.precompile_case(t, row));
        }
        assert forall|t: Trace, row: int| #[trigger]
            evaluates(
                named(r@),
                t,
                row,
                self.last_value_acc_values(self.precompile_case(t, row), t, row),
            ) by {
            assert(g_case.eval(t, row) == self.precompile_case(t, row));
        }
        r
    }

    /// The constraints of the custom gate on the last pair of rows of a copy from memory to
    /// bytecode.
    pub fn last_memory_to_bytecode_gate(&self) -> (r: Vec<(&'static str, Expr)>)
        ensures
            forall|t: Trace, row: int| #[trigger]
                evaluates(
                    named(r@),
                    t,
                    row,
                    self.last_value_acc_values(self.memory_to_bytecode_case(t, row), t, row),
                ),
            forall|t: Trace, row: int, p: int|
                #[trigger] states(
                    named(r@),
                    t,
                    row,
                    p,
                    self.last_value_acc(self.memory_to_bytecode_case(t, row), t, row, p),
                ),
            forall|n: nat| self.within(n) ==> #[trigger] constraints_fit(r@, n),
            constraints_near(r@),
            r@.len() > 0,
    {
        let case = Expr::advice(self.is_memory, 0).times(Expr::advice(self.is_bytecode, 1));
        let ghost g_case = case;
        let r = self.last_value_acc_gate(case);
        assert forall|t: Trace, row: int, p: int| #[trigger] states(
            named(r@),
            t,
            row,
            p,
            self.last_value_acc(self.memory_to_bytecode_case(t, row), t, row, p),
        ) by {
            assert(g_case.eval(t, row) == self.memory_to_bytecode_case(t, row));
        }
        assert forall|t: Trace, row: int| #[trigger]
            evaluates(
                named(r@),
                t,
                row,
                self.last_value_acc_values(self.memory_to_bytecode_case(t, row), t, row),
            ) by {
            assert(g_case.eval(t, row) == self.memory_to_bytecode_case(t, row));
        }
        r
    }

    /// The constraints of the custom gate on the last pair of rows of a copy from call data to
    /// bytecode.
    pub fn last_tx_calldata_to_bytecode_gate(&self) -> (r: Vec<(&'static str, Expr)>)
        ensures
            forall|t: Trace, row: int| #[trigger]
                evaluates(
                    named(r@),
                    t,
                    row,
                    self.last_value_acc_values(self.tx_calldata_to_bytecode_case(t, row), t, row),
                ),
            forall|t: Trace, row: int, p: int|
                #[trigger] states(
                    named(r@),
                    t,
                    row,
                    p,
                    self.last_value_acc(self.tx_calldata_to_bytecode_case(t, row), t, row, p),
                ),
            forall|n: nat| self.within(n) ==> #[trigger] constraints_fit(r@, n),
            constraints_near(r@),
            r@.len() > 0,
    {
        let case = Expr::advice(self.is_tx_calldata, 0).times(Expr::advice(self.is_bytecode, 1));
        let ghost g_case = case;
        let r = self.last_value_acc_gate(case);
        assert forall|t: Trace, row: int, p: int| #[trigger] states(
            named(r@),
            t,
            row,
            p,
            self.last_value_acc(self.tx_calldata_to_bytecode_case(t, row), t, row, p),
        ) by {
            assert(g_case.eval(t, row) == self.tx_calldata_to_bytecode_case(t, row));
        }
        assert forall|t: Trace, row: int| #[trigger]
            evaluates(
                named(r@),
                t,
                row,
                self.last_value_acc_values(self.tx_calldata_to_bytecode_case(t, row), t, row),
            ) by {
            assert(g_case.eval(t, row) == self.tx_calldata_to_bytecode_case(t, row));
        }
        r
    }

    /// The constraints of the custom gate on the last pair of rows of a copy to an accumulator.
    pub fn last_rlc_acc_gate(&self) -> (r: Vec<(&'static str, Expr)>)
        ensures
            forall|t: Trace, row: int| #[trigger]
                evaluates(
                    named(r@),
                    t,
                    row,
                    self.last_value_acc_values(self.rlc_acc_case(t, row), t, row),
                ),
            forall|t: Trace, row: int, p: int|
                #[trigger] states(
                    named(r@),
                    t,
                    row,
                    p,
                    self.last_value_acc(self.rlc_acc_case(t, row), t, row, p),
                ),
            forall|n: nat| self.within(n) ==> #[trigger] constraints_fit(r@, n),
            constraints_near(r@),
            r@.len() > 0,
    {
        let case = self.copy_table.tag.value_equals(CopyDataType::RlcAcc, 1);
        let ghost g_case = case;
        let r = self.last_value_acc_gate(case);
        assert forall|t: Trace, row: int, p: int| #[trigger] states(
            named(r@),
            t,
            row,
            p,
            self.last_value_acc(self.rlc_acc_case(t, row), t, row, p),
        ) by {
            assert(g_case.eval(t, row) == self.rlc_acc_case(t, row));
        }
        assert forall|t: Trace, row: int| #[trigger]
            evaluates(
                named(r@),
                t,
                row,
                self.last_value_acc_values(self.rlc_acc_case(t, row), t, row),
            ) by {
            assert(g_case.eval(t, row) == self.rlc_acc_case(t, row));
        }
        r
    }

    /// The constraints of the custom gate on the last pair of rows that compares what was read with
    /// what was written.
    pub fn last_rlc_gate(&self) -> (r: Vec<(&'static str, Expr)>)
        ensures
            forall|t: Trace, row: int| #[trigger]
                evaluates(named(r@), t, row, self.last_rlc_values(t, row)),
            forall|t: Trace, row: int, p: int|
                #[trigger] states(
                    named(r@),
                    t,
                    row,
                    p,
                    self.last_rlc(t, row, p),
                ),
            forall|n: nat| self.within(n) ==> #[trigger] constraints_fit(r@, n),
            constraints_near(r@),
            r@.len() > 0,
    {
        let mut cb = BaseConstraintBuilder::new();
        cb.require_equal(
            "rlc_acc_read == rlc_acc_write on the last row",
            Expr::advice(self.rlc_acc_read, 1),
            Expr::advice(self.rlc_acc_write, 1),
        );
        let r = cb.gate(Expr::fixed(self.q_enable).times(Expr::advice(self.is_last, 1)));
        assert forall|t: Trace, row: int, p: int| #[trigger] states(
            named(r@),
            t,
            row,
            p,
            self.last_rlc(t, row, p),
        ) by {
            let table = self.last_rlc(t, row, p);
            assert(tells(r@[0].1.vanishes(t, row, p), table[0].1, p));
        }
        assert forall|t: Trace, row: int| #[trigger]
            evaluates(named(r@), t, row, self.last_rlc_values(t, row)) by {
            let values = self.last_rlc_values(t, row);
            assert(r@[0].1.eval(t, row) == values[0].1);
        }
        r
    }

    /// The constraints of the custom gate "verify step". `challenge` is the challenge for the
    /// random linear combination of bytes.
    ///
    /// A padded read, one at or beyond the end of the source, reads zero, unless it is masked.
    #[verifier::rlimit(60)]
    pub fn verify_step_gate(&self, challenge: &Expr) -> (r: Vec<(&'static str, Expr)>)
        ensures
            forall|t: Trace, row: int| #[trigger]
                evaluates(named(r@), t, row, self.verify_step_values(*challenge, t, row)),
            forall|t: Trace, row: int, p: int|
                #[trigger] states(
                    named(r@),
                    t,
                    row,
                    p,
                    self.verify_step(*challenge, t, row, p),
                ),
            forall|n: nat|
                self.within(n) && challenge.fits(n) ==> #[trigger] constraints_fit(r@, n),
            challenge.near() ==> constraints_near(r@),
            r@.len() > 0,
    {
        let ct = &self.copy_table;
        let mut cb = BaseConstraintBuilder::new();
        let last_bytes_left = Expr::advice(self.is_last, 1).times(
            Expr::constant(1).minus(Expr::advice(ct.bytes_left, 0)),
        );
        cb.require_zero("bytes_left == 1 for last step", last_bytes_left);
        let last_real_bytes_left = Expr::advice(self.is_last, 1).times(
            Expr::advice(ct.real_bytes_left, 1),
        );
        cb.require_zero("real_bytes_left == 0 for last step", last_real_bytes_left);

        cb.begin_condition(
            not(Expr::advice(self.is_last, 0)).times(not(Expr::advice(self.is_last, 1))),
        );
        cb.require_equal(
            "real_bytes_left[0] == real_bytes_left[2] + !mask",
            Expr::advice(ct.real_bytes_left, 0),
            Expr::advice(ct.real_bytes_left, 2).plus(not(Expr::advice(self.mask, 0))),
        );
        cb.require_equal(
            "real_bytes_left[1] == real_bytes_left[2]",
            Expr::advice(ct.real_bytes_left, 1),
            Expr::advice(ct.real_bytes_left, 2),
        );
        cb.begin_condition(
            not(Expr::advice(self.is_last, 1)).times(self.non_pad_non_mask.is_lt()),
        );
        cb.require_equal(
            "bytes_left == bytes_left_next + 1 for non-last step",
            Expr::advice(ct.bytes_left, 0),
            Expr::advice(ct.bytes_left, 2).plus(Expr::constant(1)),
        );
        cb.end_condition();

        cb.require_equal(
            "value_acc is same for read-write rows",
            Expr::advice(self.value_acc, 0),
            Expr::advice(self.value_acc, 1),
        );
        cb.begin_condition(
            not(Expr::advice(self.is_last, 1)).times(not(Expr::advice(self.is_pad, 0))).times(
                not(Expr::advice(self.mask, 2)),
            ),
        );
        cb.require_equal(
            "value_acc(2) == value_acc(0) * r + value(2)",
            Expr::advice(self.value_acc, 2),
            Expr::advice(self.value_acc, 0).times(challenge.duplicate()).plus(
                Expr::advice(self.value, 2),
            ),
        );
        cb.begin_condition(not(Expr::advice(self.mask, 0)));
        let pad_value = Expr::advice(self.is_pad, 0).times(Expr::advice(self.value, 0));
        cb.require_zero("value == 0 when is_pad == 1 for read", pad_value);
        cb.end_condition();

        cb.require_equal(
            "is_pad == 1 - (src_addr < src_addr_end) for read row",
            Expr::constant(1).minus(self.addr_lt_addr_end.is_lt()),
            Expr::advice(self.is_pad, 0),
        );
        cb.require_zero("is_pad == 0 for write row", Expr::advice(self.is_pad, 1));

        let r = cb.gate(Expr::fixed(self.q_enable).times(Expr::selector(self.q_step)));
        assert forall|t: Trace, row: int, p: int| #[trigger] states(
            named(r@),
            t,
            row,
            p,
            self.verify_step(*challenge, t, row, p),
        ) by {
            let table = self.verify_step(*challenge, t, row, p);
            assert(is_zero(last_bytes_left.eval(t, row), p) == last_bytes_left.vanishes(t, row, p));
            assert(is_zero(last_real_bytes_left.eval(t, row), p) == last_real_bytes_left.vanishes(
                t,
                row,
                p,
            ));
            assert(is_zero(pad_value.eval(t, row), p) == pad_value.vanishes(
                t,
                row,
                p,
            ));
            assert(tells(r@[0].1.vanishes(t, row, p), table[0].1, p));
            assert(tells(r@[1].1.vanishes(t, row, p), table[1].1, p));
            assert(tells(r@[2].1.vanishes(t, row, p), table[2].1, p));
            assert(tells(r@[3].1.vanishes(t, row, p), table[3].1, p));
            assert(tells(r@[4].1.vanishes(t, row, p), table[4].1, p));
            assert(tells(r@[5].1.vanishes(t, row, p), table[5].1, p));
            assert(tells(r@[6].1.vanishes(t, row, p), table[6].1, p));
            assert(tells(r@[7].1.vanishes(t, row, p), table[7].1, p));
            assert(tells(r@[8].1.vanishes(t, row, p), table[8].1, p));
            assert(tells(r@[9].1.vanishes(t, row, p), table[9].1, p));
        }
        assert forall|t: Trace, row: int| #[trigger]
            evaluates(named(r@), t, row, self.verify_step_values(*challenge, t, row)) by {
            let values = self.verify_step_values(*challenge, t, row);
            assert(r@[0].1.eval(t, row) == values[0].1);
            assert(r@[1].1.eval(t, row) == values[1].1);
            assert(r@[2].1.eval(t, row) == values[2].1);
            assert(r@[3].1.eval(t, row) == values[3].1);
            assert(r@[4].1.eval(t, row) == values[4].1);
            assert(r@[5].1.eval(t, row) == values[5].1);
            assert(r@[6].1.eval(t, row) == values[6].1);
            assert(r@[7].1.eval(t, row) == values[7].1);
            assert(r@[8].1.eval(t, row) == values[8].1);
            assert(r@[9].1.eval(t, row) == values[9].1);
        }
        r
    }

    /// The lookup of a memory word in the table of reads and writes.
    #[verifier::rlimit(30)]
    pub fn memory_lookup_pairs(&self) -> (r: Vec<(Expr, Expr)>)
        ensures
            forall|t: Trace, row: int| #[trigger]
                looks_up(
                    r@,
                    t,
                    row,
                    self.memory_lookup_on(t, row),
                    self.memory_lookup(t, row),
                    self.rw_table.table_exprs@,
                ),
            forall|n: nat| self.within(n) ==> #[trigger] pairs_fit(r@, n),
            exprs_near(self.rw_table.table_exprs@) ==> pairs_near(r@),
    {
        let ct = &self.copy_table;
        let on = Expr::fixed(self.q_enable).times(Expr::advice(self.is_memory, 0)).times(
            not(self.is_word_continue.is_lt()),
        );
        let mut inputs: Vec<Expr> = Vec::new();
        inputs.push(Expr::constant(1));
        inputs.push(Expr::advice(ct.rw_counter, 0));
        inputs.push(not(Expr::selector(self.q_step)));
        inputs.push(Expr::constant(self.rw_table.memory_tag));
        inputs.push(Expr::advice(ct.id, 0));
        inputs.push(Expr::advice(ct.addr, 0).minus(Expr::constant(31)));
        inputs.push(Expr::constant(0));
        inputs.push(Expr::constant(0));
        inputs.push(Expr::advice(self.value_word_rlc, 0));
        inputs.push(Expr::advice(self.value_word_rlc_prev, 0));
        inputs.push(Expr::constant(0));
        inputs.push(Expr::constant(0));
        let ghost g = inputs@;
        let r = lookup_pairs(&on, inputs, &self.rw_table.table_exprs);
        assert forall|t: Trace, row: int| #[trigger]
            looks_up(
                r@,
                t,
                row,
                self.memory_lookup_on(t, row),
                self.memory_lookup(t, row),
                self.rw_table.table_exprs@,
            ) by {
            let values = self.memory_lookup(t, row);
            assert(on.eval(t, row) == self.memory_lookup_on(t, row));
            assert forall|k: int| 0 <= k < 12 implies (#[trigger] g[k]).eval(t, row)
                == values[k] by {
                assert(g[0].eval(t, row) == values[0]);
                assert(g[1].eval(t, row) == values[1]);
                assert(g[2].eval(t, row) == values[2]);
                assert(g[3].eval(t, row) == values[3]);
                assert(g[4].eval(t, row) == values[4]);
                assert(g[5].eval(t, row) == values[5]);
                assert(g[6].eval(t, row) == values[6]);
                assert(g[7].eval(t, row) == values[7]);
                assert(g[8].eval(t, row) == values[8]);
                assert(g[9].eval(t, row) == values[9]);
                assert(g[10].eval(t, row) == values[10]);
                assert(g[11].eval(t, row) == values[11]);
            }
            assert forall|k: int| 0 <= k < r@.len() implies (#[trigger] r@[k]).0.eval(t, row)
                == on.eval(t, row) * values[k] by {
                assert(g[k].eval(t, row) == values[k]);
            }
        }
        assert forall|n: nat| self.within(n) implies #[trigger] pairs_fit(r@, n) by {
            assert(exprs_fit(g, n));
        }
        r
    }

    /// The lookup of a log word in the table of reads and writes.
    #[verifier::rlimit(30)]
    pub fn tx_log_lookup_pairs(&self) -> (r: Vec<(Expr, Expr)>)
        ensures
            forall|t: Trace, row: int| #[trigger]
                looks_up(
                    r@,
                    t,
                    row,
                    self.tx_log_lookup_on(t, row),
                    self.tx_log_lookup(t, row),
                    self.rw_table.table_exprs@,
                ),
            forall|n: nat| self.within(n) ==> #[trigger] pairs_fit(r@, n),
            exprs_near(self.rw_table.table_exprs@) ==> pairs_near(r@),
    {
        let ct = &self.copy_table;
        let on = Expr::fixed(self.q_enable).times(Expr::advice(self.is_tx_log, 0)).times(
            not(self.is_word_continue.is_lt()),
        );
        let mut inputs: Vec<Expr> = Vec::new();
        inputs.push(Expr::constant(1));
        inputs.push(Expr::advice(ct.rw_counter, 0));
        inputs.push(Expr::constant(1));
        inputs.push(Expr::constant(self.rw_table.tx_log_tag));
        inputs.push(Expr::advice(ct.id, 0));
        inputs.push(Expr::advice(ct.addr, 0).minus(Expr::constant(31)));
        inputs.push(Expr::constant(0));
        inputs.push(Expr::constant(0));
        inputs.push(Expr::advice(self.value_word_rlc, 0));
        inputs.push(Expr::constant(0));
        inputs.push(Expr::constant(0));
        inputs.push(Expr::constant(0));
        let ghost g = inputs@;
        let r = lookup_pairs(&on, inputs, &self.rw_table.table_exprs);
        assert forall|t: Trace, row: int| #[trigger]
            looks_up(
                r@,
                t,
                row,
                self.tx_log_lookup_on(t, row),
                self.tx_log_lookup(t, row),
                self.rw_table.table_exprs@,
            ) by {
            let values = self.tx_log_lookup(t, row);
            assert(on.eval(t, row) == self.tx_log_lookup_on(t, row));
            assert forall|k: int| 0 <= k < 12 implies (#[trigger] g[k]).eval(t, row)
                == values[k] by {
                assert(g[0].eval(t, row) == values[0]);
                assert(g[1].eval(t, row) == values[1]);
                assert(g[2].eval(t, row) == values[2]);
                assert(g[3].eval(t, row) == values[3]);
                assert(g[4].eval(t, row) == values[4]);
                assert(g[5].eval(t, row) == values[5]);
                assert(g[6].eval(t, row) == values[6]);
                assert(g[7].eval(t, row) == values[7]);
                assert(g[8].eval(t, row) == values[8]);
                assert(g[9].eval(t, row) == values[9]);
                assert(g[10].eval(t, row) == values[10]);
                assert(g[11].eval(t, row) == values[11]);
            }
            assert forall|k: int| 0 <= k < r@.len() implies (#[trigger] r@[k]).0.eval(t, row)
                == on.eval(t, row) * values[k] by {
                assert(g[k].eval(t, row) == values[k]);
            }
        }
        assert forall|n: nat| self.within(n) implies #[trigger] pairs_fit(r@, n) by {
            assert(exprs_fit(g, n));
        }
        r
    }

    /// The lookup of a byte of code in the table of bytecodes.
    #[verifier::rlimit(30)]
    pub fn bytecode_lookup_pairs(&self) -> (r: Vec<(Expr, Expr)>)
        ensures
            forall|t: Trace, row: int| #[trigger]
                looks_up(
                    r@,
                    t,
                    row,
                    self.bytecode_lookup_on(t, row),
                    self.bytecode_lookup(t, row),
                    self.bytecode_table.table_exprs@,
                ),
            forall|n: nat| self.within(n) ==> #[trigger] pairs_fit(r@, n),
            exprs_near(self.bytecode_table.table_exprs@) ==> pairs_near(r@),
    {
        let ct = &self.copy_table;
        let on = Expr::fixed(self.q_enable).times(Expr::advice(self.is_bytecode, 0)).times(
            self.non_pad_non_mask.is_lt(),
        );
        let mut inputs: Vec<Expr> = Vec::new();
        inputs.push(Expr::constant(1));
        inputs.push(Expr::advice(ct.id, 0));
        inputs.push(Expr::constant(self.bytecode_table.byte_tag));
        inputs.push(Expr::advice(ct.addr, 0));
        inputs.push(Expr::advice(self.is_code, 0));
        inputs.push(Expr::advice(self.value, 0));
        let ghost g = inputs@;
        let r = lookup_pairs(&on, inputs, &self.bytecode_table.table_exprs);
        assert forall|t: Trace, row: int| #[trigger]
            looks_up(
                r@,
                t,
                row,
                self.bytecode_lookup_on(t, row),
                self.bytecode_lookup(t, row),
                self.bytecode_table.table_exprs@,
            ) by {
            let values = self.bytecode_lookup(t, row);
            assert(on.eval(t, row) == self.bytecode_lookup_on(t, row));
            assert forall|k: int| 0 <= k < 6 implies (#[trigger] g[k]).eval(t, row)
                == values[k] by {
                assert(g[0].eval(t, row) == values[0]);
                assert(g[1].eval(t, row) == values[1]);
                assert(g[2].eval(t, row) == values[2]);
                assert(g[3].eval(t, row) == values[3]);
                assert(g[4].eval(t, row) == values[4]);
                assert(g[5].eval(t, row) == values[5]);
            }
            assert forall|k: int| 0 <= k < r@.len() implies (#[trigger] r@[k]).0.eval(t, row)
                == on.eval(t, row) * values[k] by {
                assert(g[k].eval(t, row) == values[k]);
            }
        }
        assert forall|n: nat| self.within(n) implies #[trigger] pairs_fit(r@, n) by {
            assert(exprs_fit(g, n));
        }
        r
    }

    /// The lookup of a byte of call data in the table of transactions.
    #[verifier::rlimit(30)]
    pub fn tx_calldata_lookup_pairs(&self) -> (r: Vec<(Expr, Expr)>)
        ensures
            forall|t: Trace, row: int| #[trigger]
                looks_up(
                    r@,
                    t,
                    row,
                    self.tx_calldata_lookup_on(t, row),
                    self.tx_calldata_lookup(t, row),
                    self.tx_table.table_exprs@,
                ),
            forall|n: nat| self.within(n) ==> #[trigger] pairs_fit(r@, n),
            exprs_near(self.tx_table.table_exprs@) ==> pairs_near(r@),
    {
        let ct = &self.copy_table;
        let on = Expr::fixed(self.q_enable).times(Expr::advice(self.is_tx_calldata, 0)).times(
            self.non_pad_non_mask.is_lt(),
        );
        let mut inputs: Vec<Expr> = Vec::new();
        inputs.push(Expr::constant(1));
        inputs.push(Expr::advice(ct.id, 0));
        inputs.push(Expr::constant(self.tx_table.call_data_tag));
        inputs.push(Expr::advice(ct.addr, 0));
        inputs.push(Expr::advice(self.value, 0));
        let ghost g = inputs@;
        let r = lookup_pairs(&on, inputs, &self.tx_table.table_exprs);
        assert forall|t: Trace, row: int| #[trigger]
            looks_up(
                r@,
                t,
                row,
                self.tx_calldata_lookup_on(t, row),
                self.tx_calldata_lookup(t, row),
                self.tx_table.table_exprs@,
            ) by {
            let values = self.tx_calldata_lookup(t, row);
            assert(on.eval(t, row) == self.tx_calldata_lookup_on(t, row));
            assert forall|k: int| 0 <= k < 5 implies (#[trigger] g[k]).eval(t, row)
                == values[k] by {
                assert(g[0].eval(t, row) == values[0]);
                assert(g[1].eval(t, row) == values[1]);
                assert(g[2].eval(t, row) == values[2]);
                assert(g[3].eval(t, row) == values[3]);
                assert(g[4].eval(t, row) == values[4]);
            }
            assert forall|k: int| 0 <= k < r@.len() implies (#[trigger] r@[k]).0.eval(t, row)
                == on.eval(t, row) * values[k] by {
                assert(g[k].eval(t, row) == values[k]);
            }
        }
        assert forall|n: nat| self.within(n) implies #[trigger] pairs_fit(r@, n) by {
            assert(exprs_fit(g, n));
        }
        r
    }
}

} // verus!
