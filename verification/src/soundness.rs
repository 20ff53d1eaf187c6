//! What the constraints of the copy circuit mean together, on all rows of a copy event.
use vstd::prelude::*;
use vstd::arithmetic::div_mod::lemma_small_mod;
use crate::assign::{number_of, rows_of_events, CopyRow};
use crate::binary_number::law_indicator;
use crate::config::CopyCircuitConfig;
use crate::constraint_builder::states;
use crate::constraint_system::Gate;
use crate::copy_event::{copy_rows, CopyEvent};
use halo2_axiom::plonk::Selector;
use crate::expression::{AdviceColumn, Expr, FixedColumn, Trace};
use crate::field::modulus;
use crate::less_than::{bytes_value, law_comparison_is_sound, range, LtConfig};
use crate::prime::{
    lemma_same_multiple, lemma_same_reflexive, lemma_same_small, lemma_same_sum,
    lemma_same_symmetric, lemma_same_transitive,
};
use crate::prime::{is_prime, is_zero, same};
use crate::witness::all_true;
use crate::witness::law_filled_padding_satisfies;

verus! {

impl CopyCircuitConfig {
    /// Every constraint holds on a row.
    pub open spec fn satisfied(self, challenge: Expr, t: Trace, row: int, p: int) -> bool {
        forall|k: int|
            0 <= k < 11 ==> all_true(#[trigger] self.statements(challenge, t, row, p)[k])
    }

    /// A row of a copy event that starts at `first` and takes `steps` read rows, each followed by
    /// a write row: it is enabled, its constraints hold, it is a step where it is a read row, and
    /// it is marked as the last where it is.
    pub open spec fn event_row(
        self,
        challenge: Expr,
        t: Trace,
        first: int,
        steps: int,
        row: int,
        p: int,
    ) -> bool {
        &&& !is_zero((t.fixed)(self.q_enable, row), p)
        &&& self.satisfied(challenge, t, row, p)
        &&& (t.selector)(self.q_step, row) == (if (row - first) % 2 == 0 {
            1int
        } else {
            0int
        })
        &&& (t.advice)(self.is_last, row) == (if row == first + 2 * steps - 1 {
            1int
        } else {
            0int
        })
    }

    /// The rows of a copy event.
    pub open spec fn is_event(
        self,
        challenge: Expr,
        t: Trace,
        first: int,
        steps: int,
        p: int,
    ) -> bool {
        &&& p > 1
        &&& steps > 0
        &&& forall|row: int|
            first <= row < first + 2 * steps ==> #[trigger] self.event_row(
                challenge,
                t,
                first,
                steps,
                row,
                p,
            )
    }

    /// The row at an offset from the first of an event.
    proof fn lemma_event_row(
        self,
        challenge: Expr,
        t: Trace,
        first: int,
        steps: int,
        row: int,
        p: int,
    )
        requires
            self.is_event(challenge, t, first, steps, p),
            first <= row < first + 2 * steps,
        ensures
            self.event_row(challenge, t, first, steps, row, p),
            forall|k: int| 0 <= k < 17 ==> (#[trigger] self.verify_row(t, row, p)[k]).1,
            forall|k: int|
                0 <= k < 10 ==> (#[trigger] self.verify_step(challenge, t, row, p)[k]).1,
            is_zero(0, p),
            !is_zero(1, p),
    {
        assert(self.event_row(challenge, t, first, steps, row, p));
        let s = self.statements(challenge, t, row, p);
        assert(all_true(s[4]));
        assert(all_true(s[10]));
        lemma_small_mod(0, p as nat);
        lemma_small_mod(1, p as nat);
    }
}

/// Every constraint of a gate vanishes on a row, modulo `p`.
pub open spec fn gate_vanishes(gate: Gate, t: Trace, row: int, p: int) -> bool {
    forall|j: int|
        0 <= j < gate.constraints.len() ==> (#[trigger] gate.constraints[j]).1.vanishes(t, row, p)
}

/// Modulo any number, the declared constraints vanish on a row where every statement of the copy
/// circuit holds, and modulo a prime only there.
pub proof fn law_declared_gates_vanish_where_satisfied(
    config: CopyCircuitConfig,
    challenge: Expr,
    declared: Seq<Gate>,
    t: Trace,
    row: int,
    p: int,
)
    requires
        p > 1,
        config.declares_gates(challenge, declared),
    ensures
        config.satisfied(challenge, t, row, p) ==> forall|k: int|
            0 <= k < declared.len() ==> gate_vanishes(#[trigger] declared[k], t, row, p),
        is_prime(p) && (forall|k: int|
            0 <= k < declared.len() ==> gate_vanishes(#[trigger] declared[k], t, row, p))
            ==> config.satisfied(challenge, t, row, p),
{
    let tables = config.statements(challenge, t, row, p);
    assert forall|k: int| 0 <= k < 11 implies states(
        (#[trigger] declared[k]).constraints,
        t,
        row,
        p,
        tables[k],
    ) by {}
    if config.satisfied(challenge, t, row, p) {
        assert forall|k: int| 0 <= k < declared.len() implies gate_vanishes(
            #[trigger] declared[k],
            t,
            row,
            p,
        ) by {
            assert(all_true(tables[k]));
            assert forall|j: int| 0 <= j < declared[k].constraints.len() implies (
            #[trigger] declared[k].constraints[j]).1.vanishes(t, row, p) by {
                assert(tables[k][j].1);
            }
        }
    }
    if is_prime(p) && (forall|k: int|
        0 <= k < declared.len() ==> gate_vanishes(#[trigger] declared[k], t, row, p)) {
        assert forall|k: int| 0 <= k < 11 implies all_true(#[trigger] tables[k]) by {
            assert(gate_vanishes(declared[k], t, row, p));
            assert forall|j: int| 0 <= j < tables[k].len() implies (#[trigger] tables[k][j]).1 by {
                assert(declared[k].constraints[j].1.vanishes(t, row, p));
            }
        }
    }
}

/// Once the circuit is filled, every declared constraint vanishes in the scalar field on each row
/// after the copy events.
pub proof fn law_declared_gates_vanish_on_padding(
    config: CopyCircuitConfig,
    challenge: Expr,
    declared: Seq<Gate>,
    t: Trace,
    events: Seq<CopyEvent>,
    rows: Seq<Vec<CopyRow>>,
    max_copy_rows: int,
    row: int,
)
    requires
        config.comparisons_fit(),
        config.declares_gates(challenge, declared),
        rows_of_events(events, rows),
        copy_rows(events) + 2 <= max_copy_rows,
        config.filled(t, events, rows, max_copy_rows),
        copy_rows(events) <= row < max_copy_rows,
    ensures
        forall|k: int|
            0 <= k < declared.len() ==> gate_vanishes(
                #[trigger] declared[k],
                t,
                row,
                modulus() as int,
            ),
{
    law_filled_padding_satisfies(config, challenge, t, events, rows, max_copy_rows, row);
    law_declared_gates_vanish_where_satisfied(
        config,
        challenge,
        declared,
        t,
        row,
        modulus() as int,
    );
}

/// The random linear combination of the copied bytes is the same on all rows of a copy event.
pub proof fn law_rlc_acc_is_shared(
    config: CopyCircuitConfig,
    challenge: Expr,
    t: Trace,
    first: int,
    steps: int,
    p: int,
    row: int,
)
    requires
        config.is_event(challenge, t, first, steps, p),
        first <= row < first + 2 * steps,
    ensures
        same(
            CopyCircuitConfig::cell(t, config.copy_table.rlc_acc, first),
            CopyCircuitConfig::cell(t, config.copy_table.rlc_acc, row),
            p,
        ),
    decreases row - first,
{
    let c = config.copy_table.rlc_acc;
    if row == first {
        lemma_same_reflexive(CopyCircuitConfig::cell(t, c, first), p);
    } else {
        law_rlc_acc_is_shared(config, challenge, t, first, steps, p, row - 1);
        config.lemma_event_row(challenge, t, first, steps, row - 1, p);
        assert(config.verify_row(t, row - 1, p)[16].1);
        lemma_same_transitive(
            CopyCircuitConfig::cell(t, c, first),
            CopyCircuitConfig::cell(t, c, row - 1),
            CopyCircuitConfig::cell(t, c, row),
            p,
        );
    }
}

/// On the read rows of a copy event, where none before is padding or masked, the number of bytes
/// left counts down to one: on the first row it is the number of bytes.
pub proof fn law_bytes_left_counts_down(
    config: CopyCircuitConfig,
    challenge: Expr,
    t: Trace,
    first: int,
    steps: int,
    p: int,
    j: int,
)
    requires
        config.is_event(challenge, t, first, steps, p),
        forall|i: int|
            0 <= i < steps - 1 ==> !is_zero(#[trigger] config.plain(t, first + 2 * i), p),
        0 <= j < steps,
    ensures
        same(
            CopyCircuitConfig::cell(t, config.copy_table.bytes_left, first + 2 * j),
            steps - j,
            p,
        ),
    decreases steps - j,
{
    let c = config.copy_table.bytes_left;
    let row = first + 2 * j;
    config.lemma_event_row(challenge, t, first, steps, row, p);
    config.lemma_event_row(challenge, t, first, steps, row + 1, p);
    let here = CopyCircuitConfig::cell(t, c, row);
    if j == steps - 1 {
        assert(config.verify_step(challenge, t, row, p)[0].1);
        lemma_same_symmetric(1, here, p);
    } else {
        let next = CopyCircuitConfig::cell(t, c, row + 2);
        law_bytes_left_counts_down(config, challenge, t, first, steps, p, j + 1);
        assert(!is_zero(config.plain(t, first + 2 * j), p));
        assert(config.verify_step(challenge, t, row, p)[4].1);
        lemma_same_reflexive(1, p);
        lemma_same_sum(next, steps - j - 1, 1, 1, p);
        lemma_same_transitive(here, next + 1, steps - j, p);
    }
}

/// How many of the first `n` read rows from a row on are not masked.
pub open spec fn unmasked(config: CopyCircuitConfig, t: Trace, row: int, n: nat) -> int
    decreases n,
{
    if n == 0 {
        0
    } else {
        unmasked(config, t, row, (n - 1) as nat) + (1 - CopyCircuitConfig::cell(
            t,
            config.mask,
            row + 2 * (n - 1),
        ))
    }
}

/// On the read rows of a copy event, the number of bytes left to copy goes down by one for each
/// row that is not masked, and on the last row of the event none is left.
pub proof fn law_real_bytes_left_counts_unmasked(
    config: CopyCircuitConfig,
    challenge: Expr,
    t: Trace,
    first: int,
    steps: int,
    p: int,
    j: nat,
)
    requires
        config.is_event(challenge, t, first, steps, p),
        j < steps,
    ensures
        same(
            CopyCircuitConfig::cell(t, config.copy_table.real_bytes_left, first),
            CopyCircuitConfig::cell(t, config.copy_table.real_bytes_left, first + 2 * j)
                + unmasked(config, t, first, j),
            p,
        ),
        is_zero(
            CopyCircuitConfig::cell(t, config.copy_table.real_bytes_left, first + 2 * steps - 1),
            p,
        ),
    decreases j,
{
    let c = config.copy_table.real_bytes_left;
    let start = CopyCircuitConfig::cell(t, c, first);
    let last = first + 2 * steps - 2;
    config.lemma_event_row(challenge, t, first, steps, last, p);
    config.lemma_event_row(challenge, t, first, steps, last + 1, p);
    assert(config.verify_step(challenge, t, last, p)[1].1);
    if j == 0 {
        lemma_same_reflexive(start, p);
    } else {
        let row = first + 2 * (j - 1);
        let before = CopyCircuitConfig::cell(t, c, row);
        let here = CopyCircuitConfig::cell(t, c, row + 2);
        let mask = CopyCircuitConfig::cell(t, config.mask, row);
        let count = unmasked(config, t, first, (j - 1) as nat);
        law_real_bytes_left_counts_unmasked(
            config,
            challenge,
            t,
            first,
            steps,
            p,
            (j - 1) as nat,
        );
        config.lemma_event_row(challenge, t, first, steps, row, p);
        config.lemma_event_row(challenge, t, first, steps, row + 1, p);
        assert(config.verify_step(challenge, t, row, p)[2].1);
        lemma_same_reflexive(count, p);
        lemma_same_sum(before, here + (1 - mask), count, count, p);
        lemma_same_transitive(start, before + count, here + (1 - mask) + count, p);
    }
}

/// By how much the address grows over `n` rows of one kind, reads or writes, from a row on: by one
/// for each that is not part of the front mask.
pub open spec fn advanced(config: CopyCircuitConfig, t: Trace, row: int, n: nat) -> int
    decreases n,
{
    if n == 0 {
        0
    } else {
        advanced(config, t, row, (n - 1) as nat) + (1 - CopyCircuitConfig::cell(
            t,
            config.front_mask,
            row + 2 * (n - 1),
        ))
    }
}

/// On the read rows of a copy event, and on its write rows, the address grows by one from each row
/// to the next, except in the front mask.
pub proof fn law_addresses_advance(
    config: CopyCircuitConfig,
    challenge: Expr,
    t: Trace,
    first: int,
    steps: int,
    p: int,
    start: int,
    j: nat,
)
    requires
        config.is_event(challenge, t, first, steps, p),
        start == first || start == first + 1,
        j < steps,
    ensures
        same(
            CopyCircuitConfig::cell(t, config.copy_table.addr, start) + advanced(
                config,
                t,
                start,
                j,
            ),
            CopyCircuitConfig::cell(t, config.copy_table.addr, start + 2 * j),
            p,
        ),
    decreases j,
{
    let c = config.copy_table.addr;
    let begin = CopyCircuitConfig::cell(t, c, start);
    if j == 0 {
        lemma_same_reflexive(begin, p);
    } else {
        let row = start + 2 * (j - 1);
        let before = CopyCircuitConfig::cell(t, c, row);
        let here = CopyCircuitConfig::cell(t, c, row + 2);
        let growth = 1 - CopyCircuitConfig::cell(t, config.front_mask, row);
        let so_far = advanced(config, t, start, (j - 1) as nat);
        law_addresses_advance(config, challenge, t, first, steps, p, start, (j - 1) as nat);
        config.lemma_event_row(challenge, t, first, steps, row, p);
        config.lemma_event_row(challenge, t, first, steps, row + 1, p);
        assert(config.verify_row(t, row, p)[12].1);
        lemma_same_reflexive(growth, p);
        lemma_same_sum(begin + so_far, before, growth, growth, p);
        lemma_same_transitive(begin + so_far + growth, before + growth, here, p);
    }
}

/// On the read rows of a copy event, and on its write rows, where none before is padding or
/// masked, the identifier, the data type and the end of the source stay the same.
pub proof fn law_copies_stay_in_place(
    config: CopyCircuitConfig,
    challenge: Expr,
    t: Trace,
    first: int,
    steps: int,
    p: int,
    start: int,
    j: nat,
)
    requires
        config.is_event(challenge, t, first, steps, p),
        start == first || start == first + 1,
        j < steps,
        forall|i: int| 0 <= i < j ==> !is_zero(#[trigger] config.plain(t, start + 2 * i), p),
    ensures
        same(
            CopyCircuitConfig::cell(t, config.copy_table.id, start),
            CopyCircuitConfig::cell(t, config.copy_table.id, start + 2 * j),
            p,
        ),
        same(
            config.copy_table.tag.number(t, start),
            config.copy_table.tag.number(t, start + 2 * j),
            p,
        ),
        same(
            CopyCircuitConfig::cell(t, config.copy_table.src_addr_end, start),
            CopyCircuitConfig::cell(t, config.copy_table.src_addr_end, start + 2 * j),
            p,
        ),
    decreases j,
{
    let ct = config.copy_table;
    if j == 0 {
        lemma_same_reflexive(CopyCircuitConfig::cell(t, ct.id, start), p);
        lemma_same_reflexive(ct.tag.number(t, start), p);
        lemma_same_reflexive(CopyCircuitConfig::cell(t, ct.src_addr_end, start), p);
    } else {
        let row = start + 2 * (j - 1);
        law_copies_stay_in_place(config, challenge, t, first, steps, p, start, (j - 1) as nat);
        config.lemma_event_row(challenge, t, first, steps, row, p);
        config.lemma_event_row(challenge, t, first, steps, row + 1, p);
        assert(!is_zero(config.plain(t, start + 2 * (j - 1)), p));
        let table = config.verify_row(t, row, p);
        assert(table[13].1);
        assert(table[14].1);
        assert(table[15].1);
        lemma_same_transitive(
            CopyCircuitConfig::cell(t, ct.id, start),
            CopyCircuitConfig::cell(t, ct.id, row),
            CopyCircuitConfig::cell(t, ct.id, row + 2),
            p,
        );
        lemma_same_transitive(
            ct.tag.number(t, start),
            ct.tag.number(t, row),
            ct.tag.number(t, row + 2),
            p,
        );
        lemma_same_transitive(
            CopyCircuitConfig::cell(t, ct.src_addr_end, start),
            CopyCircuitConfig::cell(t, ct.src_addr_end, row),
            CopyCircuitConfig::cell(t, ct.src_addr_end, row + 2),
            p,
        );
    }
}

/// Over the rows of a copy event, where none before is padding or masked, what the read-write
/// counter is and what it is still to grow by add up to the same.
pub proof fn law_rw_counter_ends_at_the_same(
    config: CopyCircuitConfig,
    challenge: Expr,
    t: Trace,
    first: int,
    steps: int,
    p: int,
    row: int,
)
    requires
        config.is_event(challenge, t, first, steps, p),
        first <= row < first + 2 * steps,
        forall|i: int| first <= i < row ==> !is_zero(#[trigger] config.plain(t, i), p),
    ensures
        same(
            CopyCircuitConfig::cell(t, config.copy_table.rw_counter, first)
                + CopyCircuitConfig::cell(t, config.copy_table.rwc_inc_left, first),
            CopyCircuitConfig::cell(t, config.copy_table.rw_counter, row)
                + CopyCircuitConfig::cell(t, config.copy_table.rwc_inc_left, row),
            p,
        ),
    decreases row - first,
{
    let a = config.copy_table.rw_counter;
    let b = config.copy_table.rwc_inc_left;
    let start = CopyCircuitConfig::cell(t, a, first) + CopyCircuitConfig::cell(t, b, first);
    if row == first {
        lemma_same_reflexive(start, p);
    } else {
        law_rw_counter_ends_at_the_same(config, challenge, t, first, steps, p, row - 1);
        config.lemma_event_row(challenge, t, first, steps, row - 1, p);
        assert(!is_zero(config.plain(t, row - 1), p));
        assert(config.verify_row(t, row - 1, p)[9].1);
        lemma_same_transitive(
            start,
            CopyCircuitConfig::cell(t, a, row - 1) + CopyCircuitConfig::cell(t, b, row - 1),
            CopyCircuitConfig::cell(t, a, row) + CopyCircuitConfig::cell(t, b, row),
            p,
        );
    }
}

/// Within a word of a copy from memory to memory, the read-write counter grows by one from the read
/// to the write of a byte, and goes back to the same for the read of the next byte.
pub proof fn law_rw_counter_alternates(
    config: CopyCircuitConfig,
    challenge: Expr,
    t: Trace,
    first: int,
    steps: int,
    p: int,
    j: int,
)
    requires
        config.is_event(challenge, t, first, steps, p),
        0 <= j < steps - 1,
        config.plain(t, first + 2 * j) == 1,
        config.plain(t, first + 2 * j + 1) == 1,
        config.continues(t, first + 2 * j) == 1,
        config.continues(t, first + 2 * j + 1) == 1,
        CopyCircuitConfig::cell(t, config.is_memory, first + 2 * j) == 1,
        CopyCircuitConfig::cell(t, config.is_memory, first + 2 * j + 1) == 1,
        CopyCircuitConfig::cell(t, config.is_memory, first + 2 * j + 2) == 1,
    ensures
        same(
            CopyCircuitConfig::cell(t, config.copy_table.rw_counter, first + 2 * j) + 1,
            CopyCircuitConfig::cell(t, config.copy_table.rw_counter, first + 2 * j + 1),
            p,
        ),
        same(
            CopyCircuitConfig::cell(t, config.copy_table.rw_counter, first + 2 * j),
            CopyCircuitConfig::cell(t, config.copy_table.rw_counter, first + 2 * j + 2),
            p,
        ),
{
    let row = first + 2 * j;
    let c = config.copy_table.rw_counter;
    let here = CopyCircuitConfig::cell(t, c, row);
    let written = CopyCircuitConfig::cell(t, c, row + 1);
    let next = CopyCircuitConfig::cell(t, c, row + 2);
    config.lemma_event_row(challenge, t, first, steps, row, p);
    config.lemma_event_row(challenge, t, first, steps, row + 1, p);
    config.lemma_event_row(challenge, t, first, steps, row + 2, p);
    assert(config.verify_row(t, row, p)[10].1);
    assert(config.verify_row(t, row + 1, p)[10].1);
    assert((1 * 1) * (2 * 1 - 1) == 1);
    assert((1 * 1) * (2 * 0 - 1) == -1);
    assert(same(here + 1, written, p));
    assert(same(written - 1, next, p));
    lemma_same_reflexive(-1, p);
    lemma_same_sum(here + 1, written, -1, -1, p);
    lemma_same_transitive(here, written - 1, next, p);
}

/// On an enabled row whose tag holds bits, the columns for the data types tell what the tag is:
/// each is one where the tag is the code of its data type, and zero elsewhere.
pub proof fn law_columns_tell_the_data_type(
    config: CopyCircuitConfig,
    challenge: Expr,
    t: Trace,
    row: int,
    p: int,
)
    requires
        config.enabled(t, row, p),
        config.satisfied(challenge, t, row, p),
        0 <= CopyCircuitConfig::cell(t, config.copy_table.tag.bit_8, row) <= 1,
        0 <= CopyCircuitConfig::cell(t, config.copy_table.tag.bit_4, row) <= 1,
        0 <= CopyCircuitConfig::cell(t, config.copy_table.tag.bit_2, row) <= 1,
        0 <= CopyCircuitConfig::cell(t, config.copy_table.tag.bit_1, row) <= 1,
    ensures
        ({
            let tag = config.copy_table.tag.number(t, row);
            &&& same(
                CopyCircuitConfig::cell(t, config.is_bytecode, row),
                number_of(tag == 1) as int,
                p,
            )
            &&& same(
                CopyCircuitConfig::cell(t, config.is_memory, row),
                number_of(tag == 2) as int,
                p,
            )
            &&& same(
                CopyCircuitConfig::cell(t, config.is_tx_calldata, row),
                number_of(tag == 3) as int,
                p,
            )
            &&& same(
                CopyCircuitConfig::cell(t, config.is_tx_log, row),
                number_of(tag == 4) as int,
                p,
            )
            &&& same(
                CopyCircuitConfig::cell(t, config.is_precompiled, row),
                number_of(6 <= tag < 15) as int,
                p,
            )
        }),
{
    let table = config.decode_tag(t, row, p);
    let bits = config.copy_table.tag;
    assert(all_true(config.statements(challenge, t, row, p)[3]));
    assert(table[0].1 && table[1].1 && table[2].1 && table[3].1 && table[4].1);
    law_indicator(bits, 1, t, row);
    law_indicator(bits, 2, t, row);
    law_indicator(bits, 3, t, row);
    law_indicator(bits, 4, t, row);
    law_indicator(bits, 6, t, row);
    law_indicator(bits, 7, t, row);
    law_indicator(bits, 8, t, row);
    law_indicator(bits, 9, t, row);
    law_indicator(bits, 10, t, row);
    law_indicator(bits, 11, t, row);
    law_indicator(bits, 12, t, row);
    law_indicator(bits, 13, t, row);
    law_indicator(bits, 14, t, row);
    assert(config.tagged_precompile(t, row) == number_of(6 <= bits.number(t, row) < 15));
}

/// The random linear combination, by the powers of `r`, of the accumulator of a row and the values
/// of the `n` read rows after it.
pub open spec fn accumulated(config: CopyCircuitConfig, t: Trace, row: int, n: nat, r: int) -> int
    decreases n,
{
    if n == 0 {
        CopyCircuitConfig::cell(t, config.value_acc, row)
    } else {
        accumulated(config, t, row, (n - 1) as nat, r) * r + CopyCircuitConfig::cell(
            t,
            config.value,
            row + 2 * n,
        )
    }
}

/// On the read rows of a copy event without padding and masks, the accumulator is the random
/// linear combination of what it was on the first row and of the values read since.
pub proof fn law_value_acc_accumulates(
    config: CopyCircuitConfig,
    challenge: Expr,
    t: Trace,
    first: int,
    steps: int,
    p: int,
    r: int,
    j: nat,
)
    requires
        config.is_event(challenge, t, first, steps, p),
        forall|row: int| #[trigger] challenge.eval(t, row) == r,
        forall|i: int|
            0 <= i < j ==> #[trigger] CopyCircuitConfig::cell(t, config.is_pad, first + 2 * i)
                == 0,
        forall|i: int|
            1 <= i <= j ==> #[trigger] CopyCircuitConfig::cell(t, config.mask, first + 2 * i) == 0,
        j < steps,
    ensures
        same(
            CopyCircuitConfig::cell(t, config.value_acc, first + 2 * j),
            accumulated(config, t, first, j, r),
            p,
        ),
    decreases j,
{
    let c = config.value_acc;
    if j == 0 {
        lemma_same_reflexive(CopyCircuitConfig::cell(t, c, first), p);
    } else {
        let row = first + 2 * (j - 1);
        let before = CopyCircuitConfig::cell(t, c, row);
        let here = CopyCircuitConfig::cell(t, c, row + 2);
        let value = CopyCircuitConfig::cell(t, config.value, row + 2);
        let so_far = accumulated(config, t, first, (j - 1) as nat, r);
        law_value_acc_accumulates(config, challenge, t, first, steps, p, r, (j - 1) as nat);
        config.lemma_event_row(challenge, t, first, steps, row, p);
        config.lemma_event_row(challenge, t, first, steps, row + 1, p);
        assert(CopyCircuitConfig::cell(t, config.is_pad, first + 2 * (j - 1)) == 0);
        assert(CopyCircuitConfig::cell(t, config.mask, first + 2 * j) == 0);
        assert(row + 2 == first + 2 * j);
        assert(challenge.eval(t, row) == r);
        assert(config.verify_step(challenge, t, row, p)[6].1);
        lemma_same_multiple(before, so_far, r, p);
        lemma_same_reflexive(value, p);
        lemma_same_sum(before * r, so_far * r, value, value, p);
        lemma_same_transitive(here, before * r + value, so_far * r + value, p);
    }
}

/// The copy of which a row is the last read row is one whose bytes are accumulated: to or from a
/// precompiled contract, from memory or call data to bytecode, or to an accumulator.
pub open spec fn is_accumulated(config: CopyCircuitConfig, t: Trace, row: int, p: int) -> bool {
    ||| !is_zero(config.precompile_case(t, row), p)
    ||| !is_zero(config.memory_to_bytecode_case(t, row), p)
    ||| !is_zero(config.tx_calldata_to_bytecode_case(t, row), p)
    ||| !is_zero(config.rlc_acc_case(t, row), p)
}

/// Where the bytes of a copy event are accumulated, and none is padding or masked, the copy table
/// holds on each of its rows the random linear combination of its bytes.
pub proof fn law_rlc_acc_is_the_combination(
    config: CopyCircuitConfig,
    challenge: Expr,
    t: Trace,
    first: int,
    steps: int,
    p: int,
    r: int,
    row: int,
)
    requires
        config.is_event(challenge, t, first, steps, p),
        is_accumulated(config, t, first + 2 * steps - 2, p),
        forall|row: int| #[trigger] challenge.eval(t, row) == r,
        forall|i: int|
            0 <= i < steps - 1 ==> #[trigger] CopyCircuitConfig::cell(
                t,
                config.is_pad,
                first + 2 * i,
            ) == 0,
        forall|i: int|
            1 <= i < steps ==> #[trigger] CopyCircuitConfig::cell(t, config.mask, first + 2 * i)
                == 0,
        first <= row < first + 2 * steps,
    ensures
        same(
            CopyCircuitConfig::cell(t, config.copy_table.rlc_acc, row),
            accumulated(config, t, first, (steps - 1) as nat, r),
            p,
        ),
{
    let last = first + 2 * steps - 2;
    let acc = accumulated(config, t, first, (steps - 1) as nat, r);
    let rlc_acc = config.copy_table.rlc_acc;
    let start = CopyCircuitConfig::cell(t, rlc_acc, first);
    let end = CopyCircuitConfig::cell(t, rlc_acc, last + 1);
    let value_acc = CopyCircuitConfig::cell(t, config.value_acc, last);
    let value_acc_next = CopyCircuitConfig::cell(t, config.value_acc, last + 1);
    law_value_acc_accumulates(config, challenge, t, first, steps, p, r, (steps - 1) as nat);
    law_rlc_acc_is_shared(config, challenge, t, first, steps, p, row);
    law_rlc_acc_is_shared(config, challenge, t, first, steps, p, last + 1);
    config.lemma_event_row(challenge, t, first, steps, last, p);
    config.lemma_event_row(challenge, t, first, steps, last + 1, p);
    assert(config.verify_step(challenge, t, last, p)[5].1);
    let s = config.statements(challenge, t, last, p);
    assert(all_true(s[5]) && all_true(s[6]) && all_true(s[7]) && all_true(s[8]));
    assert(s[5][0].1 && s[6][0].1 && s[7][0].1 && s[8][0].1);
    assert(same(value_acc_next, end, p));
    lemma_same_symmetric(value_acc_next, end, p);
    lemma_same_symmetric(value_acc, value_acc_next, p);
    lemma_same_transitive(start, end, value_acc_next, p);
    lemma_same_transitive(start, value_acc_next, value_acc, p);
    lemma_same_transitive(start, value_acc, acc, p);
    let here = CopyCircuitConfig::cell(t, rlc_acc, row);
    lemma_same_symmetric(start, here, p);
    lemma_same_transitive(here, start, acc, p);
}

/// On the last row of a copy event, the random linear combinations of what was read and of what
/// was written are equal.
pub proof fn law_reads_equal_writes(
    config: CopyCircuitConfig,
    challenge: Expr,
    t: Trace,
    first: int,
    steps: int,
    p: int,
)
    requires
        config.is_event(challenge, t, first, steps, p),
    ensures
        same(
            CopyCircuitConfig::cell(t, config.rlc_acc_read, first + 2 * steps - 1),
            CopyCircuitConfig::cell(t, config.rlc_acc_write, first + 2 * steps - 1),
            p,
        ),
{
    let last = first + 2 * steps - 2;
    config.lemma_event_row(challenge, t, first, steps, last, p);
    config.lemma_event_row(challenge, t, first, steps, last + 1, p);
    let s = config.statements(challenge, t, last, p);
    assert(all_true(s[9]));
    assert(s[9][0].1);
}

/// The cells of a comparison are in range: the difference bytes are bytes, as their lookups
/// require, and the comparison bit is below the order of the field.
pub open spec fn in_range(config: LtConfig, t: Trace, row: int, p: int) -> bool {
    &&& 0 <= (t.advice)(config.lt, row) < p
    &&& forall|k: int|
        0 <= k < config.diff@.len() ==> 0 <= (t.advice)(#[trigger] config.diff@[k], row) < 256
}

/// A read row is marked as padding exactly where its address is at or beyond the end of the
/// source, and a write row never is.
pub proof fn law_padding_is_out_of_bounds(
    config: CopyCircuitConfig,
    challenge: Expr,
    t: Trace,
    row: int,
    p: int,
)
    requires
        p > 2 * range(8),
        config.comparisons_fit(),
        config.enabled(t, row, p),
        config.step(t, row) == 1,
        config.satisfied(challenge, t, row, p),
        in_range(config.addr_lt_addr_end, t, row, p),
        0 <= CopyCircuitConfig::cell(t, config.copy_table.addr, row) < range(8),
        0 <= CopyCircuitConfig::cell(t, config.copy_table.src_addr_end, row) < range(8),
    ensures
        same(
            CopyCircuitConfig::cell(t, config.is_pad, row),
            if CopyCircuitConfig::cell(t, config.copy_table.addr, row) < CopyCircuitConfig::cell(
                t,
                config.copy_table.src_addr_end,
                row,
            ) {
                0
            } else {
                1
            },
            p,
        ),
        is_zero(CopyCircuitConfig::cell(t, config.is_pad, row + 1), p),
{
    assert(range(8) >= 1) by {
        reveal_with_fuel(range, 9);
    }
    lemma_small_mod(1, p as nat);
    let s = config.statements(challenge, t, row, p);
    assert(all_true(s[0]));
    assert(all_true(s[10]));
    assert(!Expr::Selector(config.q_step).vanishes(t, row, p));
    law_comparison_is_sound(
        config.addr_lt_addr_end,
        Expr::Selector(config.q_step),
        Expr::Advice(config.copy_table.addr, 0),
        Expr::Advice(config.copy_table.src_addr_end, 0),
        t,
        row,
        p,
    );
    let table = config.verify_step(challenge, t, row, p);
    assert(table[8].1);
    assert(table[9].1);
    lemma_same_symmetric(
        1 - CopyCircuitConfig::cell(t, config.addr_lt_addr_end.lt, row),
        CopyCircuitConfig::cell(t, config.is_pad, row),
        p,
    );
}

/// A padded read reads zero: on an enabled read row that is padding and not masked, the value is
/// zero.
pub proof fn law_padded_reads_are_zero(
    config: CopyCircuitConfig,
    challenge: Expr,
    t: Trace,
    row: int,
    p: int,
)
    requires
        p > 1,
        config.enabled(t, row, p),
        config.step(t, row) == 1,
        config.satisfied(challenge, t, row, p),
        same(CopyCircuitConfig::cell(t, config.is_pad, row), 1, p),
        is_zero(CopyCircuitConfig::cell(t, config.mask, row), p),
    ensures
        is_zero(CopyCircuitConfig::cell(t, config.value, row), p),
{
    lemma_small_mod(1, p as nat);
    let mask = CopyCircuitConfig::cell(t, config.mask, row);
    let is_pad = CopyCircuitConfig::cell(t, config.is_pad, row);
    if is_zero(1 - mask, p) {
        lemma_same_sum(mask, 0, 1 - mask, 0, p);
    }
    if is_zero(is_pad, p) {
        lemma_same_symmetric(is_pad, 1, p);
        lemma_same_transitive(1, is_pad, 0, p);
    }
    assert(all_true(config.statements(challenge, t, row, p)[10]));
    assert(config.verify_step(challenge, t, row, p)[7].1);
}

/// The comparison bit of a read row tells exactly where the row is neither padding nor masked.
pub proof fn law_plain_rows_are_neither_padding_nor_masked(
    config: CopyCircuitConfig,
    challenge: Expr,
    t: Trace,
    row: int,
    p: int,
)
    requires
        p > 2 * range(1),
        config.comparisons_fit(),
        config.step(t, row) == 1,
        config.satisfied(challenge, t, row, p),
        in_range(config.non_pad_non_mask, t, row, p),
        0 <= CopyCircuitConfig::cell(t, config.is_pad, row) <= 1,
        0 <= CopyCircuitConfig::cell(t, config.mask, row) <= 1,
    ensures
        config.plain(t, row) == (if CopyCircuitConfig::cell(t, config.is_pad, row) == 0
            && CopyCircuitConfig::cell(t, config.mask, row) == 0 {
            1int
        } else {
            0int
        }),
{
    reveal_with_fuel(range, 2);
    reveal_with_fuel(Expr::eval, 3);
    lemma_small_mod(1, p as nat);
    let s = config.statements(challenge, t, row, p);
    assert(all_true(s[2]));
    assert(!Expr::Selector(config.q_step).vanishes(t, row, p));
    law_comparison_is_sound(
        config.non_pad_non_mask,
        Expr::Selector(config.q_step),
        Expr::Sum(
            Box::new(Expr::Advice(config.is_pad, 0)),
            Box::new(Expr::Advice(config.mask, 0)),
        ),
        Expr::Constant(1),
        t,
        row,
        p,
    );
}

/// The comparison bit of a read row tells exactly where a word goes on after it, that is, where
/// its index within the word is not the last.
pub proof fn law_words_continue_before_the_last_byte(
    config: CopyCircuitConfig,
    challenge: Expr,
    t: Trace,
    row: int,
    p: int,
)
    requires
        p > 2 * range(1),
        config.comparisons_fit(),
        config.step(t, row) == 1,
        config.satisfied(challenge, t, row, p),
        in_range(config.is_word_continue, t, row, p),
        0 <= CopyCircuitConfig::cell(t, config.word_index, row) < 256,
    ensures
        config.continues(t, row) == (if CopyCircuitConfig::cell(t, config.word_index, row) < 31 {
            1int
        } else {
            0int
        }),
{
    reveal_with_fuel(range, 2);
    lemma_small_mod(1, p as nat);
    let s = config.statements(challenge, t, row, p);
    assert(all_true(s[1]));
    assert(!Expr::Selector(config.q_step).vanishes(t, row, p));
    law_comparison_is_sound(
        config.is_word_continue,
        Expr::Selector(config.q_step),
        Expr::Advice(config.word_index, 0),
        Expr::Constant(31),
        t,
        row,
        p,
    );
}

/// On the read rows of a copy event, where none before is padding or masked, the index within the
/// word goes through the numbers from zero to thirty-one in turns.
pub proof fn law_word_index_goes_round(
    config: CopyCircuitConfig,
    challenge: Expr,
    t: Trace,
    first: int,
    steps: int,
    p: int,
    j: nat,
)
    requires
        p > 2 * range(1),
        config.comparisons_fit(),
        config.is_event(challenge, t, first, steps, p),
        j < steps,
        forall|i: int| 0 <= i < j ==> !is_zero(#[trigger] config.plain(t, first + 2 * i), p),
        forall|i: int|
            0 <= i < steps ==> in_range(
                config.is_word_continue,
                t,
                #[trigger] (first + 2 * i),
                p,
            ),
        forall|i: int|
            0 <= i < steps ==> 0 <= #[trigger] CopyCircuitConfig::cell(
                t,
                config.word_index,
                first + 2 * i,
            ) < p,
        CopyCircuitConfig::cell(t, config.word_index, first) < 32,
    ensures
        CopyCircuitConfig::cell(t, config.word_index, first + 2 * j) == (CopyCircuitConfig::cell(
            t,
            config.word_index,
            first,
        ) + j) % 32,
    decreases j,
{
    reveal_with_fuel(range, 2);
    let start = CopyCircuitConfig::cell(t, config.word_index, first);
    assert(first + 2 * 0 == first);
    assert(0 <= CopyCircuitConfig::cell(t, config.word_index, first + 2 * 0) < p);
    if j == 0 {
        assert(start % 32 == start);
    } else {
        let i = j - 1;
        let row = first + 2 * i;
        let before = CopyCircuitConfig::cell(t, config.word_index, row);
        let here = CopyCircuitConfig::cell(t, config.word_index, row + 2);
        law_word_index_goes_round(config, challenge, t, first, steps, p, i as nat);
        config.lemma_event_row(challenge, t, first, steps, row, p);
        config.lemma_event_row(challenge, t, first, steps, row + 1, p);
        assert(in_range(config.is_word_continue, t, first + 2 * i, p));
        law_words_continue_before_the_last_byte(config, challenge, t, row, p);
        assert(!is_zero(config.plain(t, first + 2 * i), p));
        assert(row + 2 == first + 2 * j);
        assert(0 <= CopyCircuitConfig::cell(t, config.word_index, first + 2 * j) < p);
        let table = config.verify_row(t, row, p);
        assert(table[6].1);
        assert(table[7].1);
        assert(table[8].1);
        lemma_same_small(before + 1, here, p);
        lemma_same_small(here, 0, p);
    }
}

/// The cells of two traces agree on the rows up to `last`, and so do the selectors.
pub open spec fn agree(a: Trace, b: Trace, last: int) -> bool {
    &&& a.challenge == b.challenge
    &&& forall|c: AdviceColumn, row: int|
        row <= last ==> #[trigger] (a.advice)(c, row) == (b.advice)(c, row)
    &&& forall|c: FixedColumn, row: int|
        row <= last ==> #[trigger] (a.fixed)(c, row) == (b.fixed)(c, row)
    &&& forall|s: Selector, row: int|
        row <= last ==> #[trigger] (a.selector)(s, row) == (b.selector)(s, row)
}

/// Two traces agree on the rows of an event that ends with the row `last`, and in neither is the
/// row after it marked as the last of an event.
pub open spec fn agree_on_event(config: CopyCircuitConfig, a: Trace, b: Trace, last: int) -> bool {
    &&& agree(a, b, last)
    &&& CopyCircuitConfig::cell(a, config.is_last, last) == 1
    &&& CopyCircuitConfig::cell(a, config.is_last, last - 1) == 0
    &&& config.step(a, last) == 0
    &&& CopyCircuitConfig::cell(a, config.is_last, last + 1) == 0
    &&& CopyCircuitConfig::cell(b, config.is_last, last + 1) == 0
}

/// On the last two rows of a copy event, the constraints do not depend on what comes after it,
/// if only the row after it is not marked as the last of an event.
pub proof fn law_events_do_not_depend_on_what_follows(
    config: CopyCircuitConfig,
    challenge: Expr,
    a: Trace,
    b: Trace,
    last: int,
    row: int,
    p: int,
)
    requires
        p > 1,
        agree_on_event(config, a, b, last),
        row == last || row == last - 1,
        challenge.eval(a, row) == challenge.eval(b, row),
    ensures
        config.satisfied(challenge, a, row, p) <==> config.satisfied(challenge, b, row, p),
{
    lemma_compared_agree(config, a, b, last, row, p);
    lemma_verify_row_agree(config, a, b, last, row, p);
    lemma_last_step_agree(config, a, b, last, row, p);
    lemma_verify_step_agree(config, challenge, a, b, last, row, p);
    lemma_decode_tag_agree(config, a, b, last, row, p);
    assert(config.statements(challenge, a, row, p) == config.statements(challenge, b, row, p));
}

/// The statements on the data type agree where the cells of the row do.
proof fn lemma_decode_tag_agree(
    config: CopyCircuitConfig,
    a: Trace,
    b: Trace,
    last: int,
    row: int,
    p: int,
)
    requires
        agree(a, b, last),
        row <= last,
    ensures
        config.decode_tag(a, row, p) == config.decode_tag(b, row, p),
{
    assert(config.tagged_precompile(a, row) == config.tagged_precompile(b, row));
    assert(config.decode_tag(a, row, p) =~= config.decode_tag(b, row, p));
}

/// The statements of the comparisons agree where the cells of the row do.
proof fn lemma_compared_agree(
    config: CopyCircuitConfig,
    a: Trace,
    b: Trace,
    last: int,
    row: int,
    p: int,
)
    requires
        agree(a, b, last),
        row <= last,
    ensures
        config.addr_compared(a, row, p) == config.addr_compared(b, row, p),
        config.word_index_compared(a, row, p) == config.word_index_compared(b, row, p),
        config.pad_and_mask_compared(a, row, p) == config.pad_and_mask_compared(b, row, p),
{
    lemma_bytes_agree(config.addr_lt_addr_end.diff@, a, b, last, row);
    lemma_bytes_agree(config.is_word_continue.diff@, a, b, last, row);
    lemma_bytes_agree(config.non_pad_non_mask.diff@, a, b, last, row);
    reveal_with_fuel(Expr::eval, 3);
    assert(config.addr_compared(a, row, p) =~= config.addr_compared(b, row, p));
    assert(config.word_index_compared(a, row, p) =~= config.word_index_compared(b, row, p));
    assert(config.pad_and_mask_compared(a, row, p) =~= config.pad_and_mask_compared(b, row, p));
}

/// The statements on the last two rows of an event agree.
proof fn lemma_verify_row_agree(
    config: CopyCircuitConfig,
    a: Trace,
    b: Trace,
    last: int,
    row: int,
    p: int,
)
    requires
        p > 1,
        agree_on_event(config, a, b, last),
        row == last || row == last - 1,
    ensures
        config.verify_row(a, row, p) == config.verify_row(b, row, p),
{
    lemma_small_mod(0, p as nat);
    assert(config.verify_row(a, row, p) =~= config.verify_row(b, row, p));
}

/// The statements on the accumulators agree on the last two rows of an event.
proof fn lemma_last_step_agree(
    config: CopyCircuitConfig,
    a: Trace,
    b: Trace,
    last: int,
    row: int,
    p: int,
)
    requires
        p > 1,
        agree_on_event(config, a, b, last),
        row == last || row == last - 1,
    ensures
        config.last_value_acc(config.precompile_case(a, row), a, row, p) == config.last_value_acc(
            config.precompile_case(b, row),
            b,
            row,
            p,
        ),
        config.last_value_acc(config.memory_to_bytecode_case(a, row), a, row, p)
            == config.last_value_acc(config.memory_to_bytecode_case(b, row), b, row, p),
        config.last_value_acc(config.tx_calldata_to_bytecode_case(a, row), a, row, p)
            == config.last_value_acc(config.tx_calldata_to_bytecode_case(b, row), b, row, p),
        config.last_value_acc(config.rlc_acc_case(a, row), a, row, p) == config.last_value_acc(
            config.rlc_acc_case(b, row),
            b,
            row,
            p,
        ),
        config.last_rlc(a, row, p) == config.last_rlc(b, row, p),
{
    lemma_small_mod(0, p as nat);
    if row == last {
        assert(is_zero(CopyCircuitConfig::cell(a, config.is_last, row + 1), p));
        assert(is_zero(CopyCircuitConfig::cell(b, config.is_last, row + 1), p));
    } else {
        assert(config.precompile_case(a, row) == config.precompile_case(b, row));
        assert(config.memory_to_bytecode_case(a, row) == config.memory_to_bytecode_case(b, row));
        assert(config.tx_calldata_to_bytecode_case(a, row)
            == config.tx_calldata_to_bytecode_case(b, row));
        assert(config.rlc_acc_case(a, row) == config.rlc_acc_case(b, row));
    }
    assert(config.last_rlc(a, row, p) =~= config.last_rlc(b, row, p));
}

/// The statements on steps agree on the last two rows of an event.
proof fn lemma_verify_step_agree(
    config: CopyCircuitConfig,
    challenge: Expr,
    a: Trace,
    b: Trace,
    last: int,
    row: int,
    p: int,
)
    requires
        p > 1,
        agree_on_event(config, a, b, last),
        row == last || row == last - 1,
        challenge.eval(a, row) == challenge.eval(b, row),
    ensures
        config.verify_step(challenge, a, row, p) == config.verify_step(challenge, b, row, p),
{
    lemma_small_mod(0, p as nat);
    assert(config.verify_step(challenge, a, row, p) =~= config.verify_step(challenge, b, row, p));
}

/// Columns of bytes hold the same number where their cells agree.
proof fn lemma_bytes_agree(columns: Seq<AdviceColumn>, a: Trace, b: Trace, last: int, row: int)
    requires
        agree(a, b, last),
        row <= last,
    ensures
        bytes_value(columns, a, row) == bytes_value(columns, b, row),
    decreases columns.len(),
{
    if columns.len() > 0 {
        lemma_bytes_agree(columns.drop_first(), a, b, last, row);
    }
}

} // verus!
