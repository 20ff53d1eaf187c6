//! What a copy is, row by row, told by the cells alone: the constraints hold exactly on the rows of
//! a copy, and the lookups ask exactly for what is copied.
use vstd::prelude::*;
use vstd::arithmetic::div_mod::{
    lemma_mod_add_multiples_vanish, lemma_mod_breakdown, lemma_small_mod,
};
use crate::assign::{known, rows_of_events, CopyRow};
use crate::binary_number::law_indicator;
use crate::config::CopyCircuitConfig;
use crate::constraint_system::Lookup;
use crate::copy_event::lemma_copy_rows_prefix;
use crate::copy_event::{copy_rows, CopyDataType, CopyEvent};
use crate::expression::{AdviceColumn, Expr, FixedColumn, Trace};
use crate::field::{modulus, Scalar};
use crate::gates::looks_up;
use crate::less_than::{byte_of, bytes_value, range, range_checks, LtConfig};
use crate::prime::{is_bit, is_zero, same};
use crate::prime::{
    lemma_product_with_zero, lemma_same_multiple, lemma_same_reflexive, lemma_same_small,
    lemma_same_sum, lemma_same_symmetric, lemma_same_transitive,
};
use crate::soundness::{accumulated, in_range};
use crate::soundness::law_rlc_acc_is_the_combination;
use crate::soundness::law_words_continue_before_the_last_byte;
use crate::witness::{all_hold, all_true, holds};
use crate::witness::{
    law_copy_rows, law_copy_rows_are_decoded, law_enabled_rows, law_padding_rows,
};

verus! {

/// What an advice column holds in a row.
pub open spec fn at(t: Trace, column: AdviceColumn, row: int) -> int {
    (t.advice)(column, row)
}

/// Zero or one.
pub open spec fn bit(v: int) -> bool {
    v == 0 || v == 1
}

/// The number that the four bits of the tag of a row stand for.
pub open spec fn tag_of(config: CopyCircuitConfig, t: Trace, row: int) -> int {
    let tag = config.copy_table.tag;
    8 * at(t, tag.bit_8, row) + 4 * at(t, tag.bit_4, row) + 2 * at(t, tag.bit_2, row) + at(
        t,
        tag.bit_1,
        row,
    )
}

/// The tag of a row holds bits.
pub open spec fn tag_is_bits(config: CopyCircuitConfig, t: Trace, row: int) -> bool {
    let tag = config.copy_table.tag;
    bit(at(t, tag.bit_8, row)) && bit(at(t, tag.bit_4, row)) && bit(at(t, tag.bit_2, row)) && bit(
        at(t, tag.bit_1, row),
    )
}

/// The markers that a row and the rows after it carry are zero or one.
pub open spec fn markers_are_bits(config: CopyCircuitConfig, t: Trace, row: int) -> bool {
    &&& bit((t.selector)(config.q_step, row))
    &&& bit(at(t, config.copy_table.is_first, row))
    &&& bit(at(t, config.is_last, row))
    &&& bit(at(t, config.is_last, row + 1))
    &&& bit(at(t, config.mask, row))
    &&& bit(at(t, config.mask, row + 2))
    &&& bit(at(t, config.front_mask, row))
    &&& bit(at(t, config.is_pad, row))
    &&& bit(at(t, config.addr_lt_addr_end.lt, row))
    &&& bit(at(t, config.is_word_continue.lt, row))
    &&& bit(at(t, config.non_pad_non_mask.lt, row))
    &&& bit(at(t, config.is_memory, row))
    &&& bit(at(t, config.is_memory, row + 1))
    &&& bit(at(t, config.is_bytecode, row))
    &&& bit(at(t, config.is_bytecode, row + 1))
    &&& bit(at(t, config.is_tx_calldata, row))
    &&& bit(at(t, config.is_precompiled, row))
    &&& bit(at(t, config.is_precompiled, row + 1))
    &&& tag_is_bits(config, t, row)
    &&& tag_is_bits(config, t, row + 1)
}

/// The columns for the data types tell what the tag of a row is: one is bytecode, two memory, three
/// call data, four a log, and six to fourteen are the precompiled contracts.
pub open spec fn decoded(config: CopyCircuitConfig, t: Trace, row: int, p: int) -> bool {
    let tag = tag_of(config, t, row);
    &&& same(at(t, config.is_bytecode, row), (if tag == 1 { 1int } else { 0 }), p)
    &&& same(at(t, config.is_memory, row), (if tag == 2 { 1int } else { 0 }), p)
    &&& same(at(t, config.is_tx_calldata, row), (if tag == 3 { 1int } else { 0 }), p)
    &&& same(at(t, config.is_tx_log, row), (if tag == 4 { 1int } else { 0 }), p)
    &&& same(at(t, config.is_precompiled, row), (if 6 <= tag <= 14 { 1int } else { 0 }), p)
}

/// What goes on from a row of a copy to the next rows.
pub open spec fn carried_on(config: CopyCircuitConfig, t: Trace, row: int, p: int) -> bool {
    let ct = config.copy_table;
    let is_read = (t.selector)(config.q_step, row) == 1;
    let is_last = at(t, config.is_last, row) == 1;
    // Neither this row nor the next is the last of the copy; two rows that are both marked so are
    // held to the same.
    let goes_on = at(t, config.is_last, row) == at(t, config.is_last, row + 1);
    let is_plain = at(t, config.non_pad_non_mask.lt, row) == 1;
    let ends_word = at(t, config.is_word_continue.lt, row) == 0;
    let counter = at(t, ct.rw_counter, row);
    let next_counter = at(t, ct.rw_counter, row + 1);
    // The first row of a copy is a read, and the last one a write.
    &&& at(t, ct.is_first, row) == 1 ==> is_read
    &&& is_last ==> !is_read
    // The index within the word grows by one, and starts again after the thirty-second byte.
    &&& goes_on && is_plain && !ends_word ==> same(
        at(t, config.word_index, row + 2),
        at(t, config.word_index, row) + 1,
        p,
    )
    &&& goes_on && is_plain && ends_word ==> same(at(t, config.word_index, row), 31, p) && same(
        at(t, config.word_index, row + 2),
        0,
        p,
    )
    // The read-write counter and what it is still to grow by add up to the same.
    &&& !is_last && is_plain ==> same(
        counter + at(t, ct.rwc_inc_left, row),
        next_counter + at(t, ct.rwc_inc_left, row + 1),
        p,
    )
    // Within a word the counter goes to and fro between two memories, and else stays.
    &&& goes_on && is_plain && !ends_word ==> if at(t, config.is_memory, row) == 1 && at(
        t,
        config.is_memory,
        row + 1,
    ) == 1 {
        if is_read {
            same(next_counter, counter + 1, p)
        } else {
            same(next_counter, counter - 1, p)
        }
    } else {
        same(next_counter, counter, p)
    }
    // After a written word the counter grows by one, but for writes to code or call data.
    &&& !is_last && is_plain && ends_word && !is_read && at(t, config.is_tx_calldata, row) == at(
        t,
        config.is_bytecode,
        row,
    ) ==> same(next_counter, counter + 1, p)
    // The address grows by one, except in the front mask.
    &&& goes_on ==> same(
        at(t, ct.addr, row + 2),
        at(t, ct.addr, row) + (if at(t, config.front_mask, row) == 1 { 0int } else { 1 }),
        p,
    )
    // What is copied from where to where stays.
    &&& goes_on && is_plain ==> same(at(t, ct.id, row), at(t, ct.id, row + 2), p) && same(
        tag_of(config, t, row),
        tag_of(config, t, row + 2),
        p,
    ) && same(at(t, ct.src_addr_end, row), at(t, ct.src_addr_end, row + 2), p)
    &&& !is_last ==> same(at(t, ct.rlc_acc, row), at(t, ct.rlc_acc, row + 1), p)
}

/// What a read row says of itself, of the write row after it and of the next read row.
pub open spec fn read_on(config: CopyCircuitConfig, r: int, t: Trace, row: int, p: int) -> bool {
    let ct = config.copy_table;
    let is_last_step = at(t, config.is_last, row + 1) == 1;
    let is_pad = at(t, config.is_pad, row) == 1;
    let is_masked = at(t, config.mask, row) == 1;
    // One byte is left in the last step, and none after it.
    &&& is_last_step ==> same(at(t, ct.bytes_left, row), 1, p) && same(
        at(t, ct.real_bytes_left, row + 1),
        0,
        p,
    )
    // Each step takes one byte, and one that is not masked is one of the bytes to copy.
    &&& !is_last_step && at(t, config.is_last, row) == 0 ==> same(
        at(t, ct.real_bytes_left, row),
        at(t, ct.real_bytes_left, row + 2) + (if is_masked { 0int } else { 1 }),
        p,
    ) && same(at(t, ct.real_bytes_left, row + 1), at(t, ct.real_bytes_left, row + 2), p)
    &&& !is_last_step && at(t, config.non_pad_non_mask.lt, row) == 1 ==> same(
        at(t, ct.bytes_left, row),
        at(t, ct.bytes_left, row + 2) + 1,
        p,
    )
    // The bytes are accumulated.
    &&& same(at(t, config.value_acc, row), at(t, config.value_acc, row + 1), p)
    &&& !is_last_step && !is_pad && at(t, config.mask, row + 2) == 0 ==> same(
        at(t, config.value_acc, row + 2),
        at(t, config.value_acc, row) * r + at(t, config.value, row + 2),
        p,
    )
    // Beyond the end of the source zero is read, and only a read can be there.
    &&& is_pad && !is_masked ==> same(at(t, config.value, row), 0, p)
    &&& is_pad <==> at(t, config.addr_lt_addr_end.lt, row) == 0
    &&& same(at(t, config.is_pad, row + 1), 0, p)
}

/// The data types of a copy, by their tags, are such that its bytes are accumulated: those of a
/// precompiled contract on either side, of code written from memory or call data, and of an
/// accumulator.
pub open spec fn is_accumulating(src: int, dst: int) -> bool {
    6 <= src <= 14 || 6 <= dst <= 14 || ((src == 2 || src == 3) && dst == 1) || dst == 5
}

/// The columns for the data types and the tag are such that the bytes of the copy are accumulated.
pub open spec fn marked_accumulating(config: CopyCircuitConfig, t: Trace, row: int) -> bool {
    ||| at(t, config.is_precompiled, row) == 1
    ||| at(t, config.is_precompiled, row + 1) == 1
    ||| (at(t, config.is_memory, row) == 1 || at(t, config.is_tx_calldata, row) == 1) && at(
        t,
        config.is_bytecode,
        row + 1,
    ) == 1
    ||| tag_of(config, t, row + 1) == 5
}

/// What holds where the next row is the last of a copy: what was written is what was read, and the
/// accumulated bytes are what the copy table holds.
pub open spec fn concluded(config: CopyCircuitConfig, t: Trace, row: int, p: int) -> bool {
    at(t, config.is_last, row + 1) == 1 ==> {
        &&& same(at(t, config.rlc_acc_read, row + 1), at(t, config.rlc_acc_write, row + 1), p)
        &&& marked_accumulating(config, t, row) ==> same(
            at(t, config.value_acc, row + 1),
            at(t, config.copy_table.rlc_acc, row + 1),
            p,
        )
    }
}

/// The number that eight bytes of a row hold, the least significant first.
pub open spec fn eight_bytes(columns: Seq<AdviceColumn>, t: Trace, row: int) -> int {
    at(t, columns[0], row) + 0x100 * at(t, columns[1], row) + 0x1_0000 * at(t, columns[2], row)
        + 0x100_0000 * at(t, columns[3], row) + 0x1_0000_0000 * at(t, columns[4], row)
        + 0x100_0000_0000 * at(t, columns[5], row) + 0x1_0000_0000_0000 * at(t, columns[6], row)
        + 0x100_0000_0000_0000 * at(t, columns[7], row)
}

/// What a read row compares: its address with the end of the source, as numbers of eight bytes, its
/// index within the word with thirty-one, and the sum of its markers of padding and masks with one,
/// as bytes.
pub open spec fn compared(config: CopyCircuitConfig, t: Trace, row: int, p: int) -> bool {
    let ct = config.copy_table;
    let addr_lt = at(t, config.addr_lt_addr_end.lt, row);
    let word_lt = at(t, config.is_word_continue.lt, row);
    let plain_lt = at(t, config.non_pad_non_mask.lt, row);
    &&& is_bit(addr_lt, p)
    &&& same(
        at(t, ct.addr, row) - at(t, ct.src_addr_end, row) + 0x1_0000_0000_0000_0000 * addr_lt,
        eight_bytes(config.addr_lt_addr_end.diff@, t, row),
        p,
    )
    &&& is_bit(word_lt, p)
    &&& same(
        at(t, config.word_index, row) - 31 + 256 * word_lt,
        at(t, config.is_word_continue.diff@[0], row),
        p,
    )
    &&& is_bit(plain_lt, p)
    &&& same(
        at(t, config.is_pad, row) + at(t, config.mask, row) - 1 + 256 * plain_lt,
        at(t, config.non_pad_non_mask.diff@[0], row),
        p,
    )
}

/// The constraints on the comparisons hold exactly where a row is not a read, or is compared.
pub proof fn law_rows_are_compared(config: CopyCircuitConfig, t: Trace, row: int, p: int)
    requires
        p > 1,
        config.comparisons_fit(),
        bit((t.selector)(config.q_step, row)),
    ensures
        all_true(config.addr_compared(t, row, p)) && all_true(
            config.word_index_compared(t, row, p),
        ) && all_true(config.pad_and_mask_compared(t, row, p)) <==> ((t.selector)(
            config.q_step,
            row,
        ) == 1 ==> compared(config, t, row, p)),
{
    lemma_small_mod(0, p as nat);
    lemma_small_mod(1, p as nat);
    reveal_with_fuel(range, 9);
    reveal_with_fuel(Expr::eval, 3);
    let a = config.addr_lt_addr_end;
    let b = config.is_word_continue;
    let c = config.non_pad_non_mask;
    lemma_eight_bytes(a.diff@, t, row);
    lemma_one_byte(b.diff@, t, row);
    lemma_one_byte(c.diff@, t, row);
    lemma_commute(at(t, a.lt, row), range(8));
    lemma_commute(at(t, b.lt, row), range(1));
    lemma_commute(at(t, c.lt, row), range(1));
    let w1 = config.addr_compared(t, row, p);
    let w2 = config.word_index_compared(t, row, p);
    let w3 = config.pad_and_mask_compared(t, row, p);
    assert(all_true(w1) <==> w1[0].1 && w1[1].1);
    assert(all_true(w2) <==> w2[0].1 && w2[1].1);
    assert(all_true(w3) <==> w3[0].1 && w3[1].1);
}

/// The number that the cells of eight columns hold.
proof fn lemma_eight_bytes(columns: Seq<AdviceColumn>, t: Trace, row: int)
    requires
        columns.len() == 8,
    ensures
        bytes_value(columns, t, row) == eight_bytes(columns, t, row),
{
    reveal_with_fuel(bytes_value, 9);
    let c1 = columns.drop_first();
    let c2 = c1.drop_first();
    let c3 = c2.drop_first();
    let c4 = c3.drop_first();
    let c5 = c4.drop_first();
    let c6 = c5.drop_first();
    let c7 = c6.drop_first();
    assert(c7.drop_first().len() == 0);
}

/// The number that the cell of one column holds.
proof fn lemma_one_byte(columns: Seq<AdviceColumn>, t: Trace, row: int)
    requires
        columns.len() == 1,
    ensures
        bytes_value(columns, t, row) == at(t, columns[0], row),
{
    reveal_with_fuel(bytes_value, 2);
    assert(columns.drop_first().len() == 0);
}

/// A product in the other order.
proof fn lemma_commute(a: int, b: int)
    ensures
        a * b == b * a,
{
    assert(a * b == b * a) by (nonlinear_arith);
}

/// Where the tag holds bits, the constraints on the data types hold exactly where the row is
/// decoded.
pub proof fn law_tags_are_decoded(config: CopyCircuitConfig, t: Trace, row: int, p: int)
    requires
        p > 1,
        (t.fixed)(config.q_enable, row) == 1,
        tag_is_bits(config, t, row),
    ensures
        all_true(config.decode_tag(t, row, p)) <==> decoded(config, t, row, p),
{
    lemma_small_mod(1, p as nat);
    let tag = config.copy_table.tag;
    law_indicator(tag, 1, t, row);
    law_indicator(tag, 2, t, row);
    law_indicator(tag, 3, t, row);
    law_indicator(tag, 4, t, row);
    law_indicator(tag, 6, t, row);
    law_indicator(tag, 7, t, row);
    law_indicator(tag, 8, t, row);
    law_indicator(tag, 9, t, row);
    law_indicator(tag, 10, t, row);
    law_indicator(tag, 11, t, row);
    law_indicator(tag, 12, t, row);
    law_indicator(tag, 13, t, row);
    law_indicator(tag, 14, t, row);
    let n = tag_of(config, t, row);
    assert(tag.number(t, row) == n);
    assert(config.tagged_precompile(t, row) == (if 6 <= n <= 14 {
        1int
    } else {
        0
    }));
    let table = config.decode_tag(t, row, p);
    if all_true(table) {
        assert(table[0].1 && table[1].1 && table[2].1 && table[3].1 && table[4].1);
    }
}

/// On an enabled row the markers of the first and the last row and of the masks are bits.
pub proof fn law_markers_are_bits(
    config: CopyCircuitConfig,
    challenge: Expr,
    t: Trace,
    row: int,
    p: int,
)
    requires
        p > 1,
        (t.fixed)(config.q_enable, row) == 1,
        config.satisfied(challenge, t, row, p),
    ensures
        is_bit(at(t, config.copy_table.is_first, row), p),
        is_bit(at(t, config.is_last, row), p),
        is_bit(at(t, config.mask, row), p),
        is_bit(at(t, config.front_mask, row), p),
{
    lemma_small_mod(1, p as nat);
    assert(all_true(config.statements(challenge, t, row, p)[4]));
    let table = config.verify_row(t, row, p);
    assert(table[0].1 && table[1].1 && table[2].1 && table[3].1);
}

/// The statement on the growth of the read-write counter within a word, with the markers as bits.
proof fn lemma_counter(config: CopyCircuitConfig, t: Trace, row: int, p: int)
    requires
        p > 1,
        markers_are_bits(config, t, row),
    ensures
        ({
            let both = at(t, config.is_memory, row) * at(t, config.is_memory, row + 1);
            let step = (t.selector)(config.q_step, row);
            let counter = at(t, config.copy_table.rw_counter, row);
            let next = at(t, config.copy_table.rw_counter, row + 1);
            same(counter + both * (2 * step - 1), next, p) <==> if at(t, config.is_memory, row)
                == 1 && at(t, config.is_memory, row + 1) == 1 {
                if step == 1 {
                    same(next, counter + 1, p)
                } else {
                    same(next, counter - 1, p)
                }
            } else {
                same(next, counter, p)
            }
        }),
{
    let a = at(t, config.is_memory, row);
    let b = at(t, config.is_memory, row + 1);
    let step = (t.selector)(config.q_step, row);
    let counter = at(t, config.copy_table.rw_counter, row);
    let next = at(t, config.copy_table.rw_counter, row + 1);
    let diff = if a == 1 && b == 1 {
        if step == 1 {
            1int
        } else {
            -1
        }
    } else {
        0
    };
    assert((a * b) * (2 * step - 1) == diff) by (nonlinear_arith)
        requires
            a == 0 || a == 1,
            b == 0 || b == 1,
            step == 0 || step == 1,
            diff == (if a == 1 && b == 1 {
                if step == 1 {
                    1int
                } else {
                    -1
                }
            } else {
                0
            }),
    ;
    lemma_same_iff(counter + diff, next, p);
}

/// Congruence goes both ways.
proof fn lemma_same_iff(a: int, b: int, p: int)
    requires
        p > 1,
    ensures
        same(a, b, p) <==> same(b, a, p),
{
    if same(a, b, p) {
        lemma_same_symmetric(a, b, p);
    }
    if same(b, a, p) {
        lemma_same_symmetric(b, a, p);
    }
}

/// On an enabled row whose markers are bits, the constraints on rows hold exactly where the copy is
/// carried on.
#[verifier::rlimit(80)]
pub proof fn law_rows_are_carried_on(config: CopyCircuitConfig, t: Trace, row: int, p: int)
    requires
        p > 1,
        (t.fixed)(config.q_enable, row) == 1,
        markers_are_bits(config, t, row),
    ensures
        all_true(config.verify_row(t, row, p)) <==> carried_on(config, t, row, p),
{
    let ct = config.copy_table;
    lemma_small_mod(0, p as nat);
    lemma_small_mod(1, p as nat);
    lemma_same_small(-1, 0, p);
    lemma_counter(config, t, row, p);
    lemma_same_iff(at(t, config.word_index, row) + 1, at(t, config.word_index, row + 2), p);
    lemma_same_iff(at(t, ct.rw_counter, row) + 1, at(t, ct.rw_counter, row + 1), p);
    lemma_same_iff(
        at(t, ct.addr, row) + (1 - at(t, config.front_mask, row)),
        at(t, ct.addr, row + 2),
        p,
    );
    assert(ct.tag.number(t, row) == tag_of(config, t, row));
    assert(ct.tag.number(t, row + 2) == tag_of(config, t, row + 2));
    let table = config.verify_row(t, row, p);
    if all_true(table) {
        assert(table[4].1 && table[5].1 && table[6].1 && table[7].1 && table[8].1);
        assert(table[9].1 && table[10].1 && table[11].1 && table[12].1);
        assert(table[13].1 && table[14].1 && table[15].1 && table[16].1);
    }
    if carried_on(config, t, row, p) {
        assert(table[0].1 && table[1].1 && table[2].1 && table[3].1);
        assert(table[4].1 && table[5].1 && table[6].1 && table[7].1 && table[8].1);
        assert(table[9].1 && table[10].1 && table[11].1 && table[12].1);
        assert(table[13].1 && table[14].1 && table[15].1 && table[16].1);
    }
}

/// On an enabled row whose markers are bits, the constraints on steps hold exactly where it is not
/// a read, or the copy is read on.
#[verifier::rlimit(60)]
pub proof fn law_steps_are_read_on(
    config: CopyCircuitConfig,
    challenge: Expr,
    t: Trace,
    row: int,
    p: int,
)
    requires
        p > 1,
        (t.fixed)(config.q_enable, row) == 1,
        markers_are_bits(config, t, row),
    ensures
        all_true(config.verify_step(challenge, t, row, p)) <==> ((t.selector)(config.q_step, row)
            == 1 ==> read_on(config, challenge.eval(t, row), t, row, p)),
{
    let ct = config.copy_table;
    lemma_small_mod(0, p as nat);
    lemma_small_mod(1, p as nat);
    lemma_same_iff(1, at(t, ct.bytes_left, row), p);
    let lt = at(t, config.addr_lt_addr_end.lt, row);
    let is_pad = at(t, config.is_pad, row);
    assert(same(1 - lt, is_pad, p) <==> 1 - lt == is_pad) by {
        lemma_same_small(1 - lt, is_pad, p);
    }
    let table = config.verify_step(challenge, t, row, p);
    if all_true(table) {
        assert(table[0].1 && table[1].1 && table[2].1 && table[3].1 && table[4].1);
        assert(table[5].1 && table[6].1 && table[7].1 && table[8].1 && table[9].1);
    }
}

/// On an enabled row whose markers are bits, the constraints on the last step hold exactly where
/// the copy is concluded.
pub proof fn law_copies_are_concluded(config: CopyCircuitConfig, t: Trace, row: int, p: int)
    requires
        p > 1,
        (t.fixed)(config.q_enable, row) == 1,
        markers_are_bits(config, t, row),
    ensures
        all_true(config.last_value_acc(config.precompile_case(t, row), t, row, p)) && all_true(
            config.last_value_acc(config.memory_to_bytecode_case(t, row), t, row, p),
        ) && all_true(
            config.last_value_acc(config.tx_calldata_to_bytecode_case(t, row), t, row, p),
        ) && all_true(config.last_value_acc(config.rlc_acc_case(t, row), t, row, p)) && all_true(
            config.last_rlc(t, row, p),
        ) <==> concluded(config, t, row, p),
{
    lemma_small_mod(0, p as nat);
    lemma_small_mod(1, p as nat);
    law_indicator(config.copy_table.tag, 5, t, row + 1);
    assert(config.copy_table.tag.number(t, row + 1) == tag_of(config, t, row + 1));
    let a = at(t, config.is_precompiled, row);
    let b = at(t, config.is_precompiled, row + 1);
    let m = at(t, config.is_memory, row);
    let d = at(t, config.is_tx_calldata, row);
    let c = at(t, config.is_bytecode, row + 1);
    assert(1 - (1 - a) * (1 - b) == (if a == 1 || b == 1 {
        1int
    } else {
        0
    })) by (nonlinear_arith)
        requires
            a == 0 || a == 1,
            b == 0 || b == 1,
    ;
    assert(m * c == (if m == 1 && c == 1 {
        1int
    } else {
        0
    })) by (nonlinear_arith)
        requires
            m == 0 || m == 1,
            c == 0 || c == 1,
    ;
    assert(d * c == (if d == 1 && c == 1 {
        1int
    } else {
        0
    })) by (nonlinear_arith)
        requires
            d == 0 || d == 1,
            c == 0 || c == 1,
    ;
    let w1 = config.last_value_acc(config.precompile_case(t, row), t, row, p);
    let w2 = config.last_value_acc(config.memory_to_bytecode_case(t, row), t, row, p);
    let w3 = config.last_value_acc(config.tx_calldata_to_bytecode_case(t, row), t, row, p);
    let w4 = config.last_value_acc(config.rlc_acc_case(t, row), t, row, p);
    let w5 = config.last_rlc(t, row, p);
    assert(all_true(w1) <==> w1[0].1);
    assert(all_true(w2) <==> w2[0].1);
    assert(all_true(w3) <==> w3[0].1);
    assert(all_true(w4) <==> w4[0].1);
    assert(all_true(w5) <==> w5[0].1);
}

/// On an enabled row whose markers are bits, the constraints hold exactly where its tag is decoded
/// and it is a row of a copy: carried on, compared and read on where it is a read, and concluded
/// where the next row is the last.
pub proof fn law_constraints_hold_exactly_on_copies(
    config: CopyCircuitConfig,
    challenge: Expr,
    t: Trace,
    row: int,
    p: int,
)
    requires
        p > 1,
        config.comparisons_fit(),
        (t.fixed)(config.q_enable, row) == 1,
        markers_are_bits(config, t, row),
    ensures
        config.satisfied(challenge, t, row, p) <==> {
            &&& (t.selector)(config.q_step, row) == 1 ==> compared(config, t, row, p)
            &&& decoded(config, t, row, p)
            &&& carried_on(config, t, row, p)
            &&& concluded(config, t, row, p)
            &&& (t.selector)(config.q_step, row) == 1 ==> read_on(
                config,
                challenge.eval(t, row),
                t,
                row,
                p,
            )
        },
{
    law_rows_are_compared(config, t, row, p);
    law_tags_are_decoded(config, t, row, p);
    law_rows_are_carried_on(config, t, row, p);
    law_copies_are_concluded(config, t, row, p);
    law_steps_are_read_on(config, challenge, t, row, p);
    lemma_satisfied(config, challenge, t, row, p);
}

/// All constraints hold where those of each of the gates do.
proof fn lemma_satisfied(
    config: CopyCircuitConfig,
    challenge: Expr,
    t: Trace,
    row: int,
    p: int,
)
    ensures
        config.satisfied(challenge, t, row, p) <==> {
            &&& all_true(config.addr_compared(t, row, p))
            &&& all_true(config.word_index_compared(t, row, p))
            &&& all_true(config.pad_and_mask_compared(t, row, p))
            &&& all_true(config.decode_tag(t, row, p))
            &&& all_true(config.verify_row(t, row, p))
            &&& all_true(config.last_value_acc(config.precompile_case(t, row), t, row, p))
            &&& all_true(config.last_value_acc(config.memory_to_bytecode_case(t, row), t, row, p))
            &&& all_true(
                config.last_value_acc(config.tx_calldata_to_bytecode_case(t, row), t, row, p),
            )
            &&& all_true(config.last_value_acc(config.rlc_acc_case(t, row), t, row, p))
            &&& all_true(config.last_rlc(t, row, p))
            &&& all_true(config.verify_step(challenge, t, row, p))
        },
{
    let s = config.statements(challenge, t, row, p);
    if config.satisfied(challenge, t, row, p) {
        assert(all_true(s[0]) && all_true(s[1]) && all_true(s[2]) && all_true(s[3]));
        assert(all_true(s[4]) && all_true(s[5]) && all_true(s[6]) && all_true(s[7]));
        assert(all_true(s[8]) && all_true(s[9]) && all_true(s[10]));
    }
}

/// On a row that is not enabled only the comparisons are constrained, and where it is not a step
/// either it may hold anything.
pub proof fn law_rows_that_are_not_enabled_are_free(
    config: CopyCircuitConfig,
    challenge: Expr,
    t: Trace,
    row: int,
    p: int,
)
    requires
        p > 1,
        config.comparisons_fit(),
        (t.fixed)(config.q_enable, row) == 0,
        bit((t.selector)(config.q_step, row)),
    ensures
        config.satisfied(challenge, t, row, p) <==> ((t.selector)(config.q_step, row) == 1
            ==> compared(config, t, row, p)),
{
    lemma_small_mod(0, p as nat);
    assert(!config.enabled(t, row, p));
    lemma_satisfied(config, challenge, t, row, p);
    law_rows_are_compared(config, t, row, p);
}

/// The inputs of a lookup are found together in a row of the table, modulo `p`.
pub open spec fn found(lookup: Lookup, t: Trace, row: int, p: int) -> bool {
    exists|place: int| #[trigger] found_at(lookup, t, row, place, p)
}

/// The inputs of a lookup are what the table holds in a row, modulo `p`.
pub open spec fn found_at(lookup: Lookup, t: Trace, row: int, place: int, p: int) -> bool {
    forall|k: int|
        0 <= k < lookup.pairs.len() ==> same(
            (#[trigger] lookup.pairs[k]).0.eval(t, row),
            lookup.pairs[k].1.eval(t, place),
            p,
        )
}

/// A table has a row that begins with some values, modulo `p`, as far as the table has columns.
pub open spec fn table_has(table: Seq<Expr>, values: Seq<int>, t: Trace, p: int) -> bool {
    exists|place: int| #[trigger] table_has_at(table, values, t, place, p)
}

/// A table begins with some values in a row, modulo `p`, as far as it has columns.
pub open spec fn table_has_at(
    table: Seq<Expr>,
    values: Seq<int>,
    t: Trace,
    place: int,
    p: int,
) -> bool {
    forall|k: int|
        0 <= k < table.len() && k < values.len() ==> same(
            (#[trigger] table[k]).eval(t, place),
            values[k],
            p,
        )
}

/// A lookup asks on a row for some values, modulo `p`, in the first columns of a table.
pub open spec fn asks_for(
    lookup: Lookup,
    table: Seq<Expr>,
    values: Seq<int>,
    t: Trace,
    row: int,
    p: int,
) -> bool {
    &&& lookup.pairs.len() <= table.len()
    &&& lookup.pairs.len() <= values.len()
    &&& lookup.pairs.len() == table.len() || lookup.pairs.len() == values.len()
    &&& forall|k: int|
        0 <= k < lookup.pairs.len() ==> (#[trigger] lookup.pairs[k]).1 == table[k] && same(
            lookup.pairs[k].0.eval(t, row),
            values[k],
            p,
        )
}

/// Nothing: as many zeros as there would be values.
pub open spec fn nothing(n: nat) -> Seq<int> {
    Seq::new(n, |k: int| 0)
}

/// What is found where a lookup asks for values: the table has them.
pub proof fn law_what_is_found_is_in_the_table(
    lookup: Lookup,
    table: Seq<Expr>,
    values: Seq<int>,
    t: Trace,
    row: int,
    p: int,
)
    requires
        p > 1,
        asks_for(lookup, table, values, t, row, p),
    ensures
        found(lookup, t, row, p) <==> table_has(table, values, t, p),
{
    if found(lookup, t, row, p) {
        let place = choose|place: int| #[trigger] found_at(lookup, t, row, place, p);
        assert forall|k: int| 0 <= k < table.len() && k < values.len() implies same(
            (#[trigger] table[k]).eval(t, place),
            values[k],
            p,
        ) by {
            let pair = lookup.pairs[k];
            lemma_same_iff(pair.0.eval(t, row), pair.1.eval(t, place), p);
            lemma_same_transitive(pair.1.eval(t, place), pair.0.eval(t, row), values[k], p);
        }
        assert(table_has_at(table, values, t, place, p));
    }
    if table_has(table, values, t, p) {
        let place = choose|place: int| #[trigger] table_has_at(table, values, t, place, p);
        assert forall|k: int| 0 <= k < lookup.pairs.len() implies same(
            (#[trigger] lookup.pairs[k]).0.eval(t, row),
            lookup.pairs[k].1.eval(t, place),
            p,
        ) by {
            assert(lookup.pairs[k].1 == table[k]);
            lemma_same_iff(table[k].eval(t, place), values[k], p);
            lemma_same_transitive(
                lookup.pairs[k].0.eval(t, row),
                values[k],
                table[k].eval(t, place),
                p,
            );
        }
        assert(found_at(lookup, t, row, place, p));
    }
}

/// A lookup with a factor asks for its inputs where the factor is one, and for nothing where it is
/// zero.
proof fn lemma_asks(
    lookup: Lookup,
    table: Seq<Expr>,
    on: int,
    inputs: Seq<int>,
    t: Trace,
    row: int,
    p: int,
)
    requires
        p > 1,
        looks_up(lookup.pairs, t, row, on, inputs, table),
    ensures
        same(on, 1, p) ==> asks_for(lookup, table, inputs, t, row, p),
        same(on, 0, p) ==> asks_for(lookup, table, nothing(inputs.len()), t, row, p),
{
    assert forall|k: int| 0 <= k < lookup.pairs.len() && same(on, 1, p) implies same(
        (#[trigger] lookup.pairs[k]).0.eval(t, row),
        inputs[k],
        p,
    ) by {
        lemma_same_multiple(on, 1, inputs[k], p);
    }
    assert forall|k: int| 0 <= k < lookup.pairs.len() && same(on, 0, p) implies same(
        (#[trigger] lookup.pairs[k]).0.eval(t, row),
        nothing(inputs.len())[k],
        p,
    ) by {
        lemma_same_multiple(on, 0, inputs[k], p);
    }
}

/// A product of three factors is one where they are, and zero where one of them is.
proof fn lemma_factor(a: int, b: int, c: int, p: int)
    requires
        p > 1,
    ensures
        same(a, 1, p) && same(b, 1, p) && same(c, 1, p) ==> same(a * b * c, 1, p),
        same(a, 0, p) || same(b, 0, p) || same(c, 0, p) ==> same(a * b * c, 0, p),
{
    if same(a, 1, p) && same(b, 1, p) && same(c, 1, p) {
        lemma_same_multiple(a, 1, b, p);
        lemma_same_transitive(a * b, b, 1, p);
        lemma_same_multiple(a * b, 1, c, p);
        lemma_same_transitive(a * b * c, c, 1, p);
    }
    if same(a, 0, p) || same(b, 0, p) {
        lemma_product_with_zero(a, b, p);
        lemma_product_with_zero(a * b, c, p);
    }
    if same(c, 0, p) {
        lemma_product_with_zero(a * b, c, p);
    }
}

/// One minus a number is one where the number is zero, and zero where it is one.
proof fn lemma_complement(a: int, p: int)
    requires
        p > 1,
    ensures
        same(a, 0, p) ==> same(1 - a, 1, p),
        same(a, 1, p) ==> same(1 - a, 0, p),
{
    lemma_same_iff(a, 0, p);
    lemma_same_iff(a, 1, p);
}

/// The row of the table of reads and writes that a memory word stands in: a read where the row is
/// a step and a write elsewhere, at the address of the first byte of the word.
pub open spec fn memory_word(config: CopyCircuitConfig, t: Trace, row: int) -> Seq<int> {
    seq![
        1,
        at(t, config.copy_table.rw_counter, row),
        1 - (t.selector)(config.q_step, row),
        config.rw_table.memory_tag as int,
        at(t, config.copy_table.id, row),
        at(t, config.copy_table.addr, row) - 31,
        0,
        0,
        at(t, config.value_word_rlc, row),
        at(t, config.value_word_rlc_prev, row),
        0,
        0,
    ]
}

/// The row of the table of reads and writes that a word of a log stands in: always a write.
pub open spec fn log_word(config: CopyCircuitConfig, t: Trace, row: int) -> Seq<int> {
    seq![
        1,
        at(t, config.copy_table.rw_counter, row),
        1,
        config.rw_table.tx_log_tag as int,
        at(t, config.copy_table.id, row),
        at(t, config.copy_table.addr, row) - 31,
        0,
        0,
        at(t, config.value_word_rlc, row),
        0,
        0,
        0,
    ]
}

/// The row of the bytecode table that a byte of code stands in.
pub open spec fn code_byte(config: CopyCircuitConfig, t: Trace, row: int) -> Seq<int> {
    seq![
        1,
        at(t, config.copy_table.id, row),
        config.bytecode_table.byte_tag as int,
        at(t, config.copy_table.addr, row),
        at(t, config.is_code, row),
        at(t, config.value, row),
    ]
}

/// The row of the table of transactions that a byte of call data stands in.
pub open spec fn call_data_byte(config: CopyCircuitConfig, t: Trace, row: int) -> Seq<int> {
    seq![
        1,
        at(t, config.copy_table.id, row),
        config.tx_table.call_data_tag as int,
        at(t, config.copy_table.addr, row),
        at(t, config.value, row),
    ]
}

/// The memory word of a row is asked for exactly where the row is enabled, is of memory, and ends a
/// word: whether it is a read or a write, masked or padding, or the last of the copy does not
/// matter.
pub proof fn law_memory_words_are_asked_for(
    config: CopyCircuitConfig,
    u8_table: FixedColumn,
    declared: Seq<Lookup>,
    t: Trace,
    row: int,
    p: int,
)
    requires
        p > 1,
        config.declares_lookups(u8_table, declared),
    ensures
        ({
            let enable = (t.fixed)(config.q_enable, row);
            let is_memory = at(t, config.is_memory, row);
            let goes_on = at(t, config.is_word_continue.lt, row);
            let table = config.rw_table.table_exprs@;
            &&& same(enable, 1, p) && same(is_memory, 1, p) && same(goes_on, 0, p) ==> asks_for(
                declared[10],
                table,
                memory_word(config, t, row),
                t,
                row,
                p,
            )
            &&& same(enable, 0, p) || same(is_memory, 0, p) || same(goes_on, 1, p) ==> asks_for(
                declared[10],
                table,
                nothing(12),
                t,
                row,
                p,
            )
        }),
{
    let goes_on = at(t, config.is_word_continue.lt, row);
    let table = config.rw_table.table_exprs@;
    let on = config.memory_lookup_on(t, row);
    let inputs = config.memory_lookup(t, row);
    lemma_complement(goes_on, p);
    lemma_factor(
        (t.fixed)(config.q_enable, row),
        at(t, config.is_memory, row),
        1 - goes_on,
        p,
    );
    assert(looks_up(declared[10].pairs, t, row, on, inputs, table));
    lemma_asks(declared[10], table, on, inputs, t, row, p);
    assert(inputs =~= memory_word(config, t, row));
}

/// The word of a log of a row is asked for exactly where the row is enabled, is of a log, and ends
/// a word.
pub proof fn law_log_words_are_asked_for(
    config: CopyCircuitConfig,
    u8_table: FixedColumn,
    declared: Seq<Lookup>,
    t: Trace,
    row: int,
    p: int,
)
    requires
        p > 1,
        config.declares_lookups(u8_table, declared),
    ensures
        ({
            let enable = (t.fixed)(config.q_enable, row);
            let is_tx_log = at(t, config.is_tx_log, row);
            let goes_on = at(t, config.is_word_continue.lt, row);
            let table = config.rw_table.table_exprs@;
            &&& same(enable, 1, p) && same(is_tx_log, 1, p) && same(goes_on, 0, p) ==> asks_for(
                declared[11],
                table,
                log_word(config, t, row),
                t,
                row,
                p,
            )
            &&& same(enable, 0, p) || same(is_tx_log, 0, p) || same(goes_on, 1, p) ==> asks_for(
                declared[11],
                table,
                nothing(12),
                t,
                row,
                p,
            )
        }),
{
    let goes_on = at(t, config.is_word_continue.lt, row);
    let table = config.rw_table.table_exprs@;
    let on = config.tx_log_lookup_on(t, row);
    let inputs = config.tx_log_lookup(t, row);
    lemma_complement(goes_on, p);
    lemma_factor(
        (t.fixed)(config.q_enable, row),
        at(t, config.is_tx_log, row),
        1 - goes_on,
        p,
    );
    assert(looks_up(declared[11].pairs, t, row, on, inputs, table));
    lemma_asks(declared[11], table, on, inputs, t, row, p);
    assert(inputs =~= log_word(config, t, row));
}

/// The byte of code of a row is asked for exactly where the row is enabled, is of bytecode, and is
/// neither padding nor masked: whether it is read or written does not matter.
pub proof fn law_code_bytes_are_asked_for(
    config: CopyCircuitConfig,
    u8_table: FixedColumn,
    declared: Seq<Lookup>,
    t: Trace,
    row: int,
    p: int,
)
    requires
        p > 1,
        config.declares_lookups(u8_table, declared),
    ensures
        ({
            let enable = (t.fixed)(config.q_enable, row);
            let is_bytecode = at(t, config.is_bytecode, row);
            let is_plain = at(t, config.non_pad_non_mask.lt, row);
            let table = config.bytecode_table.table_exprs@;
            &&& same(enable, 1, p) && same(is_bytecode, 1, p) && same(is_plain, 1, p) ==> asks_for(
                declared[12],
                table,
                code_byte(config, t, row),
                t,
                row,
                p,
            )
            &&& same(enable, 0, p) || same(is_bytecode, 0, p) || same(is_plain, 0, p) ==> asks_for(
                declared[12],
                table,
                nothing(6),
                t,
                row,
                p,
            )
        }),
{
    let table = config.bytecode_table.table_exprs@;
    let on = config.bytecode_lookup_on(t, row);
    let inputs = config.bytecode_lookup(t, row);
    lemma_factor(
        (t.fixed)(config.q_enable, row),
        at(t, config.is_bytecode, row),
        at(t, config.non_pad_non_mask.lt, row),
        p,
    );
    assert(looks_up(declared[12].pairs, t, row, on, inputs, table));
    lemma_asks(declared[12], table, on, inputs, t, row, p);
    assert(inputs =~= code_byte(config, t, row));
}

/// The byte of call data of a row is asked for exactly where the row is enabled, is of call data,
/// and is neither padding nor masked: whether it is read or written does not matter.
pub proof fn law_call_data_bytes_are_asked_for(
    config: CopyCircuitConfig,
    u8_table: FixedColumn,
    declared: Seq<Lookup>,
    t: Trace,
    row: int,
    p: int,
)
    requires
        p > 1,
        config.declares_lookups(u8_table, declared),
    ensures
        ({
            let enable = (t.fixed)(config.q_enable, row);
            let is_tx_calldata = at(t, config.is_tx_calldata, row);
            let is_plain = at(t, config.non_pad_non_mask.lt, row);
            let table = config.tx_table.table_exprs@;
            &&& same(enable, 1, p) && same(is_tx_calldata, 1, p) && same(is_plain, 1, p)
                ==> asks_for(declared[13], table, call_data_byte(config, t, row), t, row, p)
            &&& same(enable, 0, p) || same(is_tx_calldata, 0, p) || same(is_plain, 0, p)
                ==> asks_for(declared[13], table, nothing(5), t, row, p)
        }),
{
    let table = config.tx_table.table_exprs@;
    let on = config.tx_calldata_lookup_on(t, row);
    let inputs = config.tx_calldata_lookup(t, row);
    lemma_factor(
        (t.fixed)(config.q_enable, row),
        at(t, config.is_tx_calldata, row),
        at(t, config.non_pad_non_mask.lt, row),
        p,
    );
    assert(looks_up(declared[13].pairs, t, row, on, inputs, table));
    lemma_asks(declared[13], table, on, inputs, t, row, p);
    assert(inputs =~= call_data_byte(config, t, row));
}

/// On an enabled row whose constraints hold, the tag alone tells what is asked for: on a row that
/// ends a word the word of memory (two) or of a log (four), and on a row that is neither padding
/// nor masked the byte of code (one) or of call data (three).
pub proof fn law_tags_tell_what_is_asked_for(
    config: CopyCircuitConfig,
    challenge: Expr,
    u8_table: FixedColumn,
    declared: Seq<Lookup>,
    t: Trace,
    row: int,
    p: int,
)
    requires
        p > 1,
        config.declares_lookups(u8_table, declared),
        (t.fixed)(config.q_enable, row) == 1,
        tag_is_bits(config, t, row),
        config.satisfied(challenge, t, row, p),
        bit(at(t, config.is_word_continue.lt, row)),
        bit(at(t, config.non_pad_non_mask.lt, row)),
    ensures
        ({
            let tag = tag_of(config, t, row);
            let ends_word = at(t, config.is_word_continue.lt, row) == 0;
            let is_plain = at(t, config.non_pad_non_mask.lt, row) == 1;
            let rw = config.rw_table.table_exprs@;
            let code = config.bytecode_table.table_exprs@;
            let tx = config.tx_table.table_exprs@;
            &&& asks_for(
                declared[10],
                rw,
                if tag == 2 && ends_word {
                    memory_word(config, t, row)
                } else {
                    nothing(12)
                },
                t,
                row,
                p,
            )
            &&& asks_for(
                declared[11],
                rw,
                if tag == 4 && ends_word {
                    log_word(config, t, row)
                } else {
                    nothing(12)
                },
                t,
                row,
                p,
            )
            &&& asks_for(
                declared[12],
                code,
                if tag == 1 && is_plain {
                    code_byte(config, t, row)
                } else {
                    nothing(6)
                },
                t,
                row,
                p,
            )
            &&& asks_for(
                declared[13],
                tx,
                if tag == 3 && is_plain {
                    call_data_byte(config, t, row)
                } else {
                    nothing(5)
                },
                t,
                row,
                p,
            )
        }),
{
    lemma_same_reflexive(0, p);
    lemma_same_reflexive(1, p);
    lemma_satisfied(config, challenge, t, row, p);
    law_tags_are_decoded(config, t, row, p);
    law_memory_words_are_asked_for(config, u8_table, declared, t, row, p);
    law_log_words_are_asked_for(config, u8_table, declared, t, row, p);
    law_code_bytes_are_asked_for(config, u8_table, declared, t, row, p);
    law_call_data_bytes_are_asked_for(config, u8_table, declared, t, row, p);
}

/// On an enabled row whose constraints and lookups hold, what is copied is in the tables: on a row
/// that ends a word the word of memory (two) or of a log (four), whether it is read or written,
/// masked or padding, or the last of the copy; and on a row that is neither padding nor masked the
/// byte of code (one) or of call data (three), whether it is read or written.
pub proof fn law_what_is_copied_is_in_the_tables(
    config: CopyCircuitConfig,
    challenge: Expr,
    u8_table: FixedColumn,
    declared: Seq<Lookup>,
    t: Trace,
    row: int,
    p: int,
)
    requires
        p > 1,
        config.declares_lookups(u8_table, declared),
        (t.fixed)(config.q_enable, row) == 1,
        tag_is_bits(config, t, row),
        config.satisfied(challenge, t, row, p),
        bit(at(t, config.is_word_continue.lt, row)),
        bit(at(t, config.non_pad_non_mask.lt, row)),
        found(declared[10], t, row, p),
        found(declared[11], t, row, p),
        found(declared[12], t, row, p),
        found(declared[13], t, row, p),
    ensures
        ({
            let tag = tag_of(config, t, row);
            let ends_word = at(t, config.is_word_continue.lt, row) == 0;
            let is_plain = at(t, config.non_pad_non_mask.lt, row) == 1;
            let rw = config.rw_table.table_exprs@;
            let code = config.bytecode_table.table_exprs@;
            let tx = config.tx_table.table_exprs@;
            &&& tag == 1 && is_plain ==> table_has(code, code_byte(config, t, row), t, p)
            &&& tag == 2 && ends_word ==> table_has(rw, memory_word(config, t, row), t, p)
            &&& tag == 3 && is_plain ==> table_has(tx, call_data_byte(config, t, row), t, p)
            &&& tag == 4 && ends_word ==> table_has(rw, log_word(config, t, row), t, p)
        }),
{
    let tag = tag_of(config, t, row);
    let ends_word = at(t, config.is_word_continue.lt, row) == 0;
    let is_plain = at(t, config.non_pad_non_mask.lt, row) == 1;
    law_tags_tell_what_is_asked_for(config, challenge, u8_table, declared, t, row, p);
    if tag == 1 && is_plain {
        let table = config.bytecode_table.table_exprs@;
        let values = code_byte(config, t, row);
        law_what_is_found_is_in_the_table(declared[12], table, values, t, row, p);
    } else if tag == 2 && ends_word {
        let table = config.rw_table.table_exprs@;
        let values = memory_word(config, t, row);
        law_what_is_found_is_in_the_table(declared[10], table, values, t, row, p);
    } else if tag == 3 && is_plain {
        let table = config.tx_table.table_exprs@;
        let values = call_data_byte(config, t, row);
        law_what_is_found_is_in_the_table(declared[13], table, values, t, row, p);
    } else if tag == 4 && ends_word {
        let table = config.rw_table.table_exprs@;
        let values = log_word(config, t, row);
        law_what_is_found_is_in_the_table(declared[11], table, values, t, row, p);
    }
}

/// On an enabled read row of memory or of a log whose index within the word is thirty-one, and
/// whose constraints and lookups hold, the table of reads and writes has the word, whatever the
/// markers of padding and masks are.
pub proof fn law_words_that_are_read_are_in_the_table(
    config: CopyCircuitConfig,
    challenge: Expr,
    u8_table: FixedColumn,
    declared: Seq<Lookup>,
    t: Trace,
    row: int,
    p: int,
)
    requires
        p > 512,
        config.comparisons_fit(),
        config.declares_lookups(u8_table, declared),
        (t.fixed)(config.q_enable, row) == 1,
        (t.selector)(config.q_step, row) == 1,
        tag_is_bits(config, t, row),
        config.satisfied(challenge, t, row, p),
        in_range(config.is_word_continue, t, row, p),
        at(t, config.word_index, row) == 31,
        found(declared[10], t, row, p),
        found(declared[11], t, row, p),
    ensures
        tag_of(config, t, row) == 2 ==> table_has(
            config.rw_table.table_exprs@,
            memory_word(config, t, row),
            t,
            p,
        ),
        tag_of(config, t, row) == 4 ==> table_has(
            config.rw_table.table_exprs@,
            log_word(config, t, row),
            t,
            p,
        ),
{
    let table = config.rw_table.table_exprs@;
    reveal_with_fuel(range, 2);
    law_words_continue_before_the_last_byte(config, challenge, t, row, p);
    lemma_same_reflexive(0, p);
    lemma_same_reflexive(1, p);
    lemma_satisfied(config, challenge, t, row, p);
    law_tags_are_decoded(config, t, row, p);
    law_memory_words_are_asked_for(config, u8_table, declared, t, row, p);
    law_log_words_are_asked_for(config, u8_table, declared, t, row, p);
    if tag_of(config, t, row) == 2 {
        let values = memory_word(config, t, row);
        law_what_is_found_is_in_the_table(declared[10], table, values, t, row, p);
    }
    if tag_of(config, t, row) == 4 {
        let values = log_word(config, t, row);
        law_what_is_found_is_in_the_table(declared[11], table, values, t, row, p);
    }
}

/// Once the circuit is filled, the thirty-second row of each word of a copy, read or written, asks
/// for the word where it is of memory or of a log, whatever its markers of padding and masks are;
/// and each row without these markers asks for its byte where it is of code or of call data.
pub proof fn law_filled_rows_ask_for_what_is_copied(
    config: CopyCircuitConfig,
    u8_table: FixedColumn,
    declared: Seq<Lookup>,
    t: Trace,
    events: Seq<CopyEvent>,
    rows: Seq<Vec<CopyRow>>,
    max_copy_rows: int,
    k: int,
    i: int,
    p: int,
)
    requires
        p > 1,
        config.declares_lookups(u8_table, declared),
        rows_of_events(events, rows),
        copy_rows(events) + 2 <= max_copy_rows,
        config.filled(t, events, rows, max_copy_rows),
        0 <= k < events.len(),
        0 <= i < rows[k]@.len(),
        0 <= copy_rows(events.take(k)) + i < max_copy_rows - 2,
    ensures
        ({
            let row = copy_rows(events.take(k)) + i;
            let tag = rows[k]@[i].tag;
            let ends_word = (i / 2) % 32 == 31;
            let is_plain = known(rows[k]@[i].circuit.is_pad) == 0 && known(
                rows[k]@[i].circuit.mask,
            ) == 0;
            &&& tag == CopyDataType::Memory && ends_word ==> asks_for(
                declared[10],
                config.rw_table.table_exprs@,
                memory_word(config, t, row),
                t,
                row,
                p,
            )
            &&& tag == CopyDataType::TxLog && ends_word ==> asks_for(
                declared[11],
                config.rw_table.table_exprs@,
                log_word(config, t, row),
                t,
                row,
                p,
            )
            &&& tag == CopyDataType::Bytecode && is_plain ==> asks_for(
                declared[12],
                config.bytecode_table.table_exprs@,
                code_byte(config, t, row),
                t,
                row,
                p,
            )
            &&& tag == CopyDataType::TxCalldata && is_plain ==> asks_for(
                declared[13],
                config.tx_table.table_exprs@,
                call_data_byte(config, t, row),
                t,
                row,
                p,
            )
        }),
{
    let row = copy_rows(events.take(k)) + i;
    lemma_small_mod(0, modulus());
    lemma_same_reflexive(0, p);
    lemma_same_reflexive(1, p);
    law_copy_rows(config, t, events, rows, max_copy_rows, k, i);
    law_enabled_rows(config, t, events, rows, max_copy_rows, row);
    law_memory_words_are_asked_for(config, u8_table, declared, t, row, p);
    law_log_words_are_asked_for(config, u8_table, declared, t, row, p);
    law_code_bytes_are_asked_for(config, u8_table, declared, t, row, p);
    law_call_data_bytes_are_asked_for(config, u8_table, declared, t, row, p);
}

/// Where the range checks are found in a column that holds bytes only, each column of the
/// differences of the three comparisons holds a byte.
pub proof fn law_differences_are_bytes(
    config: CopyCircuitConfig,
    u8_table: FixedColumn,
    declared: Seq<Lookup>,
    t: Trace,
    row: int,
    p: int,
    c: AdviceColumn,
)
    requires
        p > 1,
        config.comparisons_fit(),
        config.declares_lookups(u8_table, declared),
        forall|place: int| 0 <= #[trigger] (t.fixed)(u8_table, place) < 256,
        forall|k: int| 0 <= k < 10 ==> found(#[trigger] declared[k], t, row, p),
        config.addr_lt_addr_end.diff@.contains(c) || config.is_word_continue.diff@.contains(c)
            || config.non_pad_non_mask.diff@.contains(c),
    ensures
        exists|byte: int| 0 <= byte < 256 && #[trigger] same(at(t, c, row), byte, p),
{
    let a = config.addr_lt_addr_end.diff@;
    let b = config.is_word_continue.diff@;
    let d = config.non_pad_non_mask.diff@;
    let ra = range_checks(a, u8_table);
    let rb = range_checks(b, u8_table);
    let rd = range_checks(d, u8_table);
    let all = ra + rb + rd;
    assert(declared.take(10) == all);
    let k = if a.contains(c) {
        choose|k: int| 0 <= k < a.len() && a[k] == c
    } else if b.contains(c) {
        8 + choose|k: int| 0 <= k < b.len() && b[k] == c
    } else {
        9 + choose|k: int| 0 <= k < d.len() && d[k] == c
    };
    assert(0 <= k < 10);
    assert(declared[k] == declared.take(10)[k]);
    let pair = (Expr::Advice(c, 0), Expr::Fixed(u8_table, 0));
    assert(all[k].pairs =~= seq![pair]);
    assert(found(declared[k], t, row, p));
    let place = choose|place: int| #[trigger] found_at(declared[k], t, row, place, p);
    assert(declared[k].pairs[0] == pair);
    assert(same(at(t, c, row), (t.fixed)(u8_table, place + 0), p));
    let byte = (t.fixed)(u8_table, place);
    assert(0 <= byte < 256 && same(at(t, c, row), byte, p));
}

/// In a copy event, after a write row that ends a word, is neither padding nor masked, and writes
/// to neither code nor call data, the read-write counter grows by one, whatever is read next.
pub proof fn law_rw_counter_grows_after_a_written_word(
    config: CopyCircuitConfig,
    challenge: Expr,
    t: Trace,
    first: int,
    steps: int,
    p: int,
    j: int,
)
    requires
        config.is_event(challenge, t, first, steps, p),
        0 <= j < steps - 1,
        tag_is_bits(config, t, first + 2 * j + 1),
        tag_of(config, t, first + 2 * j + 1) != 1,
        tag_of(config, t, first + 2 * j + 1) != 3,
        same(at(t, config.is_word_continue.lt, first + 2 * j + 1), 0, p),
        same(at(t, config.non_pad_non_mask.lt, first + 2 * j + 1), 1, p),
    ensures
        same(
            at(t, config.copy_table.rw_counter, first + 2 * j + 2),
            at(t, config.copy_table.rw_counter, first + 2 * j + 1) + 1,
            p,
        ),
{
    let row = first + 2 * j + 1;
    let counter = at(t, config.copy_table.rw_counter, row);
    let next = at(t, config.copy_table.rw_counter, row + 1);
    let a = at(t, config.is_tx_calldata, row);
    let b = at(t, config.is_bytecode, row);
    assert(config.event_row(challenge, t, first, steps, row, p));
    lemma_small_mod(0, p as nat);
    lemma_small_mod(1, p as nat);
    lemma_satisfied(config, challenge, t, row, p);
    lemma_enabled_tags_are_decoded(config, t, row, p);
    lemma_complement(at(t, config.is_word_continue.lt, row), p);
    lemma_same_sum(a, 0, b, 0, p);
    lemma_complement(a + b, p);
    lemma_one_is_not_zero(1 - at(t, config.is_word_continue.lt, row), p);
    lemma_one_is_not_zero(at(t, config.non_pad_non_mask.lt, row), p);
    lemma_one_is_not_zero(1 - (a + b), p);
    assert(config.verify_row(t, row, p)[11].1);
    lemma_same_iff(counter + 1, next, p);
}

/// What is congruent to one is not congruent to zero.
proof fn lemma_one_is_not_zero(a: int, p: int)
    requires
        p > 1,
        same(a, 1, p),
    ensures
        !same(a, 0, p),
        !is_zero(a, p),
{
    lemma_small_mod(1, p as nat);
    if same(a, 0, p) {
        lemma_same_iff(a, 1, p);
        lemma_same_transitive(1, a, 0, p);
    }
}

/// The random linear combination of the values of `n` read rows from a row on, by the powers of
/// `r`.
pub open spec fn combined(config: CopyCircuitConfig, t: Trace, row: int, n: nat, r: int) -> int
    decreases n,
{
    if n == 0 {
        0
    } else {
        combined(config, t, row, (n - 1) as nat, r) * r + at(t, config.value, row + 2 * (n - 1))
    }
}

/// What is accumulated from a row on, where the accumulator starts with the value of that row, is
/// the combination of the values.
proof fn lemma_combined(config: CopyCircuitConfig, t: Trace, row: int, n: nat, r: int)
    requires
        at(t, config.value_acc, row) == at(t, config.value, row),
    ensures
        accumulated(config, t, row, n, r) == combined(config, t, row, n + 1, r),
    decreases n,
{
    if n > 0 {
        lemma_combined(config, t, row, (n - 1) as nat, r);
    } else {
        reveal_with_fuel(combined, 2);
        assert(0 * r == 0);
    }
}

/// In a copy event without padding and masks whose source and destination, by the tags of its last
/// two rows, are such that its bytes are accumulated, the copy table holds on each row the random
/// linear combination of the bytes, where the accumulator starts with the first of them. An
/// accumulator (five) as the destination is enough, whatever is read.
pub proof fn law_rlc_acc_combines_the_bytes(
    config: CopyCircuitConfig,
    challenge: Expr,
    t: Trace,
    first: int,
    steps: int,
    p: int,
    r: int,
    row: int,
)
    requires
        config.is_event(challenge, t, first, steps, p),
        tag_is_bits(config, t, first + 2 * steps - 2),
        tag_is_bits(config, t, first + 2 * steps - 1),
        is_accumulating(
            tag_of(config, t, first + 2 * steps - 2),
            tag_of(config, t, first + 2 * steps - 1),
        ),
        forall|row: int| #[trigger] challenge.eval(t, row) == r,
        forall|i: int| 0 <= i < steps - 1 ==> #[trigger] at(t, config.is_pad, first + 2 * i) == 0,
        forall|i: int| 1 <= i < steps ==> #[trigger] at(t, config.mask, first + 2 * i) == 0,
        at(t, config.value_acc, first) == at(t, config.value, first),
        first <= row < first + 2 * steps,
    ensures
        same(
            at(t, config.copy_table.rlc_acc, row),
            combined(config, t, first, steps as nat, r),
            p,
        ),
{
    let last = first + 2 * steps - 2;
    assert(config.event_row(challenge, t, first, steps, last, p));
    assert(config.event_row(challenge, t, first, steps, last + 1, p));
    lemma_satisfied(config, challenge, t, last, p);
    lemma_satisfied(config, challenge, t, last + 1, p);
    lemma_enabled_tags_are_decoded(config, t, last, p);
    lemma_enabled_tags_are_decoded(config, t, last + 1, p);
    law_indicator(config.copy_table.tag, 5, t, last + 1);
    lemma_small_mod(1, p as nat);
    let a = at(t, config.is_precompiled, last);
    let b = at(t, config.is_precompiled, last + 1);
    let m = at(t, config.is_memory, last);
    let d = at(t, config.is_tx_calldata, last);
    let c = at(t, config.is_bytecode, last + 1);
    let src = tag_of(config, t, last);
    let dst = tag_of(config, t, last + 1);
    assert(config.copy_table.tag.number(t, last + 1) == dst);
    if 6 <= src <= 14 || 6 <= dst <= 14 {
        lemma_complement(a, p);
        lemma_complement(b, p);
        lemma_product_with_zero(1 - a, 1 - b, p);
        lemma_complement((1 - a) * (1 - b), p);
        lemma_one_is_not_zero(config.precompile_case(t, last), p);
    } else if src == 2 && dst == 1 {
        lemma_factor(m, c, 1, p);
        lemma_one_is_not_zero(config.memory_to_bytecode_case(t, last), p);
    } else if src == 3 && dst == 1 {
        lemma_factor(d, c, 1, p);
        lemma_one_is_not_zero(config.tx_calldata_to_bytecode_case(t, last), p);
    } else {
        assert(dst == 5);
        lemma_one_is_not_zero(config.rlc_acc_case(t, last), p);
    }
    assert forall|i: int| 0 <= i < steps - 1 implies #[trigger] CopyCircuitConfig::cell(
        t,
        config.is_pad,
        first + 2 * i,
    ) == 0 by {
        assert(at(t, config.is_pad, first + 2 * i) == 0);
    }
    assert forall|i: int| 1 <= i < steps implies #[trigger] CopyCircuitConfig::cell(
        t,
        config.mask,
        first + 2 * i,
    ) == 0 by {
        assert(at(t, config.mask, first + 2 * i) == 0);
    }
    law_rlc_acc_is_the_combination(config, challenge, t, first, steps, p, r, row);
    lemma_combined(config, t, first, (steps - 1) as nat, r);
}

/// On every enabled row whose tag holds bits, where the constraints on the data types hold, the row
/// is decoded.
proof fn lemma_enabled_tags_are_decoded(config: CopyCircuitConfig, t: Trace, row: int, p: int)
    requires
        p > 1,
        !is_zero((t.fixed)(config.q_enable, row), p),
        tag_is_bits(config, t, row),
        all_true(config.decode_tag(t, row, p)),
    ensures
        decoded(config, t, row, p),
{
    let one = Trace {
        advice: t.advice,
        fixed: |c: FixedColumn, place: int| 1int,
        selector: t.selector,
        challenge: t.challenge,
    };
    assert(config.decode_tag(one, row, p) =~= config.decode_tag(t, row, p)) by {
        lemma_small_mod(1, p as nat);
    }
    law_tags_are_decoded(config, one, row, p);
}

/// A cell holds a value, where the value is known.
pub open spec fn given(t: Trace, column: AdviceColumn, row: int, value: Option<Scalar>) -> bool {
    value is Some ==> at(t, column, row) == value->Some_0.value()
}

/// Once the circuit is filled, each row of a copy, the even ones of which are its reads, holds in
/// each column what the copy gives for it, its tag is that of its data type, and one column alone
/// marks the data type, where it has one.
pub proof fn law_filled_rows_hold_what_is_given(
    config: CopyCircuitConfig,
    t: Trace,
    events: Seq<CopyEvent>,
    rows: Seq<Vec<CopyRow>>,
    max_copy_rows: int,
    k: int,
    i: int,
)
    requires
        rows_of_events(events, rows),
        copy_rows(events) + 2 <= max_copy_rows,
        config.filled(t, events, rows, max_copy_rows),
        0 <= k < events.len(),
        0 <= i < rows[k]@.len(),
    ensures
        ({
            let row = copy_rows(events.take(k)) + i;
            let ct = config.copy_table;
            let tag = rows[k]@[i].tag;
            let table = rows[k]@[i].table;
            let circuit = rows[k]@[i].circuit;
            let is_read = i % 2 == 0;
            &&& (t.fixed)(config.q_enable, row) == 1
            &&& (t.selector)(config.q_step, row) == (if is_read { 1int } else { 0 })
            &&& given(t, ct.is_first, row, table.is_first)
            &&& given(t, ct.id, row, table.id)
            &&& given(t, ct.addr, row, table.addr)
            &&& given(t, ct.real_bytes_left, row, table.real_bytes_left)
            &&& given(t, ct.rlc_acc, row, table.rlc_acc)
            &&& given(t, ct.rw_counter, row, table.rw_counter)
            &&& given(t, ct.rwc_inc_left, row, table.rwc_inc_left)
            &&& is_read ==> given(t, ct.src_addr_end, row, table.src_addr_end)
            &&& is_read ==> given(t, ct.bytes_left, row, table.bytes_left)
            &&& given(t, config.is_last, row, circuit.is_last)
            &&& given(t, config.value, row, circuit.value)
            &&& given(t, config.value_word_rlc, row, circuit.value_word_rlc)
            &&& given(t, config.value_word_rlc_prev, row, circuit.value_word_rlc_prev)
            &&& given(t, config.rlc_acc_read, row, circuit.rlc_acc_read)
            &&& given(t, config.rlc_acc_write, row, circuit.rlc_acc_write)
            &&& given(t, config.value_acc, row, circuit.value_acc)
            &&& given(t, config.is_pad, row, circuit.is_pad)
            &&& given(t, config.is_code, row, circuit.is_code)
            &&& given(t, config.mask, row, circuit.mask)
            &&& given(t, config.front_mask, row, circuit.front_mask)
            &&& given(t, config.word_index, row, circuit.word_index)
            &&& tag_is_bits(config, t, row)
            &&& tag_of(config, t, row) == tag.spec_code()
            &&& at(t, config.is_bytecode, row) == (if tag == CopyDataType::Bytecode {
                1int
            } else {
                0
            })
            &&& at(t, config.is_memory, row) == (if tag == CopyDataType::Memory { 1int } else { 0 })
            &&& at(t, config.is_tx_calldata, row) == (if tag == CopyDataType::TxCalldata {
                1int
            } else {
                0
            })
            &&& at(t, config.is_tx_log, row) == (if tag == CopyDataType::TxLog { 1int } else { 0 })
            &&& at(t, config.is_precompiled, row) == (if tag is Precompile { 1int } else { 0 })
        }),
{
    let row = copy_rows(events.take(k)) + i;
    let copy_row = rows[k]@[i];
    let end = events[k].src_addr_end;
    lemma_filled_rows_are_enabled(config, t, events, rows, max_copy_rows, k, i);
    law_copy_rows(config, t, events, rows, max_copy_rows, k, i);
    lemma_tag_is_given(config, t, row, i, copy_row, end);
}

/// The tag of a row of a copy is that of its data type.
proof fn lemma_tag_is_given(
    config: CopyCircuitConfig,
    t: Trace,
    row: int,
    i: int,
    copy_row: CopyRow,
    end: u64,
)
    requires
        config.is_copy_row(t, row, i, copy_row, end),
    ensures
        tag_is_bits(config, t, row),
        tag_of(config, t, row) == copy_row.tag.spec_code(),
{
    law_copy_rows_are_decoded(config, t, row, i, copy_row, end, 2);
    assert(config.copy_table.tag.number(t, row) == tag_of(config, t, row));
    let code = copy_row.tag.spec_code() as int;
    assert((code / 8) % 2 <= 1 && (code / 4) % 2 <= 1 && (code / 2) % 2 <= 1 && code % 2 <= 1);
}

/// The rows of a copy are enabled, and every other one is a step.
proof fn lemma_filled_rows_are_enabled(
    config: CopyCircuitConfig,
    t: Trace,
    events: Seq<CopyEvent>,
    rows: Seq<Vec<CopyRow>>,
    max_copy_rows: int,
    k: int,
    i: int,
)
    requires
        rows_of_events(events, rows),
        copy_rows(events) + 2 <= max_copy_rows,
        config.filled(t, events, rows, max_copy_rows),
        0 <= k < events.len(),
        0 <= i < rows[k]@.len(),
    ensures
        (t.fixed)(config.q_enable, copy_rows(events.take(k)) + i) == 1,
        (t.selector)(config.q_step, copy_rows(events.take(k)) + i) == (if i % 2 == 0 {
            1int
        } else {
            0
        }),
{
    let row = copy_rows(events.take(k)) + i;
    lemma_place(events, rows, k, i);
    law_enabled_rows(config, t, events, rows, max_copy_rows, row);
}

/// Where a row of a copy is.
proof fn lemma_place(events: Seq<CopyEvent>, rows: Seq<Vec<CopyRow>>, k: int, i: int)
    requires
        rows_of_events(events, rows),
        0 <= k < events.len(),
        0 <= i < rows[k]@.len(),
    ensures
        0 <= copy_rows(events.take(k)) + i < copy_rows(events),
        (copy_rows(events.take(k)) + i) % 2 == i % 2,
{
    lemma_events_prefix(events, k);
    lemma_even_rows(events.take(k));
}

/// The rows of an event come before the end of those of all events.
proof fn lemma_events_prefix(events: Seq<CopyEvent>, k: int)
    requires
        0 <= k < events.len(),
    ensures
        copy_rows(events.take(k)) + events[k].rows() <= copy_rows(events),
{
    lemma_copy_rows_prefix(events, k + 1);
    assert(events.take(k + 1).drop_last() =~= events.take(k));
}

/// Copy events take an even number of rows.
proof fn lemma_even_rows(events: Seq<CopyEvent>)
    ensures
        copy_rows(events) % 2 == 0,
    decreases events.len(),
{
    if events.len() > 0 {
        lemma_even_rows(events.drop_last());
    }
}

/// Columns that hold the low bytes of a number hold what is left of it beyond their range.
proof fn lemma_low_bytes(columns: Seq<AdviceColumn>, number: nat, t: Trace, row: int)
    requires
        forall|k: int|
            0 <= k < columns.len() ==> (t.advice)(#[trigger] columns[k], row) == byte_of(
                number,
                k as nat,
            ),
    ensures
        range(columns.len()) > 0,
        bytes_value(columns, t, row) == number as int % range(columns.len()),
    decreases columns.len(),
{
    if columns.len() > 0 {
        let rest = columns.drop_first();
        assert forall|k: int| 0 <= k < rest.len() implies (t.advice)(#[trigger] rest[k], row)
            == byte_of(number / 256, k as nat) by {
            assert(rest[k] == columns[k + 1]);
            assert(byte_of(number, (k + 1) as nat) == byte_of(number / 256, k as nat));
        }
        lemma_low_bytes(rest, number / 256, t, row);
        lemma_mod_breakdown(number as int, 256, range(rest.len()));
        assert((t.advice)(columns[0], row) == byte_of(number, 0));
    } else {
        assert(number as int % 1 == 0);
    }
}

/// What is written of a comparison tells which of two numbers is less, and their difference up to
/// the range of its bytes.
pub proof fn law_written_comparison(
    config: LtConfig,
    t: Trace,
    row: int,
    lhs: nat,
    rhs: nat,
)
    requires
        config.diff@.len() <= 8,
        lhs < modulus(),
        rhs <= range(config.diff@.len()),
        all_hold(t, config.writes(row, lhs, rhs)),
    ensures
        at(t, config.lt, row) == (if lhs < rhs {
            1int
        } else {
            0
        }),
        range(config.diff@.len()) > 0,
        bytes_value(config.diff@, t, row) == (lhs - rhs) % range(config.diff@.len()),
{
    let w = config.writes(row, lhs, rhs);
    assert(holds(t, w[0]));
    assert forall|k: int| 0 <= k < config.diff@.len() implies at(t, #[trigger] config.diff@[k], row)
        == byte_of(LtConfig::difference(config.diff@.len(), lhs, rhs), k as nat) by {
        assert(holds(t, w[k + 1]));
    }
    lemma_difference(config, t, row, lhs, rhs);
}

/// The bytes of the difference of two numbers.
proof fn lemma_difference(config: LtConfig, t: Trace, row: int, lhs: nat, rhs: nat)
    requires
        config.diff@.len() <= 8,
        lhs < modulus(),
        rhs <= range(config.diff@.len()),
        forall|k: int|
            0 <= k < config.diff@.len() ==> at(t, #[trigger] config.diff@[k], row) == byte_of(
                LtConfig::difference(config.diff@.len(), lhs, rhs),
                k as nat,
            ),
    ensures
        range(config.diff@.len()) > 0,
        bytes_value(config.diff@, t, row) == (lhs - rhs) % range(config.diff@.len()),
{
    let n = config.diff@.len();
    let number = LtConfig::difference(n, lhs, rhs);
    lemma_low_bytes(config.diff@, number, t, row);
    assert(range(n) <= 0x1_0000_0000_0000_0000) by {
        reveal_with_fuel(range, 9);
    }
    if lhs < rhs {
        assert(1 * range(n) == range(n));
        lemma_small_mod((lhs - rhs + range(n)) as nat, modulus());
        lemma_mod_add_multiples_vanish(lhs - rhs, range(n));
    } else {
        assert(0 * range(n) == 0);
        lemma_small_mod((lhs - rhs) as nat, modulus());
    }
}

/// Once the circuit is filled, each row of a copy has its comparisons: the reads that of the
/// address with the end of the source, and all rows those of the index of the byte within its word
/// with thirty-one, and of the markers of padding and masks with one.
pub proof fn law_filled_rows_are_compared(
    config: CopyCircuitConfig,
    t: Trace,
    events: Seq<CopyEvent>,
    rows: Seq<Vec<CopyRow>>,
    max_copy_rows: int,
    k: int,
    i: int,
)
    requires
        config.comparisons_fit(),
        rows_of_events(events, rows),
        config.filled(t, events, rows, max_copy_rows),
        0 <= k < events.len(),
        0 <= i < rows[k]@.len(),
        known(rows[k]@[i].table.addr) < modulus(),
    ensures
        ({
            let row = copy_rows(events.take(k)) + i;
            let addr = known(rows[k]@[i].table.addr);
            let end = events[k].src_addr_end;
            let index = (i / 2) % 32;
            let marked = (known(rows[k]@[i].circuit.is_pad) + known(rows[k]@[i].circuit.mask))
                % modulus();
            &&& i % 2 == 0 ==> at(t, config.addr_lt_addr_end.lt, row) == (if addr < end {
                1int
            } else {
                0
            })
            &&& i % 2 == 0 ==> eight_bytes(config.addr_lt_addr_end.diff@, t, row) == (addr - end)
                % 0x1_0000_0000_0000_0000
            &&& at(t, config.is_word_continue.lt, row) == (if index == 31 {
                0int
            } else {
                1
            })
            &&& at(t, config.is_word_continue.diff@[0], row) == (index - 31) % 256
            &&& at(t, config.non_pad_non_mask.lt, row) == (if marked == 0 {
                1int
            } else {
                0
            })
            &&& at(t, config.non_pad_non_mask.diff@[0], row) == (marked - 1) % 256
        }),
{
    let row = copy_rows(events.take(k)) + i;
    let addr = known(rows[k]@[i].table.addr);
    let end = events[k].src_addr_end as nat;
    let marked = (known(rows[k]@[i].circuit.is_pad) + known(rows[k]@[i].circuit.mask)) % modulus();
    law_copy_rows(config, t, events, rows, max_copy_rows, k, i);
    assert(range(8) == 0x1_0000_0000_0000_0000 && range(1) == 256) by {
        reveal_with_fuel(range, 9);
    }
    lemma_one_byte(config.is_word_continue.diff@, t, row);
    lemma_one_byte(config.non_pad_non_mask.diff@, t, row);
    lemma_eight_bytes(config.addr_lt_addr_end.diff@, t, row);
    lemma_difference(config.is_word_continue, t, row, ((i / 2) % 32) as nat, 31);
    lemma_difference(config.non_pad_non_mask, t, row, marked, 1);
    if i % 2 == 0 {
        lemma_difference(config.addr_lt_addr_end, t, row, addr, end);
    }
}

/// Once the circuit is filled, each row after the copies is blank: the end of the source and the
/// masks are one there, and whatever else the copy table or the circuit has is zero.
pub proof fn law_filled_rows_after_the_copies_are_blank(
    config: CopyCircuitConfig,
    t: Trace,
    events: Seq<CopyEvent>,
    rows: Seq<Vec<CopyRow>>,
    max_copy_rows: int,
    row: int,
    c: AdviceColumn,
)
    requires
        config.comparisons_fit(),
        rows_of_events(events, rows),
        copy_rows(events) + 2 <= max_copy_rows,
        config.filled(t, events, rows, max_copy_rows),
        copy_rows(events) <= row < max_copy_rows,
    ensures
        at(t, config.copy_table.src_addr_end, row) == 1,
        at(t, config.mask, row) == 1,
        at(t, config.front_mask, row) == 1,
        tag_is_bits(config, t, row),
        tag_of(config, t, row) == 0,
        seq![
            config.copy_table.is_first,
            config.copy_table.id,
            config.copy_table.addr,
            config.copy_table.bytes_left,
            config.copy_table.real_bytes_left,
            config.copy_table.rlc_acc,
            config.copy_table.rw_counter,
            config.copy_table.rwc_inc_left,
            config.is_last,
            config.value,
            config.value_word_rlc,
            config.value_word_rlc_prev,
            config.word_index,
            config.value_acc,
            config.is_code,
            config.is_pad,
            config.is_precompiled,
            config.is_tx_calldata,
            config.is_bytecode,
            config.is_memory,
            config.is_tx_log,
        ].contains(c) ==> at(t, c, row) == 0,
        at(t, config.addr_lt_addr_end.lt, row) == 1,
        eight_bytes(config.addr_lt_addr_end.diff@, t, row) == 0xffff_ffff_ffff_ffff,
        at(t, config.is_word_continue.lt, row) == 1,
        at(t, config.is_word_continue.diff@[0], row) == 225,
        at(t, config.non_pad_non_mask.lt, row) == 0,
        at(t, config.non_pad_non_mask.diff@[0], row) == 0,
{
    law_padding_rows(config, t, events, rows, max_copy_rows, row);
    assert(range(8) == 0x1_0000_0000_0000_0000 && range(1) == 256) by {
        reveal_with_fuel(range, 9);
    }
    lemma_one_byte(config.is_word_continue.diff@, t, row);
    lemma_one_byte(config.non_pad_non_mask.diff@, t, row);
    lemma_eight_bytes(config.addr_lt_addr_end.diff@, t, row);
    lemma_difference(config.is_word_continue, t, row, 0, 31);
    lemma_difference(config.non_pad_non_mask, t, row, 1, 1);
    lemma_difference(config.addr_lt_addr_end, t, row, 0, 1);
}

} // verus!
