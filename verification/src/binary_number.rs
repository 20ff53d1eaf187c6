//! A small number held as bits, one advice column each.
use vstd::prelude::*;
use crate::copy_event::CopyDataType;
use crate::expression::{not, AdviceColumn, Expr, Trace};
use crate::region::{Label, Region, Write};

verus! {

/// The columns of a four-bit number, the most significant bit first.
#[derive(Clone, Copy, Debug)]
pub struct BinaryNumberConfig {
    /// The bit of value eight.
    pub bit_8: AdviceColumn,
    /// The bit of value four.
    pub bit_4: AdviceColumn,
    /// The bit of value two.
    pub bit_2: AdviceColumn,
    /// The bit of value one.
    pub bit_1: AdviceColumn,
}

/// Whether the bit of the given weight is set in a number.
pub open spec fn bit_set(code: u64, weight: u64) -> bool {
    (code / weight) % 2 == 1
}

/// The indicator that a bit has a given value: one where it has, zero where it has not.
pub open spec fn bit_matches(set: bool, bit: int) -> int {
    if set {
        bit
    } else {
        1 - bit
    }
}

impl BinaryNumberConfig {
    /// Whether every column is among the first `n` advice columns.
    pub open spec fn within(self, n: nat) -> bool {
        self.bit_8.index < n && self.bit_4.index < n && self.bit_2.index < n && self.bit_1.index
            < n
    }

    /// The number that the cells of a row hold.
    pub open spec fn number(self, t: Trace, row: int) -> int {
        (t.advice)(self.bit_8, row) * 8 + (t.advice)(self.bit_4, row) * 4 + (t.advice)(
            self.bit_2,
            row,
        ) * 2 + (t.advice)(self.bit_1, row)
    }

    /// The indicator that the bits of a row are those of a number: the product of the
    /// indicators of the four bits.
    pub open spec fn indicator(self, code: u64, t: Trace, row: int) -> int {
        bit_matches(bit_set(code, 8), (t.advice)(self.bit_8, row)) * bit_matches(
            bit_set(code, 4),
            (t.advice)(self.bit_4, row),
        ) * bit_matches(bit_set(code, 2), (t.advice)(self.bit_2, row)) * bit_matches(
            bit_set(code, 1),
            (t.advice)(self.bit_1, row),
        )
    }

    /// The number, at a distance from the current row.
    pub fn value(&self, at: i32) -> (r: Expr)
        ensures
            forall|t: Trace, row: int| #[trigger] r.eval(t, row) == self.number(t, row + at),
            forall|n: nat| self.within(n) ==> #[trigger] r.fits(n),
            0 <= at <= 2 ==> r.near(),
    {
        let eights = Expr::advice(self.bit_8, at).times(Expr::constant(8));
        let fours = Expr::advice(self.bit_4, at).times(Expr::constant(4));
        let twos = Expr::advice(self.bit_2, at).times(Expr::constant(2));
        eights.plus(fours).plus(twos).plus(Expr::advice(self.bit_1, at))
    }

    /// The indicator of one bit, at a distance from the current row.
    fn bit_equals(column: AdviceColumn, set: bool, at: i32) -> (r: Expr)
        ensures
            forall|t: Trace, row: int| #[trigger]
                r.eval(t, row) == bit_matches(set, (t.advice)(column, row + at)),
            forall|n: nat| #[trigger] r.fits(n) == (column.index < n),
            r.near() == (0 <= at <= 2),
    {
        if set {
            Expr::advice(column, at)
        } else {
            not(Expr::advice(column, at))
        }
    }

    /// The indicator that the number is the code of a data type, at a distance from the current
    /// row.
    pub fn value_equals(&self, data_type: CopyDataType, at: i32) -> (r: Expr)
        ensures
            forall|t: Trace, row: int| #[trigger]
                r.eval(t, row) == self.indicator(data_type.spec_code(), t, row + at),
            forall|n: nat| self.within(n) ==> #[trigger] r.fits(n),
            0 <= at <= 2 ==> r.near(),
    {
        let code: u64 = data_type.code();
        let e8 = Self::bit_equals(self.bit_8, (code / 8) % 2 == 1, at);
        let e4 = Self::bit_equals(self.bit_4, (code / 4) % 2 == 1, at);
        let e2 = Self::bit_equals(self.bit_2, (code / 2) % 2 == 1, at);
        let e1 = Self::bit_equals(self.bit_1, (code / 1) % 2 == 1, at);
        e8.times(e4).times(e2).times(e1)
    }

    /// What the cells of a number are called.
    pub open spec fn label() -> Label {
        Label::Text("binary number")
    }

    /// What the assignment of a number hands to the region.
    pub open spec fn writes(self, offset: int, code: u64) -> Seq<Write> {
        seq![
            Write::Advice(self.bit_8, offset, Some(((code / 8) % 2) as nat), Self::label()),
            Write::Advice(self.bit_4, offset, Some(((code / 4) % 2) as nat), Self::label()),
            Write::Advice(self.bit_2, offset, Some(((code / 2) % 2) as nat), Self::label()),
            Write::Advice(self.bit_1, offset, Some((code % 2) as nat), Self::label()),
        ]
    }

    /// Writes the code of a data type.
    pub fn assign(&self, region: &mut Region, offset: usize, data_type: CopyDataType)
        ensures
            final(region)@ == old(region)@ + self.writes(offset as int, data_type.spec_code()),
    {
        let label = Label::Text("binary number");
        let code: u64 = data_type.code();
        region.assign_number(label, self.bit_8, offset, (code / 8) % 2);
        region.assign_number(label, self.bit_4, offset, (code / 4) % 2);
        region.assign_number(label, self.bit_2, offset, (code / 2) % 2);
        region.assign_number(label, self.bit_1, offset, code % 2);
        assert(region@ =~= old(region)@ + self.writes(offset as int, data_type.spec_code()));
    }
}

/// A four-bit number is the sum of its bits by their weights.
pub proof fn lemma_bits(code: u64)
    requires
        code < 16,
    ensures
        code == ((code / 8) % 2) * 8 + ((code / 4) % 2) * 4 + ((code / 2) % 2) * 2 + code % 2,
{
}

/// Where the bits of a row are zero or one, the indicator of a four-bit code is one exactly
/// where the bits hold the code, and zero elsewhere.
pub proof fn law_indicator(config: BinaryNumberConfig, code: u64, t: Trace, row: int)
    requires
        code < 16,
        0 <= (t.advice)(config.bit_8, row) <= 1,
        0 <= (t.advice)(config.bit_4, row) <= 1,
        0 <= (t.advice)(config.bit_2, row) <= 1,
        0 <= (t.advice)(config.bit_1, row) <= 1,
    ensures
        config.indicator(code, t, row) == (if config.number(t, row) == code {
            1int
        } else {
            0int
        }),
{
    let a = bit_matches(bit_set(code, 8), (t.advice)(config.bit_8, row));
    let b = bit_matches(bit_set(code, 4), (t.advice)(config.bit_4, row));
    let c = bit_matches(bit_set(code, 2), (t.advice)(config.bit_2, row));
    let d = bit_matches(bit_set(code, 1), (t.advice)(config.bit_1, row));
    lemma_bits(code);
    assert(a * b * c * d == (if a == 1 && b == 1 && c == 1 && d == 1 {
        1int
    } else {
        0int
    })) by (nonlinear_arith)
        requires
            a == 0 || a == 1,
            b == 0 || b == 1,
            c == 0 || c == 1,
            d == 0 || d == 1,
    ;
}

} // verus!
