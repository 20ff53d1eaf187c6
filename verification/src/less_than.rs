//! A comparison of two numbers of a given number of bytes: a column that holds one where the
//! first is less than the second, and zero elsewhere.
use vstd::prelude::*;
use vstd::arithmetic::div_mod::{lemma_add_mod_noop, lemma_mod_bound, lemma_small_mod};
use crate::constraint_builder::{evaluates, states, BaseConstraintBuilder};
use crate::constraint_system::{advice_column, create_gate, lookup_any, ConstraintSystem};
use crate::constraint_system::{
    advice_phases, annotations, gates, lookups, named, num_selectors, Gate, Lookup,
};
use crate::expression::{AdviceColumn, Expr, FixedColumn, Phase, Trace};
use crate::field::{modulus, Scalar};
use crate::prime::{is_bit, same, tells};
use crate::prime::lemma_same_small;
use crate::region::{Label, Region, Write};
use crate::table::copy_of;

verus! {

/// The number of values that `n` bytes take.
pub open spec fn range(n: nat) -> int
    decreases n,
{
    if n == 0 {
        1
    } else {
        256 * range((n - 1) as nat)
    }
}

/// The number that the cells of a row hold in columns of bytes, the least significant first.
pub open spec fn bytes_value(columns: Seq<AdviceColumn>, t: Trace, row: int) -> int
    decreases columns.len(),
{
    if columns.len() == 0 {
        0
    } else {
        (t.advice)(columns[0], row) + 256 * bytes_value(columns.drop_first(), t, row)
    }
}

/// The `k`-th byte of a number, the least significant first.
pub open spec fn byte_of(number: nat, k: nat) -> nat
    decreases k,
{
    if k == 0 {
        number % 256
    } else {
        byte_of(number / 256, (k - 1) as nat)
    }
}

/// The columns of a comparison.
#[derive(Debug)]
pub struct LtConfig {
    /// One where the left number is less than the right one, and zero elsewhere.
    pub lt: AdviceColumn,
    /// The bytes of the difference of the two numbers.
    pub diff: Vec<AdviceColumn>,
}

impl Clone for LtConfig {
    fn clone(&self) -> (r: LtConfig)
        ensures
            r.same_as(*self),
    {
        LtConfig { lt: self.lt, diff: copy_of(&self.diff) }
    }
}

impl LtConfig {
    /// The two have the same columns.
    pub open spec fn same_as(self, other: LtConfig) -> bool {
        self.lt == other.lt && self.diff@ == other.diff@
    }

    /// Whether every column is among the first `n` advice columns.
    pub open spec fn within(self, n: nat) -> bool {
        &&& self.lt.index < n
        &&& forall|k: int| 0 <= k < self.diff@.len() ==> (#[trigger] self.diff@[k]).index < n
    }

    /// The columns were allocated one after the other, the first of them as the `n`-th.
    pub open spec fn laid_out(self, n: nat) -> bool {
        &&& self.lt.index == n
        &&& self.lt.phase == Phase::First
        &&& forall|k: int|
            0 <= k < self.diff@.len() ==> (#[trigger] self.diff@[k]).index == n + 1 + k
                && self.diff@[k].phase == Phase::First
    }

    /// What the custom gate of a comparison states of a row: wherever `enable` is not zero, the
    /// comparison bit is a bit, and the difference of the two numbers, with the range added
    /// where the bit is one, is the number that the difference bytes hold.
    pub open spec fn compared(
        self,
        enable: Expr,
        lhs: Expr,
        rhs: Expr,
        t: Trace,
        row: int,
        p: int,
    ) -> Seq<(Seq<char>, bool)> {
        let on = !enable.vanishes(t, row, p);
        seq![
            (
                "lhs - rhs + lt * range == diff"@,
                on ==> same(
                    lhs.eval(t, row) - rhs.eval(t, row) + (t.advice)(self.lt, row) * range(
                        self.diff@.len(),
                    ),
                    bytes_value(self.diff@, t, row),
                    p,
                ),
            ),
            ("lt is boolean"@, on ==> is_bit((t.advice)(self.lt, row), p)),
        ]
    }

    /// What the constraints of a comparison evaluate to on a row.
    pub open spec fn compared_values(
        self,
        enable: Expr,
        lhs: Expr,
        rhs: Expr,
        t: Trace,
        row: int,
    ) -> Seq<(Seq<char>, int)> {
        let lt = (t.advice)(self.lt, row);
        seq![
            (
                "lhs - rhs + lt * range == diff"@,
                enable.eval(t, row) * (lhs.eval(t, row) - rhs.eval(t, row) + lt * range(
                    self.diff@.len(),
                ) - bytes_value(self.diff@, t, row)),
            ),
            ("lt is boolean"@, enable.eval(t, row) * (lt * (1 - lt))),
        ]
    }

    /// The comparison bit at the current row.
    pub fn is_lt(&self) -> (r: Expr)
        ensures
            forall|t: Trace, row: int| #[trigger] r.eval(t, row) == (t.advice)(self.lt, row),
            forall|n: nat| #[trigger] r.fits(n) == (self.lt.index < n),
            r.near(),
    {
        Expr::advice(self.lt, 0)
    }

    /// The number that the difference bytes hold.
    fn diff_expr(&self) -> (r: Expr)
        ensures
            forall|t: Trace, row: int| #[trigger]
                r.eval(t, row) == bytes_value(self.diff@, t, row),
            forall|n: nat| self.within(n) ==> #[trigger] r.fits(n),
            r.near(),
    {
        let mut e = Expr::constant(0);
        let mut k: usize = self.diff.len();
        proof {
            assert(self.diff@.skip(k as int) =~= Seq::<AdviceColumn>::empty());
        }
        while k > 0
            invariant
                k <= self.diff@.len(),
                forall|t: Trace, row: int| #[trigger]
                    e.eval(t, row) == bytes_value(self.diff@.skip(k as int), t, row),
                forall|n: nat| self.within(n) ==> #[trigger] e.fits(n),
                e.near(),
            decreases k,
        {
            k -= 1;
            let ghost before = e;
            e = Expr::advice(self.diff[k], 0).plus(Expr::constant(256).times(e));
            proof {
                assert(self.diff@.skip(k as int).drop_first() =~= self.diff@.skip(k + 1));
                assert forall|t: Trace, row: int| #[trigger]
                    e.eval(t, row) == bytes_value(self.diff@.skip(k as int), t, row) by {
                    assert(before.eval(t, row) == bytes_value(self.diff@.skip(k + 1), t, row));
                }
            }
        }
        proof {
            assert(self.diff@.skip(0) =~= self.diff@);
        }
        e
    }

    /// The number of values that the difference bytes take.
    fn range_expr(n_bytes: usize) -> (r: Expr)
        ensures
            forall|t: Trace, row: int| #[trigger] r.eval(t, row) == range(n_bytes as nat),
            forall|n: nat| #[trigger] r.fits(n),
            r.near(),
    {
        let mut e = Expr::constant(1);
        let mut k: usize = 0;
        while k < n_bytes
            invariant
                k <= n_bytes,
                forall|t: Trace, row: int| #[trigger] e.eval(t, row) == range(k as nat),
                forall|n: nat| #[trigger] e.fits(n),
                e.near(),
            decreases n_bytes - k,
        {
            e = Expr::constant(256).times(e);
            k += 1;
        }
        e
    }

    /// The comparison bit of two numbers.
    pub open spec fn bit(lhs: nat, rhs: nat) -> nat {
        if lhs < rhs {
            1
        } else {
            0
        }
    }

    /// The difference of two numbers in the field, with the range added where the first is less
    /// than the second.
    pub open spec fn difference(n_bytes: nat, lhs: nat, rhs: nat) -> nat {
        ((lhs - rhs + Self::bit(lhs, rhs) * range(n_bytes)) % (modulus() as int)) as nat
    }

    /// What the cell of the comparison bit is called.
    pub open spec fn lt_label() -> Label {
        Label::Text("lt chip: lt")
    }

    /// What a cell of the difference is called.
    pub open spec fn diff_label() -> Label {
        Label::Text("lt chip: diff byte")
    }

    /// What the assignment of a comparison hands to the region: the comparison bit, and the low
    /// bytes of the difference.
    pub open spec fn writes(self, offset: int, lhs: nat, rhs: nat) -> Seq<Write> {
        seq![
            Write::Advice(self.lt, offset, Some(Self::bit(lhs, rhs)), Self::lt_label()),
        ] + Seq::new(
            self.diff@.len(),
            |k: int|
                Write::Advice(
                    self.diff@[k],
                    offset,
                    Some(byte_of(Self::difference(self.diff@.len(), lhs, rhs), k as nat)),
                    Self::diff_label(),
                ),
        )
    }

    /// The number of values that some bytes take, as a field element.
    fn range_scalar(n_bytes: usize) -> (r: Scalar)
        requires
            n_bytes <= 8,
        ensures
            r.value() == range(n_bytes as nat),
            range(n_bytes as nat) <= 0x1_0000_0000_0000_0000,
    {
        reveal_with_fuel(range, 9);
        if n_bytes == 8 {
            let r = Scalar::from_limbs([0, 1, 0, 0]);
            match r {
                Some(s) => s,
                None => Scalar::zero(),
            }
        } else {
            let mut v: u64 = 1;
            let mut k: usize = 0;
            while k < n_bytes
                invariant
                    k <= n_bytes < 8,
                    v == range(k as nat),
                decreases n_bytes - k,
            {
                assert(range(k as nat) <= range(6)) by {
                    reveal_with_fuel(range, 8);
                }
                assert(range(6) == 0x1_0000_0000_0000) by {
                    reveal_with_fuel(range, 8);
                }
                v = 256 * v;
                k += 1;
            }
            Scalar::from_u64(v)
        }
    }

    /// Writes the comparison of two field elements.
    pub fn assign(&self, region: &mut Region, offset: usize, lhs: Scalar, rhs: Scalar)
        requires
            self.diff@.len() <= 8,
        ensures
            final(region)@ == old(region)@ + self.writes(offset as int, lhs.value(), rhs.value()),
    {
        let n: usize = self.diff.len();
        let lt: bool = lhs.is_below(&rhs);
        region.assign_number(Label::Text("lt chip: lt"), self.lt, offset, if lt { 1 } else { 0 });
        let raw: Scalar = lhs.minus(rhs);
        let difference: Scalar = if lt { raw.plus(Self::range_scalar(n)) } else { raw };
        let ghost d = Self::difference(n as nat, lhs.value(), rhs.value());
        proof {
            let m = modulus() as int;
            lemma_add_mod_noop(lhs.value() - rhs.value(), range(n as nat), m);
            lemma_mod_bound(
                lhs.value() - rhs.value() + Self::bit(lhs.value(), rhs.value()) * range(n as nat),
                m,
            );
            lemma_range_bound(n as nat);
            lemma_small_mod(range(n as nat) as nat, modulus());
            let bit = Self::bit(lhs.value(), rhs.value());
            assert(bit * range(n as nat) == if lt {
                range(n as nat)
            } else {
                0
            }) by (nonlinear_arith)
                requires
                    bit == if lt {
                        1int
                    } else {
                        0int
                    },
            ;
            assert(difference.value() == d);
        }
        let limbs = difference.to_limbs();
        let mut rest: u64 = limbs[0];
        let ghost mut number: nat = d;
        let ghost high = limbs[1] + limbs[2] * 0x1_0000_0000_0000_0000 + limbs[3]
            * 0x1_0000_0000_0000_0000_0000_0000_0000_0000;
        proof {
            assert(range(8) == 0x1_0000_0000_0000_0000) by {
                reveal_with_fuel(range, 9);
            }
            assert(high * range(8) == high * 0x1_0000_0000_0000_0000);
        }
        let ghost start = region@;
        let mut k: usize = 0;
        while k < n
            invariant
                k <= n,
                n == self.diff@.len(),
                n <= 8,
                high >= 0,
                number == rest + high * range((8 - k) as nat),
                forall|j: nat| #[trigger] byte_of(number, j) == byte_of(d, k as nat + j),
                region@ == start + Seq::new(
                    k as nat,
                    |j: int|
                        Write::Advice(
                            self.diff@[j],
                            offset as int,
                            Some(byte_of(d, j as nat)),
                            Self::diff_label(),
                        ),
                ),
            decreases n - k,
        {
            let ghost before = region@;
            region.assign_number(
                Label::Text("lt chip: diff byte"),
                self.diff[k],
                offset,
                rest % 256,
            );
            proof {
                let step = range((7 - k) as nat);
                assert(range((8 - k) as nat) == 256 * step);
                assert(number == rest + 256 * (high * step)) by (nonlinear_arith)
                    requires
                        number == rest + high * (256 * step),
                ;
                assert(byte_of(number, 0) == rest % 256);
                assert(byte_of(d, k as nat) == byte_of(number, 0));
                let next = number / 256;
                assert(next == rest / 256 + high * step);
                assert forall|j: nat| #[trigger] byte_of(next, j) == byte_of(d, (k + 1) as nat + j)
                    by {
                    assert(byte_of(number, j + 1) == byte_of(next, j));
                    assert(byte_of(number, j + 1) == byte_of(d, k as nat + (j + 1)));
                }
                number = next;
                assert(region@ =~= start + Seq::new(
                    (k + 1) as nat,
                    |j: int|
                        Write::Advice(
                            self.diff@[j],
                            offset as int,
                            Some(byte_of(d, j as nat)),
                            Self::diff_label(),
                        ),
                ));
            }
            rest = rest / 256;
            k += 1;
        }
        assert(region@ =~= old(region)@ + self.writes(offset as int, lhs.value(), rhs.value()));
    }
}

/// The number of values of at most eight bytes.
proof fn lemma_range_bound(n: nat)
    requires
        n <= 8,
    ensures
        1 <= range(n) <= 0x1_0000_0000_0000_0000,
{
    reveal_with_fuel(range, 9);
}

/// The lookups that keep the difference bytes of a comparison below the size of a byte.
pub open spec fn range_checks(diff: Seq<AdviceColumn>, u8_table: FixedColumn) -> Seq<Lookup> {
    diff.map_values(
        |c: AdviceColumn|
            Lookup {
                name: "range check for u8"@,
                pairs: seq![(Expr::Advice(c, 0), Expr::Fixed(u8_table, 0))],
            },
    )
}

/// The comparison gadget.
pub struct LtChip {}

impl LtChip {
    /// Declares a comparison: `lhs` and `rhs`, numbers of `n_bytes` bytes, are compared wherever
    /// `enable` is not zero. The fixed column `u8_table` holds the values of a byte.
    #[verifier::rlimit(40)]
    pub fn configure(
        meta: &mut ConstraintSystem<'_>,
        n_bytes: usize,
        enable: Expr,
        lhs: Expr,
        rhs: Expr,
        u8_table: FixedColumn,
    ) -> (r: LtConfig)
        requires
            enable.fits(advice_phases(*old(meta)).len()),
            lhs.fits(advice_phases(*old(meta)).len()),
            rhs.fits(advice_phases(*old(meta)).len()),
        ensures
            r.diff@.len() == n_bytes,
            r.laid_out(advice_phases(*old(meta)).len()),
            advice_phases(*final(meta)) == advice_phases(*old(meta)) + Seq::new(
                (n_bytes + 1) as nat,
                |k: int| Phase::First,
            ),
            num_selectors(*final(meta)) == num_selectors(*old(meta)),
            annotations(*final(meta)) == annotations(*old(meta)),
            gates(*final(meta)) == gates(*old(meta)).push(gates(*final(meta)).last()),
            gates(*final(meta)).last().name == "lt gate"@,
            forall|t: Trace, row: int, p: int|
                #[trigger] states(
                    gates(*final(meta)).last().constraints,
                    t,
                    row,
                    p,
                    r.compared(enable, lhs, rhs, t, row, p),
                ),
            forall|t: Trace, row: int| #[trigger]
                evaluates(
                    gates(*final(meta)).last().constraints,
                    t,
                    row,
                    r.compared_values(enable, lhs, rhs, t, row),
                ),
            enable.near() && lhs.near() && rhs.near() ==> gates(*final(meta)).last().near(),
            lookups(*final(meta)) == lookups(*old(meta)) + range_checks(r.diff@, u8_table),
    {
        let ghost n0 = advice_phases(*meta).len();
        let lt = advice_column(meta);
        let mut diff: Vec<AdviceColumn> = Vec::new();
        let mut k: usize = 0;
        while k < n_bytes
            invariant
                k <= n_bytes,
                n0 == advice_phases(*old(meta)).len(),
                diff@.len() == k,
                lt.index == n0,
                lt.phase == Phase::First,
                forall|j: int|
                    0 <= j < k ==> (#[trigger] diff@[j]).index == n0 + 1 + j && diff@[j].phase
                        == Phase::First,
                advice_phases(*meta) == advice_phases(*old(meta)) + Seq::new(
                    (k + 1) as nat,
                    |j: int| Phase::First,
                ),
                num_selectors(*meta) == num_selectors(*old(meta)),
                annotations(*meta) == annotations(*old(meta)),
                gates(*meta) == gates(*old(meta)),
                lookups(*meta) == lookups(*old(meta)),
            decreases n_bytes - k,
        {
            let ghost before = advice_phases(*meta);
            let c = advice_column(meta);
            proof {
                assert(before.push(Phase::First) =~= advice_phases(*old(meta)) + Seq::new(
                    (k + 2) as nat,
                    |j: int| Phase::First,
                ));
            }
            diff.push(c);
            k += 1;
        }
        let config = LtConfig { lt, diff };
        let ghost n1 = advice_phases(*meta).len();
        proof {
            lemma_fits_more(enable, n0, n1);
            lemma_fits_more(lhs, n0, n1);
            lemma_fits_more(rhs, n0, n1);
            assert(config.within(n1));
        }
        let ghost (g_enable, g_lhs, g_rhs) = (enable, lhs, rhs);
        let mut cb = BaseConstraintBuilder::new();
        cb.require_equal(
            "lhs - rhs + lt * range == diff",
            lhs.minus(rhs).plus(config.is_lt().times(LtConfig::range_expr(n_bytes))),
            config.diff_expr(),
        );
        cb.require_boolean("lt is boolean", config.is_lt());
        let constraints = cb.gate(enable);
        proof {
            assert forall|t: Trace, row: int, p: int| #[trigger] states(
                named(constraints@),
                t,
                row,
                p,
                config.compared(g_enable, g_lhs, g_rhs, t, row, p),
            ) by {
                assert(tells(
                    constraints@[0].1.vanishes(t, row, p),
                    config.compared(g_enable, g_lhs, g_rhs, t, row, p)[0].1,
                    p,
                ));
                assert(tells(
                    constraints@[1].1.vanishes(t, row, p),
                    config.compared(g_enable, g_lhs, g_rhs, t, row, p)[1].1,
                    p,
                ));
            }
            assert forall|t: Trace, row: int| #[trigger]
                evaluates(
                    named(constraints@),
                    t,
                    row,
                    config.compared_values(g_enable, g_lhs, g_rhs, t, row),
                ) by {
                let values = config.compared_values(g_enable, g_lhs, g_rhs, t, row);
                assert(constraints@[0].1.eval(t, row) == values[0].1);
                assert(constraints@[1].1.eval(t, row) == values[1].1);
            }
            assert(constraints@[0].1.fits(n1));
            assert(constraints@[1].1.fits(n1));
            assert(g_enable.near() && g_lhs.near() && g_rhs.near() ==> constraints@[0].1.near()
                && constraints@[1].1.near());
        }
        create_gate(meta, "lt gate", &constraints);
        let mut j: usize = 0;
        while j < n_bytes
            invariant
                j <= n_bytes,
                config.diff@.len() == n_bytes,
                config.within(n1),
                n1 == advice_phases(*meta).len(),
                advice_phases(*meta) == advice_phases(*old(meta)) + Seq::new(
                    (n_bytes + 1) as nat,
                    |j: int| Phase::First,
                ),
                num_selectors(*meta) == num_selectors(*old(meta)),
                annotations(*meta) == annotations(*old(meta)),
                gates(*meta) == gates(*old(meta)).push(
                    Gate { name: "lt gate"@, constraints: named(constraints@) },
                ),
                lookups(*meta) == lookups(*old(meta)) + range_checks(
                    config.diff@.take(j as int),
                    u8_table,
                ),
            decreases n_bytes - j,
        {
            let ghost before = lookups(*meta);
            let mut pairs: Vec<(Expr, Expr)> = Vec::new();
            pairs.push((Expr::Advice(config.diff[j], 0), Expr::Fixed(u8_table, 0)));
            lookup_any(meta, "range check for u8", &pairs);
            proof {
                assert(pairs@ =~= seq![
                    (Expr::Advice(config.diff@[j as int], 0), Expr::Fixed(u8_table, 0)),
                ]);
                assert(lookups(*meta) =~= lookups(*old(meta)) + range_checks(
                    config.diff@.take(j + 1),
                    u8_table,
                ));
            }
            j += 1;
        }
        proof {
            assert(config.diff@.take(n_bytes as int) =~= config.diff@);
            assert(lookups(*old(meta)) + range_checks(config.diff@.take(0), u8_table)
                =~= lookups(*old(meta)));
        }
        config
    }
}

/// Columns of bytes hold a number below the number of values that the bytes take.
proof fn lemma_bytes_bound(columns: Seq<AdviceColumn>, t: Trace, row: int)
    requires
        forall|k: int| 0 <= k < columns.len() ==> 0 <= (t.advice)(#[trigger] columns[k], row) < 256,
    ensures
        0 <= bytes_value(columns, t, row) < range(columns.len()),
    decreases columns.len(),
{
    if columns.len() > 0 {
        let rest = columns.drop_first();
        assert forall|k: int| 0 <= k < rest.len() implies 0 <= (t.advice)(
            #[trigger] rest[k],
            row,
        ) < 256 by {
            assert(rest[k] == columns[k + 1]);
        }
        lemma_bytes_bound(rest, t, row);
    }
}

/// Columns that hold the low bytes of a number that they have room for hold the number.
proof fn lemma_bytes_of(columns: Seq<AdviceColumn>, number: nat, t: Trace, row: int)
    requires
        number < range(columns.len()),
        forall|k: int|
            0 <= k < columns.len() ==> (t.advice)(#[trigger] columns[k], row) == byte_of(
                number,
                k as nat,
            ),
    ensures
        bytes_value(columns, t, row) == number,
    decreases columns.len(),
{
    if columns.len() > 0 {
        let rest = columns.drop_first();
        assert forall|k: int| 0 <= k < rest.len() implies (t.advice)(#[trigger] rest[k], row)
            == byte_of(number / 256, k as nat) by {
            assert(rest[k] == columns[k + 1]);
            assert(byte_of(number, (k + 1) as nat) == byte_of(number / 256, k as nat));
        }
        lemma_bytes_of(rest, number / 256, t, row);
        assert((t.advice)(columns[0], row) == byte_of(number, 0));
    }
}

/// Where the custom gate of a comparison holds on an enabled row, the difference bytes are bytes,
/// and the compared numbers have as many bytes as the comparison, the comparison bit is one
/// exactly where the left number is less than the right one.
pub proof fn law_comparison_is_sound(
    config: LtConfig,
    enable: Expr,
    lhs: Expr,
    rhs: Expr,
    t: Trace,
    row: int,
    p: int,
)
    requires
        p > 2 * range(config.diff@.len()),
        !enable.vanishes(t, row, p),
        forall|k: int|
            0 <= k < 2 ==> (#[trigger] config.compared(enable, lhs, rhs, t, row, p)[k]).1,
        forall|k: int|
            0 <= k < config.diff@.len() ==> 0 <= (t.advice)(#[trigger] config.diff@[k], row) < 256,
        0 <= (t.advice)(config.lt, row) < p,
        0 <= lhs.eval(t, row) < range(config.diff@.len()),
        0 <= rhs.eval(t, row) < range(config.diff@.len()),
    ensures
        (t.advice)(config.lt, row) == (if lhs.eval(t, row) < rhs.eval(t, row) {
            1int
        } else {
            0int
        }),
{
    let table = config.compared(enable, lhs, rhs, t, row, p);
    let n = config.diff@.len();
    let l = lhs.eval(t, row);
    let r = rhs.eval(t, row);
    let lt = (t.advice)(config.lt, row);
    let d = bytes_value(config.diff@, t, row);
    lemma_bytes_bound(config.diff@, t, row);
    assert(table[0].1);
    assert(table[1].1);
    lemma_same_small(lt, 0, p);
    lemma_same_small(lt, 1, p);
    assert(lt == 0 || lt == 1);
    if lt == 0 {
        assert(lt * range(n) == 0) by (nonlinear_arith)
            requires
                lt == 0,
        ;
    } else {
        assert(lt * range(n) == range(n)) by (nonlinear_arith)
            requires
                lt == 1,
        ;
    }
    lemma_same_small(l - r + lt * range(n), d, p);
}

/// What the assignment of a comparison writes satisfies the custom gate of the comparison, for
/// numbers of as many bytes as the comparison.
pub proof fn law_assigned_comparison_holds(
    config: LtConfig,
    enable: Expr,
    lhs: Expr,
    rhs: Expr,
    t: Trace,
    row: int,
    l: nat,
    r: nat,
)
    requires
        config.diff@.len() <= 8,
        lhs.eval(t, row) == l,
        rhs.eval(t, row) == r,
        l < range(config.diff@.len()),
        r < range(config.diff@.len()),
        (t.advice)(config.lt, row) == LtConfig::bit(l, r),
        forall|k: int|
            0 <= k < config.diff@.len() ==> (t.advice)(#[trigger] config.diff@[k], row) == byte_of(
                LtConfig::difference(config.diff@.len(), l, r),
                k as nat,
            ),
    ensures
        forall|k: int|
            0 <= k < 2 ==> (#[trigger] config.compared(
                enable,
                lhs,
                rhs,
                t,
                row,
                modulus() as int,
            )[k]).1,
{
    let n = config.diff@.len();
    let m = modulus() as int;
    let bit = LtConfig::bit(l, r);
    lemma_range_bound(n);
    if l < r {
        assert(bit * range(n) == range(n)) by (nonlinear_arith)
            requires
                bit == 1,
        ;
    } else {
        assert(bit * range(n) == 0) by (nonlinear_arith)
            requires
                bit == 0,
        ;
    }
    let d = l - r + bit * range(n);
    lemma_small_mod(d as nat, modulus());
    lemma_bytes_of(config.diff@, d as nat, t, row);
    lemma_small_mod(0, modulus());
}

/// An expression within some columns is within more columns.
pub proof fn lemma_fits_more(e: Expr, n: nat, m: nat)
    requires
        e.fits(n),
        n <= m,
    ensures
        e.fits(m),
    decreases e,
{
    match e {
        Expr::Negated(a) => lemma_fits_more(*a, n, m),
        Expr::Sum(a, b) => {
            lemma_fits_more(*a, n, m);
            lemma_fits_more(*b, n, m);
        },
        Expr::Product(a, b) => {
            lemma_fits_more(*a, n, m);
            lemma_fits_more(*b, n, m);
        },
        _ => {},
    }
}

} // verus!
