//! Declares the copy circuit in a constraint system.
use vstd::prelude::*;
use halo2_axiom::plonk::Selector;
use crate::config::{copy_circuit_phases, CopyCircuitConfig, CopyCircuitConfigArgs};
use crate::constraint_builder::{evaluates, states};
use crate::constraint_system::{
    advice_column, advice_column_in_second_phase, annotate_columns, complex_selector, create_gate,
    lookup_any, ConstraintSystem,
};
use crate::constraint_system::{
    advice_phases, annotated, annotations, gates, is_simple, lookups, named, num_selectors,
    selector_index, Gate, Lookup,
};
use crate::expression::{Expr, FixedColumn, Phase, Trace};
use crate::gates::{constraints_fit, looks_up, pairs_fit};
use crate::less_than::{lemma_fits_more, range_checks, LtChip};
use crate::table::{exprs_fit, exprs_near};

verus! {

/// The names of the gates of the copy circuit.
pub open spec fn gate_names() -> Seq<Seq<char>> {
    seq![
        "lt gate"@,
        "lt gate"@,
        "lt gate"@,
        "decode tag"@,
        "verify row"@,
        "Last Step (check value accumulator) Memory => Precompile or Precompile => Memory"@,
        "Last Step (check value accumulator) Memory => Bytecode"@,
        "Last Step (check value accumulator) TxCalldata => Bytecode"@,
        "Last Step (check value accumulator) RlcAcc"@,
        "Last Step (check read and write rlc) Memory => Memory"@,
        "verify step (q_step == 1)"@,
    ]
}

impl CopyCircuitConfig {
    /// What the gates of the copy circuit state of a row, gate by gate.
    pub open spec fn statements(self, challenge: Expr, t: Trace, row: int, p: int) -> Seq<
        Seq<(Seq<char>, bool)>,
    > {
        seq![
            self.addr_compared(t, row, p),
            self.word_index_compared(t, row, p),
            self.pad_and_mask_compared(t, row, p),
            self.decode_tag(t, row, p),
            self.verify_row(t, row, p),
            self.last_value_acc(self.precompile_case(t, row), t, row, p),
            self.last_value_acc(self.memory_to_bytecode_case(t, row), t, row, p),
            self.last_value_acc(self.tx_calldata_to_bytecode_case(t, row), t, row, p),
            self.last_value_acc(self.rlc_acc_case(t, row), t, row, p),
            self.last_rlc(t, row, p),
            self.verify_step(challenge, t, row, p),
        ]
    }

    /// What the constraints of the copy circuit evaluate to on a row, gate by gate.
    pub open spec fn values(self, challenge: Expr, t: Trace, row: int) -> Seq<
        Seq<(Seq<char>, int)>,
    > {
        seq![
            self.addr_compared_values(t, row),
            self.word_index_compared_values(t, row),
            self.pad_and_mask_compared_values(t, row),
            self.decode_tag_values(t, row),
            self.verify_row_values(t, row),
            self.last_value_acc_values(self.precompile_case(t, row), t, row),
            self.last_value_acc_values(self.memory_to_bytecode_case(t, row), t, row),
            self.last_value_acc_values(self.tx_calldata_to_bytecode_case(t, row), t, row),
            self.last_value_acc_values(self.rlc_acc_case(t, row), t, row),
            self.last_rlc_values(t, row),
            self.verify_step_values(challenge, t, row),
        ]
    }

    /// The gates are those of the copy circuit: they have its names, their constraints evaluate on
    /// every row to what its constraints evaluate to, and modulo every number they state of every
    /// row what it states.
    pub open spec fn declares_gates(self, challenge: Expr, added: Seq<Gate>) -> bool {
        &&& added.len() == 11
        &&& forall|k: int| 0 <= k < 11 ==> (#[trigger] added[k]).name == gate_names()[k]
        &&& forall|k: int, t: Trace, row: int|
            0 <= k < 11 ==> #[trigger] evaluates(
                added[k].constraints,
                t,
                row,
                self.values(challenge, t, row)[k],
            )
        &&& forall|k: int, t: Trace, row: int, p: int|
            0 <= k < 11 ==> #[trigger] states(
                added[k].constraints,
                t,
                row,
                p,
                self.statements(challenge, t, row, p)[k],
            )
    }

    /// The lookups are those of the copy circuit: the range checks of its comparisons, and the
    /// lookups of memory words, log words, bytes of code and bytes of call data.
    pub open spec fn declares_lookups(self, u8_table: FixedColumn, added: Seq<Lookup>) -> bool {
        &&& added.len() == 14
        &&& added.take(10) == range_checks(self.addr_lt_addr_end.diff@, u8_table) + range_checks(
            self.is_word_continue.diff@,
            u8_table,
        ) + range_checks(self.non_pad_non_mask.diff@, u8_table)
        &&& added[10].name == "Memory word lookup"@
        &&& added[11].name == "TxLog word lookup"@
        &&& added[12].name == "Bytecode lookup"@
        &&& added[13].name == "Tx calldata lookup"@
        &&& forall|t: Trace, row: int| #[trigger]
            looks_up(
                added[10].pairs,
                t,
                row,
                self.memory_lookup_on(t, row),
                self.memory_lookup(t, row),
                self.rw_table.table_exprs@,
            )
        &&& forall|t: Trace, row: int| #[trigger]
            looks_up(
                added[11].pairs,
                t,
                row,
                self.tx_log_lookup_on(t, row),
                self.tx_log_lookup(t, row),
                self.rw_table.table_exprs@,
            )
        &&& forall|t: Trace, row: int| #[trigger]
            looks_up(
                added[12].pairs,
                t,
                row,
                self.bytecode_lookup_on(t, row),
                self.bytecode_lookup(t, row),
                self.bytecode_table.table_exprs@,
            )
        &&& forall|t: Trace, row: int| #[trigger]
            looks_up(
                added[13].pairs,
                t,
                row,
                self.tx_calldata_lookup_on(t, row),
                self.tx_calldata_lookup(t, row),
                self.tx_table.table_exprs@,
            )
    }

    /// Configures the copy circuit: allocates its columns, constrains its read and write steps,
    /// and looks up what they copy in the tables of transactions, of reads and writes, and of
    /// bytecodes. No cell further than two rows on is referred to, if the tables and the
    /// challenge do not.
    #[verifier::rlimit(100)]
    pub fn new(meta: &mut ConstraintSystem<'_>, args: CopyCircuitConfigArgs) -> (r:
        CopyCircuitConfig)
        requires
            args.valid(advice_phases(*old(meta)).len()),
        ensures
            r.tx_table == args.tx_table,
            r.rw_table == args.rw_table,
            r.bytecode_table == args.bytecode_table,
            r.copy_table == args.copy_table,
            r.q_enable == args.q_enable,
            r.laid_out(advice_phases(*old(meta)).len()),
            selector_index(r.q_step) == num_selectors(*old(meta)),
            !is_simple(r.q_step),
            advice_phases(*final(meta)) == advice_phases(*old(meta)) + copy_circuit_phases(),
            num_selectors(*final(meta)) == num_selectors(*old(meta)) + 1,
            annotations(*final(meta)) == annotated(
                annotated(
                    annotated(
                        annotated(annotations(*old(meta)), args.tx_table.annotations@),
                        args.rw_table.annotations@,
                    ),
                    args.bytecode_table.annotations@,
                ),
                args.copy_table.annotations@,
            ),
            gates(*final(meta)).take(gates(*old(meta)).len() as int) == gates(*old(meta)),
            r.declares_gates(
                args.challenges.keccak_input,
                gates(*final(meta)).skip(gates(*old(meta)).len() as int),
            ),
            lookups(*final(meta)).take(lookups(*old(meta)).len() as int) == lookups(*old(meta)),
            r.declares_lookups(
                args.u8_table,
                lookups(*final(meta)).skip(lookups(*old(meta)).len() as int),
            ),
            args.near() ==> forall|k: int|
                gates(*old(meta)).len() <= k < gates(*final(meta)).len() ==> (#[trigger] gates(
                    *final(meta),
                )[k]).near(),
            args.near() ==> forall|k: int|
                lookups(*old(meta)).len() <= k < lookups(*final(meta)).len() ==> (
                #[trigger] lookups(*final(meta))[k]).near(),
    {
        let ghost n0 = advice_phases(*meta).len();
        let ghost g0 = gates(*meta);
        let ghost l0 = lookups(*meta);
        let q_step = complex_selector(meta);
        let is_last = advice_column(meta);
        assert(advice_phases(*meta)[n0 as int] == Phase::First);
        let value = advice_column_in_second_phase(meta);
        assert(advice_phases(*meta)[n0 as int] == Phase::First);
        let value_word_rlc = advice_column_in_second_phase(meta);
        assert(advice_phases(*meta)[n0 as int] == Phase::First);
        let value_word_rlc_prev = advice_column_in_second_phase(meta);
        assert(advice_phases(*meta)[n0 as int] == Phase::First);
        let rlc_acc_read = advice_column_in_second_phase(meta);
        assert(advice_phases(*meta)[n0 as int] == Phase::First);
        let rlc_acc_write = advice_column_in_second_phase(meta);
        assert(advice_phases(*meta)[n0 as int] == Phase::First);
        let value_acc = advice_column_in_second_phase(meta);
        let is_code = advice_column(meta);
        let is_precompiled = advice_column(meta);
        let is_tx_calldata = advice_column(meta);
        let is_bytecode = advice_column(meta);
        let is_memory = advice_column(meta);
        let is_tx_log = advice_column(meta);
        let is_pad = advice_column(meta);
        let word_index = advice_column(meta);
        let mask = advice_column(meta);
        let front_mask = advice_column(meta);
        annotate_columns(meta, &args.tx_table.annotations);
        annotate_columns(meta, &args.rw_table.annotations);
        annotate_columns(meta, &args.bytecode_table.annotations);
        annotate_columns(meta, &args.copy_table.annotations);
        let copy_table = args.copy_table;
        let u8_table = args.u8_table;
        let addr_lt_addr_end = LtChip::configure(
            meta,
            8,
            Expr::Selector(q_step),
            Expr::Advice(copy_table.addr, 0),
            Expr::Advice(copy_table.src_addr_end, 0),
            u8_table,
        );
        let ghost g1 = gates(*meta);
        let is_word_continue = LtChip::configure(
            meta,
            1,
            Expr::Selector(q_step),
            Expr::Advice(word_index, 0),
            Expr::Constant(31),
            u8_table,
        );
        let ghost g2 = gates(*meta);
        let pad_and_mask = Expr::Sum(
            Box::new(Expr::Advice(is_pad, 0)),
            Box::new(Expr::Advice(mask, 0)),
        );
        assert(pad_and_mask.fits(advice_phases(*meta).len()) && pad_and_mask.near()) by {
            reveal_with_fuel(Expr::fits, 2);
            reveal_with_fuel(Expr::near, 2);
        }
        let non_pad_non_mask = LtChip::configure(
            meta,
            1,
            Expr::Selector(q_step),
            pad_and_mask,
            Expr::Constant(1),
            u8_table,
        );
        let ghost g3 = gates(*meta);
        let ghost l3 = lookups(*meta);
        let config = CopyCircuitConfig {
            q_step,
            is_last,
            value,
            value_word_rlc,
            value_word_rlc_prev,
            rlc_acc_read,
            rlc_acc_write,
            word_index,
            mask,
            front_mask,
            value_acc,
            is_pad,
            is_code,
            is_precompiled,
            is_tx_calldata,
            is_bytecode,
            is_memory,
            is_tx_log,
            q_enable: args.q_enable,
            addr_lt_addr_end,
            is_word_continue,
            non_pad_non_mask,
            copy_table,
            tx_table: args.tx_table,
            rw_table: args.rw_table,
            bytecode_table: args.bytecode_table,
        };
        let challenge = args.challenges.keccak_input;
        let ghost n1 = advice_phases(*meta).len();
        proof {
            assert(advice_phases(*meta) =~= advice_phases(*old(meta)) + copy_circuit_phases());
            assert(n1 == n0 + 30);
            lemma_fits_more(challenge, n0, n1);
            lemma_exprs_fit_more(config.tx_table.table_exprs@, n0, n1);
            lemma_exprs_fit_more(config.rw_table.table_exprs@, n0, n1);
            lemma_exprs_fit_more(config.bytecode_table.table_exprs@, n0, n1);
            assert(config.non_pad_non_mask.diff@[0].index == n0 + 29);
            assert(config.laid_out(n0));
            assert(config.within(n1));
            assert(l3 =~= l0 + (range_checks(config.addr_lt_addr_end.diff@, u8_table)
                + range_checks(config.is_word_continue.diff@, u8_table) + range_checks(
                config.non_pad_non_mask.diff@,
                u8_table,
            )));
            assert(g3.take(g0.len() as int) =~= g0);
            assert(g3[g0.len() as int] == g1.last());
            assert(g3[g0.len() as int + 1] == g2.last());
            assert(g3[g0.len() as int + 2] == g3.last());
        }
        config.create_gates(meta, &challenge);
        config.create_lookups(meta);
        proof {
            let ga = gates(*meta).skip(g0.len() as int);
            assert(gates(*meta).take(g0.len() as int) =~= g0);
            assert(ga[0] == g1.last());
            assert(ga[1] == g2.last());
            assert(ga[2] == g3.last());
            let added = gates(*meta).skip(g3.len() as int);
            assert forall|k: int| 3 <= k < 11 implies ga[k] == #[trigger] added[k - 3] by {}
            assert forall|k: int| 0 <= k < 11 implies (#[trigger] ga[k]).name
                == gate_names()[k] by {
                if k >= 3 {
                    assert(ga[k] == added[k - 3]);
                }
            }
            assert forall|k: int, t: Trace, row: int|
                0 <= k < 11 implies #[trigger] evaluates(
                ga[k].constraints,
                t,
                row,
                config.values(challenge, t, row)[k],
            ) by {
                if k >= 3 {
                    assert(ga[k] == added[k - 3]);
                    assert(evaluates(
                        added[k - 3].constraints,
                        t,
                        row,
                        config.values(challenge, t, row)[k - 3 + 3],
                    ));
                }
            }
            assert forall|k: int, t: Trace, row: int, p: int|
                0 <= k < 11 implies #[trigger] states(
                ga[k].constraints,
                t,
                row,
                p,
                config.statements(challenge, t, row, p)[k],
            ) by {
                if k >= 3 {
                    assert(ga[k] == added[k - 3]);
                    assert(states(
                        added[k - 3].constraints,
                        t,
                        row,
                        p,
                        config.statements(challenge, t, row, p)[k - 3 + 3],
                    ));
                }
            }
            assert forall|k: int|
                g0.len() <= k < gates(*meta).len() && args.near() implies (#[trigger] gates(
                *meta,
            )[k]).near() by {
                assert(gates(*meta)[k] == ga[k - g0.len()]);
                assert(g1.last().near() && g2.last().near() && g3.last().near());
            }
            let la = lookups(*meta).skip(l0.len() as int);
            assert(lookups(*meta).take(l0.len() as int) =~= l0);
            assert(la.take(10) =~= l3.skip(l0.len() as int)) by {
                assert forall|k: int| 0 <= k < 10 implies la.take(10)[k] == l3.skip(
                    l0.len() as int,
                )[k] by {
                    assert(lookups(*meta).take(l3.len() as int)[l0.len() + k] == l3[l0.len() + k]);
                }
            }
            assert(l3.skip(l0.len() as int) =~= range_checks(
                config.addr_lt_addr_end.diff@,
                u8_table,
            ) + range_checks(config.is_word_continue.diff@, u8_table) + range_checks(
                config.non_pad_non_mask.diff@,
                u8_table,
            ));
            assert(la.len() == 14);
            assert(la[10] == lookups(*meta)[l3.len() as int]);
            assert(la[11] == lookups(*meta)[l3.len() as int + 1]);
            assert(la[12] == lookups(*meta)[l3.len() as int + 2]);
            assert(la[13] == lookups(*meta)[l3.len() as int + 3]);
            assert forall|k: int|
                l0.len() <= k < lookups(*meta).len() && args.near() implies (#[trigger] lookups(
                *meta,
            )[k]).near() by {
                if k < l3.len() {
                    assert(lookups(*meta)[k] == la.take(10)[k - l0.len()]);
                }
            }
        }
        config
    }

    /// Creates the gates on the rows of the copy circuit, after those of its comparisons.
    #[verifier::rlimit(60)]
    fn create_gates(&self, meta: &mut ConstraintSystem<'_>, challenge: &Expr)
        requires
            self.within(advice_phases(*old(meta)).len()),
            challenge.fits(advice_phases(*old(meta)).len()),
        ensures
            advice_phases(*final(meta)) == advice_phases(*old(meta)),
            num_selectors(*final(meta)) == num_selectors(*old(meta)),
            annotations(*final(meta)) == annotations(*old(meta)),
            lookups(*final(meta)) == lookups(*old(meta)),
            gates(*final(meta)).len() == gates(*old(meta)).len() + 8,
            gates(*final(meta)).take(gates(*old(meta)).len() as int) == gates(*old(meta)),
            forall|k: int|
                0 <= k < 8 ==> (#[trigger] gates(*final(meta)).skip(
                    gates(*old(meta)).len() as int,
                )[k]).name == gate_names()[k + 3],
            forall|k: int, t: Trace, row: int|
                0 <= k < 8 ==> #[trigger] evaluates(
                    gates(*final(meta)).skip(gates(*old(meta)).len() as int)[k].constraints,
                    t,
                    row,
                    self.values(*challenge, t, row)[k + 3],
                ),
            forall|k: int, t: Trace, row: int, p: int|
                0 <= k < 8 ==> #[trigger] states(
                    gates(*final(meta)).skip(gates(*old(meta)).len() as int)[k].constraints,
                    t,
                    row,
                    p,
                    self.statements(*challenge, t, row, p)[k + 3],
                ),
            challenge.near() ==> forall|k: int|
                gates(*old(meta)).len() <= k < gates(*final(meta)).len() ==> (#[trigger] gates(
                    *final(meta),
                )[k]).near(),
    {
        let ghost n = advice_phases(*meta).len();
        let ghost g0 = gates(*meta);
        let c0 = self.decode_tag_gate();
        assert(constraints_fit(c0@, n));
        create_gate(meta, "decode tag", &c0);
        let c1 = self.verify_row_gate();
        assert(constraints_fit(c1@, n));
        create_gate(meta, "verify row", &c1);
        let c2 = self.last_precompile_gate();
        assert(constraints_fit(c2@, n));
        create_gate(
            meta,
            "Last Step (check value accumulator) Memory => Precompile or Precompile => Memory",
            &c2,
        );
        let c3 = self.last_memory_to_bytecode_gate();
        assert(constraints_fit(c3@, n));
        create_gate(meta, "Last Step (check value accumulator) Memory => Bytecode", &c3);
        let c4 = self.last_tx_calldata_to_bytecode_gate();
        assert(constraints_fit(c4@, n));
        create_gate(meta, "Last Step (check value accumulator) TxCalldata => Bytecode", &c4);
        let c5 = self.last_rlc_acc_gate();
        assert(constraints_fit(c5@, n));
        create_gate(meta, "Last Step (check value accumulator) RlcAcc", &c5);
        let c6 = self.last_rlc_gate();
        assert(constraints_fit(c6@, n));
        create_gate(meta, "Last Step (check read and write rlc) Memory => Memory", &c6);
        let c7 = self.verify_step_gate(challenge);
        assert(constraints_fit(c7@, n));
        create_gate(meta, "verify step (q_step == 1)", &c7);
        proof {
            let added = gates(*meta).skip(g0.len() as int);
            assert(gates(*meta).take(g0.len() as int) =~= g0);
            assert(added[0].constraints == named(c0@));
            assert(added[1].constraints == named(c1@));
            assert(added[2].constraints == named(c2@));
            assert(added[3].constraints == named(c3@));
            assert(added[4].constraints == named(c4@));
            assert(added[5].constraints == named(c5@));
            assert(added[6].constraints == named(c6@));
            assert(added[7].constraints == named(c7@));
            assert(challenge.near() ==> forall|k: int|
                0 <= k < 8 ==> (#[trigger] added[k]).near());
            assert forall|k: int|
                g0.len() <= k < gates(*meta).len() && challenge.near() implies (#[trigger] gates(
                *meta,
            )[k]).near() by {
                assert(gates(*meta)[k] == added[k - g0.len()]);
            }
            assert forall|k: int, t: Trace, row: int|
                0 <= k < 8 implies #[trigger] evaluates(
                added[k].constraints,
                t,
                row,
                self.values(*challenge, t, row)[k + 3],
            ) by {
                let values = self.values(*challenge, t, row)[k + 3];
                if k == 0 {
                    assert(evaluates(named(c0@), t, row, values));
                } else if k == 1 {
                    assert(evaluates(named(c1@), t, row, values));
                } else if k == 2 {
                    assert(evaluates(named(c2@), t, row, values));
                } else if k == 3 {
                    assert(evaluates(named(c3@), t, row, values));
                } else if k == 4 {
                    assert(evaluates(named(c4@), t, row, values));
                } else if k == 5 {
                    assert(evaluates(named(c5@), t, row, values));
                } else if k == 6 {
                    assert(evaluates(named(c6@), t, row, values));
                } else {
                    assert(evaluates(named(c7@), t, row, values));
                }
            }
            assert forall|k: int, t: Trace, row: int, p: int|
                0 <= k < 8 implies #[trigger] states(
                added[k].constraints,
                t,
                row,
                p,
                self.statements(*challenge, t, row, p)[k + 3],
            ) by {
                let table = self.statements(*challenge, t, row, p)[k + 3];
                if k == 0 {
                    assert(states(named(c0@), t, row, p, table));
                } else if k == 1 {
                    assert(states(named(c1@), t, row, p, table));
                } else if k == 2 {
                    assert(states(named(c2@), t, row, p, table));
                } else if k == 3 {
                    assert(states(named(c3@), t, row, p, table));
                } else if k == 4 {
                    assert(states(named(c4@), t, row, p, table));
                } else if k == 5 {
                    assert(states(named(c5@), t, row, p, table));
                } else if k == 6 {
                    assert(states(named(c6@), t, row, p, table));
                } else {
                    assert(states(named(c7@), t, row, p, table));
                }
            }
        }
    }

    /// Creates the lookups of what is copied.
    fn create_lookups(&self, meta: &mut ConstraintSystem<'_>)
        requires
            self.within(advice_phases(*old(meta)).len()),
        ensures
            advice_phases(*final(meta)) == advice_phases(*old(meta)),
            num_selectors(*final(meta)) == num_selectors(*old(meta)),
            annotations(*final(meta)) == annotations(*old(meta)),
            gates(*final(meta)) == gates(*old(meta)),
            lookups(*final(meta)).len() == lookups(*old(meta)).len() + 4,
            lookups(*final(meta)).take(lookups(*old(meta)).len() as int) == lookups(*old(meta)),
            ({
                let n = lookups(*old(meta)).len() as int;
                let all = lookups(*final(meta));
                &&& all[n].name == "Memory word lookup"@
                &&& all[n + 1].name == "TxLog word lookup"@
                &&& all[n + 2].name == "Bytecode lookup"@
                &&& all[n + 3].name == "Tx calldata lookup"@
                &&& forall|t: Trace, row: int| #[trigger]
                    looks_up(
                        all[n].pairs,
                        t,
                        row,
                        self.memory_lookup_on(t, row),
                        self.memory_lookup(t, row),
                        self.rw_table.table_exprs@,
                    )
                &&& forall|t: Trace, row: int| #[trigger]
                    looks_up(
                        all[n + 1].pairs,
                        t,
                        row,
                        self.tx_log_lookup_on(t, row),
                        self.tx_log_lookup(t, row),
                        self.rw_table.table_exprs@,
                    )
                &&& forall|t: Trace, row: int| #[trigger]
                    looks_up(
                        all[n + 2].pairs,
                        t,
                        row,
                        self.bytecode_lookup_on(t, row),
                        self.bytecode_lookup(t, row),
                        self.bytecode_table.table_exprs@,
                    )
                &&& forall|t: Trace, row: int| #[trigger]
                    looks_up(
                        all[n + 3].pairs,
                        t,
                        row,
                        self.tx_calldata_lookup_on(t, row),
                        self.tx_calldata_lookup(t, row),
                        self.tx_table.table_exprs@,
                    )
                &&& exprs_near(self.rw_table.table_exprs@) ==> all[n].near() && all[n + 1].near()
                &&& exprs_near(self.bytecode_table.table_exprs@) ==> all[n + 2].near()
                &&& exprs_near(self.tx_table.table_exprs@) ==> all[n + 3].near()
            }),
    {
        let ghost n = advice_phases(*meta).len();
        let ghost l0 = lookups(*meta);
        let p0 = self.memory_lookup_pairs();
        assert(pairs_fit(p0@, n));
        lookup_any(meta, "Memory word lookup", &p0);
        let p1 = self.tx_log_lookup_pairs();
        assert(pairs_fit(p1@, n));
        lookup_any(meta, "TxLog word lookup", &p1);
        let p2 = self.bytecode_lookup_pairs();
        assert(pairs_fit(p2@, n));
        lookup_any(meta, "Bytecode lookup", &p2);
        let p3 = self.tx_calldata_lookup_pairs();
        assert(pairs_fit(p3@, n));
        lookup_any(meta, "Tx calldata lookup", &p3);
        assert(lookups(*meta).take(l0.len() as int) =~= l0);
    }
}

/// Expressions within some columns are within more columns.
proof fn lemma_exprs_fit_more(exprs: Seq<Expr>, n: nat, m: nat)
    requires
        exprs_fit(exprs, n),
        n <= m,
    ensures
        exprs_fit(exprs, m),
{
    assert forall|k: int| 0 <= k < exprs.len() implies (#[trigger] exprs[k]).fits(m) by {
        lemma_fits_more(exprs[k], n, m);
    }
}

} // verus!
