//! Proves copies with the mock prover of `halo2_axiom`.
use copy_circuit::assign::{CopyCircuitRow, CopyRow, CopyTableRow};
use copy_circuit::binary_number::BinaryNumberConfig;
use copy_circuit::circuit::{CopyCircuit, ExternalData};
use copy_circuit::config::{CopyCircuitConfig, CopyCircuitConfigArgs};
use copy_circuit::constraint_system::{Annotation, ConstraintSystem};
use copy_circuit::copy_event::{CopyBytes, CopyDataType, CopyEvent, PrecompileCalls};
use copy_circuit::expression::{AdviceColumn, Expr, FixedColumn, Phase};
use copy_circuit::field::Scalar;
use copy_circuit::region::{Assignment, Region};
use copy_circuit::table::{BytecodeTable, Challenges, CopyTable, RwTable, TxTable};
use halo2_axiom::circuit::{Cell, Layouter, SimpleFloorPlanner, Value};
use halo2_axiom::dev::{metadata, MockProver};
use halo2_axiom::halo2curves::bn256::Fr;
use halo2_axiom::plonk::{self, Advice, Any, Circuit, Column, Error, Fixed, SecondPhase};

const MEMORY_TAG: u64 = 9;
const TX_LOG_TAG: u64 = 11;
const CALL_DATA_TAG: u64 = 7;
const BYTE_TAG: u64 = 2;

/// The factor of the random linear combination in a test.
#[derive(Clone, Copy, Default)]
struct Factor(u64);

#[derive(Clone)]
struct Config {
    copy: CopyCircuitConfig,
    advice: Vec<Column<Advice>>,
    q_enable: Column<Fixed>,
    u8_table: Column<Fixed>,
    tx: Vec<Column<Fixed>>,
    rw: Vec<Column<Fixed>>,
    bytecode: Vec<Column<Fixed>>,
}

#[derive(Clone)]
struct Copies {
    factor: Factor,
    events: Vec<CopyEvent>,
    rows: Vec<Vec<CopyRow>>,
    max_copy_rows: usize,
    rw: Vec<Vec<u64>>,
    tx: Vec<Vec<u64>>,
    bytecode: Vec<Vec<u64>>,
}

fn own(column: Column<Advice>, phase: Phase) -> AdviceColumn {
    AdviceColumn { index: column.index(), phase }
}

fn exprs(columns: &[Column<Fixed>]) -> Vec<Expr> {
    columns.iter().map(|c| Expr::Fixed(FixedColumn { index: c.index() }, 0)).collect()
}

fn note(column: impl Into<Column<Any>>, name: &'static str) -> Annotation {
    Annotation { cell: Cell { row_offset: 0, column: column.into() }, name }
}

fn configure(meta: &mut plonk::ConstraintSystem<Fr>, factor: Factor) -> Config {
    let copy_head = meta.advice_column();
    let is_first = own(copy_head, Phase::First);
    let mut first = || own(meta.advice_column(), Phase::First);
    let id = first();
    let addr = first();
    let src_addr_end = first();
    let bytes_left = first();
    let real_bytes_left = first();
    let rw_counter = first();
    let rwc_inc_left = first();
    let tag = BinaryNumberConfig { bit_8: first(), bit_4: first(), bit_2: first(), bit_1: first() };
    let rlc_acc = own(meta.advice_column_in(SecondPhase), Phase::Second);
    let copy_table = CopyTable {
        is_first,
        id,
        addr,
        src_addr_end,
        bytes_left,
        real_bytes_left,
        rlc_acc,
        rw_counter,
        rwc_inc_left,
        tag,
        annotations: vec![note(copy_head, "COPY_is_first")],
    };
    let q_enable = meta.fixed_column();
    let u8_table = meta.fixed_column();
    let tx: Vec<_> = (0..5).map(|_| meta.fixed_column()).collect();
    let rw: Vec<_> = (0..12).map(|_| meta.fixed_column()).collect();
    let bytecode: Vec<_> = (0..6).map(|_| meta.fixed_column()).collect();
    let args = CopyCircuitConfigArgs {
        tx_table: TxTable {
            table_exprs: exprs(&tx),
            annotations: vec![note(tx[0], "TX_id"), note(tx[1], "TX_tag")],
            call_data_tag: CALL_DATA_TAG,
        },
        rw_table: RwTable {
            table_exprs: exprs(&rw),
            annotations: vec![note(rw[3], "an earlier name"), note(rw[3], "RW_tag")],
            memory_tag: MEMORY_TAG,
            tx_log_tag: TX_LOG_TAG,
        },
        bytecode_table: BytecodeTable {
            table_exprs: exprs(&bytecode),
            annotations: vec![note(bytecode[5], "BYTECODE_value")],
            byte_tag: BYTE_TAG,
        },
        copy_table,
        q_enable: FixedColumn { index: q_enable.index() },
        u8_table: FixedColumn { index: u8_table.index() },
        challenges: Challenges { keccak_input: Expr::Constant(factor.0) },
    };
    let copy = CopyCircuitConfig::new(&mut ConstraintSystem { inner: &mut *meta }, args);
    // A column is known by its place and phase, so that equal handles come from another system.
    let mut same: plonk::ConstraintSystem<Fr> = plonk::ConstraintSystem::default();
    let advice = meta
        .advice_column_phase()
        .into_iter()
        .map(|phase| match phase {
            0 => same.advice_column(),
            _ => same.advice_column_in(SecondPhase),
        })
        .collect();
    Config { copy, advice, q_enable, u8_table, tx, rw, bytecode }
}

fn fr(s: &Scalar) -> Fr {
    Fr::from_raw(s.to_limbs())
}

impl Circuit<Fr> for Copies {
    type Config = Config;
    type FloorPlanner = SimpleFloorPlanner;
    type Params = Factor;

    fn without_witnesses(&self) -> Self {
        self.clone()
    }

    fn params(&self) -> Factor {
        self.factor
    }

    fn configure_with_params(meta: &mut plonk::ConstraintSystem<Fr>, factor: Factor) -> Config {
        configure(meta, factor)
    }

    fn configure(meta: &mut plonk::ConstraintSystem<Fr>) -> Config {
        configure(meta, Factor(1))
    }

    fn synthesize(&self, config: Config, mut layouter: impl Layouter<Fr>) -> Result<(), Error> {
        let circuit: CopyCircuit<(), (), ()> = CopyCircuit::new_with_external_data(
            self.events.clone(),
            self.max_copy_rows,
            ExternalData::default(),
        );
        let mut log = Region::new();
        circuit.synthesize_sub(&config.copy, &self.rows, &mut log);
        layouter.assign_region(
            || "copies",
            |mut region| {
                for byte in 0..256 {
                    region.assign_fixed(config.u8_table, byte, Fr::from(byte as u64));
                }
                for (columns, table) in [
                    (&config.tx, &self.tx),
                    (&config.rw, &self.rw),
                    (&config.bytecode, &self.bytecode),
                ] {
                    for (offset, row) in table.iter().enumerate() {
                        for (column, value) in columns.iter().zip(row) {
                            region.assign_fixed(*column, offset, Fr::from(*value));
                        }
                    }
                }
                for assignment in &log.assignments {
                    match assignment {
                        Assignment::Name(column, name) => {
                            region.name_column(|| *name, config.advice[column.index]);
                        }
                        Assignment::Advice(column, offset, value, _) => {
                            let value = match value {
                                Some(s) => Value::known(fr(s)),
                                None => Value::unknown(),
                            };
                            region.assign_advice(
                                config.advice[column.index],
                                *offset,
                                value,
                            );
                        }
                        Assignment::Fixed(column, offset, value, _) => {
                            assert_eq!(column.index, config.q_enable.index());
                            region.assign_fixed(config.q_enable, *offset, fr(value));
                        }
                        Assignment::Enable(selector, offset) => {
                            selector.enable(&mut region, *offset)?;
                        }
                    }
                }
                Ok(())
            },
        )
    }
}

/// A byte that is copied, and how its row is marked.
#[derive(Clone, Copy)]
struct Byte {
    value: u64,
    is_pad: u64,
    mask: u64,
    front_mask: u64,
}

fn plain(values: &[u64]) -> Vec<Byte> {
    values.iter().map(|&value| Byte { value, is_pad: 0, mask: 0, front_mask: 0 }).collect()
}

/// One end of a copy.
#[derive(Clone, Copy)]
struct End {
    data_type: CopyDataType,
    id: u64,
    addr: u64,
}

fn number(x: u64) -> Option<Scalar> {
    Some(Scalar::from_u64(x))
}

fn event_rows(src: End, dst: End, src_addr_end: u64, bytes: &[Byte], factor: u64) -> Vec<CopyRow> {
    let both_memory =
        src.data_type == CopyDataType::Memory && dst.data_type == CopyDataType::Memory;
    let mut accs: Vec<u64> = Vec::new();
    for (j, byte) in bytes.iter().enumerate() {
        let acc = if j == 0 {
            byte.value * (1 - byte.mask)
        } else if bytes[j - 1].is_pad == 0 && byte.mask == 0 {
            accs[j - 1] * factor + byte.value
        } else {
            accs[j - 1]
        };
        accs.push(acc);
    }
    let rlc_acc = *accs.last().unwrap();
    let mut left: u64 = bytes.iter().map(|b| 1 - b.mask).sum();
    let mut rows = Vec::new();
    let mut advanced = 0;
    for (j, byte) in bytes.iter().enumerate() {
        let word = j as u64 / 32;
        for is_read in [true, false] {
            let end = if is_read { src } else { dst };
            let rw_counter = if both_memory {
                5 + 2 * word + u64::from(!is_read)
            } else {
                5 + word
            };
            if !is_read {
                left -= 1 - byte.mask;
            }
            rows.push(CopyRow {
                tag: end.data_type,
                table: CopyTableRow {
                    is_first: number(u64::from(j == 0 && is_read)),
                    id: number(end.id),
                    addr: number(end.addr + advanced),
                    src_addr_end: number(src_addr_end),
                    bytes_left: number((bytes.len() - j) as u64),
                    real_bytes_left: number(left),
                    rlc_acc: number(rlc_acc),
                    rw_counter: number(rw_counter),
                    rwc_inc_left: number(100 - rw_counter),
                },
                circuit: CopyCircuitRow {
                    is_last: number(u64::from(j + 1 == bytes.len() && !is_read)),
                    value: number(byte.value),
                    value_word_rlc: number(1000 + word),
                    value_word_rlc_prev: number(2000 + word),
                    rlc_acc_read: number(accs[j]),
                    rlc_acc_write: number(accs[j]),
                    value_acc: number(accs[j]),
                    is_pad: number(if is_read { byte.is_pad } else { 0 }),
                    is_code: number(u64::from(end.data_type == CopyDataType::Bytecode)),
                    mask: number(byte.mask),
                    front_mask: number(byte.front_mask),
                    word_index: number(j as u64 % 32),
                },
            });
        }
        advanced += 1 - byte.front_mask;
    }
    rows
}

fn low(value: Option<Scalar>) -> u64 {
    value.unwrap().to_limbs()[0]
}

/// A circuit of copies, with the tables that its rows are looked up in.
fn copies(copied: &[(End, End, u64, Vec<Byte>)], factor: u64, max_copy_rows: usize) -> Copies {
    let mut r = Copies {
        factor: Factor(factor),
        events: Vec::new(),
        rows: Vec::new(),
        max_copy_rows,
        rw: vec![vec![0; 12]],
        tx: vec![vec![0; 5]],
        bytecode: vec![vec![0; 6]],
    };
    for (src, dst, src_addr_end, bytes) in copied {
        let rows = event_rows(*src, *dst, *src_addr_end, bytes, factor);
        for (index, row) in rows.iter().enumerate() {
            let (t, c) = (&row.table, &row.circuit);
            let ends_word = (index / 2) % 32 == 31;
            let is_plain = low(c.is_pad) + low(c.mask) == 0;
            if ends_word && row.tag == CopyDataType::Memory {
                r.rw.push(vec![
                    1,
                    low(t.rw_counter),
                    (index % 2) as u64,
                    MEMORY_TAG,
                    low(t.id),
                    low(t.addr) - 31,
                    0,
                    0,
                    low(c.value_word_rlc),
                    low(c.value_word_rlc_prev),
                    0,
                    0,
                ]);
            }
            if ends_word && row.tag == CopyDataType::TxLog {
                r.rw.push(vec![
                    1,
                    low(t.rw_counter),
                    1,
                    TX_LOG_TAG,
                    low(t.id),
                    low(t.addr) - 31,
                    0,
                    0,
                    low(c.value_word_rlc),
                    0,
                    0,
                    0,
                ]);
            }
            if is_plain && row.tag == CopyDataType::Bytecode {
                r.bytecode.push(vec![
                    1,
                    low(t.id),
                    BYTE_TAG,
                    low(t.addr),
                    low(c.is_code),
                    low(c.value),
                ]);
            }
            if is_plain && row.tag == CopyDataType::TxCalldata {
                r.tx.push(vec![1, low(t.id), CALL_DATA_TAG, low(t.addr), low(c.value)]);
            }
        }
        r.events.push(CopyEvent {
            src_addr_end: *src_addr_end,
            copy_bytes: CopyBytes {
                bytes: bytes.iter().map(|b| (b.value as u8, false, b.mask == 1)).collect(),
            },
        });
        r.rows.push(rows);
    }
    r
}

fn end(data_type: CopyDataType, id: u64, addr: u64) -> End {
    End { data_type, id, addr }
}

/// What the mock prover finds wrong, empty where it finds nothing.
fn failures(c: &Copies) -> String {
    match MockProver::run(9, c, vec![]).unwrap().verify() {
        Ok(()) => String::new(),
        Err(errors) => format!("{errors:?}"),
    }
}

fn calldata_to_accumulator() -> Copies {
    copies(
        &[(
            end(CopyDataType::TxCalldata, 3, 64),
            end(CopyDataType::RlcAcc, 8, 0),
            70,
            plain(&[17, 250, 3]),
        )],
        256,
        12,
    )
}

fn memory_to_memory() -> Copies {
    let values: Vec<u64> = (0..64).map(|k| (k * 7) % 256).collect();
    copies(
        &[(
            end(CopyDataType::Memory, 3, 64),
            end(CopyDataType::Memory, 4, 128),
            640,
            plain(&values),
        )],
        1,
        140,
    )
}

fn memory_to_log() -> Copies {
    let values: Vec<u64> = (0..32).collect();
    copies(
        &[(
            end(CopyDataType::Memory, 3, 64),
            end(CopyDataType::TxLog, 4, 128),
            640,
            plain(&values),
        )],
        1,
        70,
    )
}

fn calldata_to_bytecode() -> Copies {
    copies(
        &[(
            end(CopyDataType::TxCalldata, 3, 64),
            end(CopyDataType::Bytecode, 8, 0),
            70,
            plain(&[96, 1, 255, 0]),
        )],
        256,
        10,
    )
}

#[test]
fn a_copy_of_call_data_to_an_accumulator_is_proved() {
    assert_eq!(failures(&calldata_to_accumulator()), "");
}

#[test]
fn a_copy_of_two_memory_words_is_proved() {
    assert_eq!(failures(&memory_to_memory()), "");
}

#[test]
fn a_copy_of_a_memory_word_to_a_log_is_proved() {
    assert_eq!(failures(&memory_to_log()), "");
}

#[test]
fn a_copy_of_call_data_to_bytecode_fills_the_smallest_circuit() {
    assert_eq!(failures(&calldata_to_bytecode()), "");
}

#[test]
fn copies_of_all_kinds_are_proved_one_after_the_other() {
    let memory = end(CopyDataType::Memory, 3, 64);
    let contracts = [
        PrecompileCalls::Ecrecover,
        PrecompileCalls::Sha256,
        PrecompileCalls::Ripemd160,
        PrecompileCalls::Identity,
        PrecompileCalls::Modexp,
        PrecompileCalls::Bn128Add,
        PrecompileCalls::Bn128Mul,
        PrecompileCalls::Bn128Pairing,
        PrecompileCalls::Blake2F,
    ];
    let mut copied = vec![
        (memory, end(CopyDataType::Bytecode, 5, 0), 640, plain(&[96, 1])),
        (memory, end(CopyDataType::RlcAcc, 5, 0), 640, plain(&[255])),
        (end(CopyDataType::Bytecode, 9, 2), memory, 640, plain(&[1, 2, 3])),
    ];
    for contract in contracts {
        let there = end(CopyDataType::Precompile(contract), 6, 0);
        copied.push((memory, there, 640, plain(&[4, 5])));
        copied.push((there, memory, 640, plain(&[6])));
    }
    assert_eq!(failures(&copies(&copied, 256, 80)), "");
}

#[test]
fn a_read_beyond_the_end_of_the_source_is_padding() {
    let bytes = vec![
        Byte { value: 8, is_pad: 0, mask: 0, front_mask: 0 },
        Byte { value: 9, is_pad: 0, mask: 0, front_mask: 0 },
        Byte { value: 0, is_pad: 1, mask: 0, front_mask: 0 },
        Byte { value: 0, is_pad: 1, mask: 0, front_mask: 0 },
    ];
    let src = end(CopyDataType::TxCalldata, 3, 64);
    let dst = end(CopyDataType::RlcAcc, 8, 0);
    assert_eq!(failures(&copies(&[(src, dst, 66, bytes.clone())], 256, 12)), "");
    let wrong = failures(&copies(&[(src, dst, 67, bytes)], 256, 12));
    assert!(wrong.contains("is_pad == 1 - (src_addr < src_addr_end) for read row"));
}

#[test]
fn masked_bytes_complete_a_memory_word() {
    let bytes: Vec<Byte> = (0..32)
        .map(|k| Byte {
            value: k,
            is_pad: 0,
            mask: u64::from(k < 3 || k >= 30),
            front_mask: u64::from(k < 3),
        })
        .collect();
    let src = end(CopyDataType::Memory, 3, 64);
    let dst = end(CopyDataType::Memory, 4, 128);
    assert_eq!(failures(&copies(&[(src, dst, 640, bytes)], 1, 70)), "");
}

#[test]
fn no_copy_at_all_is_proved() {
    assert_eq!(failures(&copies(&[], 256, 2)), "");
    assert_eq!(failures(&copies(&[], 256, 21)), "");
}

/// Changes a circuit that is proved, and expects a constraint or lookup to fail.
fn assert_fails(mut c: Copies, change: impl Fn(&mut Vec<CopyRow>), name: &str) {
    assert_eq!(failures(&c), "");
    change(&mut c.rows[0]);
    let found = failures(&c);
    assert!(found.contains(name), "{name} is not in {found}");
}

#[test]
fn is_first_must_be_boolean() {
    let change = |rows: &mut Vec<CopyRow>| rows[0].table.is_first = number(2);
    assert_fails(calldata_to_accumulator(), change, "is_first is boolean");
}

#[test]
fn is_last_must_be_boolean() {
    let change = |rows: &mut Vec<CopyRow>| rows[5].circuit.is_last = number(2);
    assert_fails(calldata_to_accumulator(), change, "is_last is boolean");
}

#[test]
fn mask_must_be_boolean() {
    let change = |rows: &mut Vec<CopyRow>| rows[0].circuit.mask = number(2);
    assert_fails(calldata_to_accumulator(), change, "mask is boolean");
}

#[test]
fn front_mask_must_be_boolean() {
    let change = |rows: &mut Vec<CopyRow>| rows[4].circuit.front_mask = number(2);
    assert_fails(calldata_to_accumulator(), change, "front_mask is boolean");
}

#[test]
fn a_write_row_is_not_the_first() {
    let change = |rows: &mut Vec<CopyRow>| rows[1].table.is_first = number(1);
    assert_fails(calldata_to_accumulator(), change, "is_first == 0 when q_step == 0");
}

#[test]
fn a_read_row_is_not_the_last() {
    let change = |rows: &mut Vec<CopyRow>| rows[2].circuit.is_last = number(1);
    assert_fails(calldata_to_accumulator(), change, "is_last == 0 when q_step == 1");
}

#[test]
fn the_word_index_grows_within_a_word() {
    let change = |rows: &mut Vec<CopyRow>| rows[3].circuit.word_index = number(7);
    assert_fails(calldata_to_accumulator(), change, "word_index[0] + 1 == word_index[2]");
}

#[test]
fn the_word_index_starts_again_after_a_word() {
    let change = |rows: &mut Vec<CopyRow>| rows[65].circuit.word_index = number(1);
    assert_fails(memory_to_memory(), change, "word_index[2] == 0");
    let change = |rows: &mut Vec<CopyRow>| rows[63].circuit.word_index = number(30);
    assert_fails(memory_to_memory(), change, "word_index[0] == 31");
}

#[test]
fn the_word_index_is_compared_with_the_last_index() {
    let change = |rows: &mut Vec<CopyRow>| rows[0].circuit.word_index = number(5);
    assert_fails(memory_to_memory(), change, "lhs - rhs + lt * range == diff");
}

#[test]
fn the_read_write_counter_ends_at_the_same() {
    let change = |rows: &mut Vec<CopyRow>| rows[1].table.rwc_inc_left = number(7);
    assert_fails(
        memory_to_memory(),
        change,
        "rows[0].rw_counter + rows[0].rwc_inc_left == rows[1].rw_counter + rows[1].rwc_inc_left",
    );
}

#[test]
fn the_read_write_counter_alternates_within_a_word() {
    let change = |rows: &mut Vec<CopyRow>| {
        rows[1].table.rw_counter = number(7);
        rows[1].table.rwc_inc_left = number(93);
    };
    assert_fails(memory_to_memory(), change, "rows[0].rw_counter + diff == rows[1].rw_counter");
}

#[test]
fn the_read_write_counter_grows_after_a_word() {
    let change = |rows: &mut Vec<CopyRow>| {
        for row in rows[64..].iter_mut() {
            let counter = low(row.table.rw_counter) + 1;
            row.table.rw_counter = number(counter);
            row.table.rwc_inc_left = number(100 - counter);
        }
    };
    assert_fails(memory_to_memory(), change, "rows[0].rw_counter + 1 == rows[1].rw_counter");
}

#[test]
fn the_address_grows() {
    let change = |rows: &mut Vec<CopyRow>| rows[3].table.addr = number(5);
    assert_fails(calldata_to_accumulator(), change, "rows[0].addr + 1 == rows[2].addr");
}

#[test]
fn the_identifier_stays() {
    let change = |rows: &mut Vec<CopyRow>| rows[3].table.id = number(5);
    assert_fails(calldata_to_accumulator(), change, "rows[0].id == rows[2].id");
}

#[test]
fn the_tag_stays() {
    let change = |rows: &mut Vec<CopyRow>| rows[3].tag = CopyDataType::Padding;
    assert_fails(calldata_to_accumulator(), change, "rows[0].tag == rows[2].tag");
}

#[test]
fn the_end_of_the_source_stays() {
    let change = |rows: &mut Vec<CopyRow>| rows[2].table.src_addr_end = number(71);
    assert_fails(
        calldata_to_accumulator(),
        change,
        "rows[0].src_addr_end == rows[2].src_addr_end for non-last step",
    );
}

#[test]
fn the_combination_is_shared() {
    let change = |rows: &mut Vec<CopyRow>| rows[2].table.rlc_acc = number(5);
    assert_fails(calldata_to_accumulator(), change, "rows[0].rlc_acc == rows[1].rlc_acc");
}

#[test]
fn the_combination_is_that_of_the_copied_bytes() {
    let change = |rows: &mut Vec<CopyRow>| {
        for row in rows.iter_mut() {
            row.table.rlc_acc = number(5);
        }
    };
    let name = "value_acc == rlc_acc on the last row";
    assert_fails(calldata_to_accumulator(), change, name);
    assert_fails(calldata_to_accumulator(), change, "Last Step (check value accumulator) RlcAcc");
    assert_fails(
        calldata_to_bytecode(),
        change,
        "Last Step (check value accumulator) TxCalldata => Bytecode",
    );
    let memory = end(CopyDataType::Memory, 3, 64);
    let code = end(CopyDataType::Bytecode, 5, 0);
    assert_fails(
        copies(&[(memory, code, 640, plain(&[96, 1]))], 256, 8),
        change,
        "Last Step (check value accumulator) Memory => Bytecode",
    );
    let contract = end(CopyDataType::Precompile(PrecompileCalls::Modexp), 6, 0);
    let gate = "Last Step (check value accumulator) Memory => Precompile or Precompile => Memory";
    assert_fails(copies(&[(memory, contract, 640, plain(&[9, 1]))], 256, 8), change, gate);
    assert_fails(copies(&[(contract, memory, 640, plain(&[9, 1]))], 256, 8), change, gate);
}

#[test]
fn reads_equal_writes() {
    let change = |rows: &mut Vec<CopyRow>| rows[127].circuit.rlc_acc_write = number(5);
    assert_fails(memory_to_memory(), change, "rlc_acc_read == rlc_acc_write on the last row");
    assert_fails(
        memory_to_memory(),
        change,
        "Last Step (check read and write rlc) Memory => Memory",
    );
}

#[test]
fn the_bytes_are_counted() {
    let change = |rows: &mut Vec<CopyRow>| rows[4].table.bytes_left = number(2);
    assert_fails(calldata_to_accumulator(), change, "bytes_left == 1 for last step");
    assert_fails(
        calldata_to_accumulator(),
        change,
        "bytes_left == bytes_left_next + 1 for non-last step",
    );
    let change = |rows: &mut Vec<CopyRow>| rows[5].table.real_bytes_left = number(1);
    assert_fails(calldata_to_accumulator(), change, "real_bytes_left == 0 for last step");
    let change = |rows: &mut Vec<CopyRow>| rows[0].table.real_bytes_left = number(4);
    assert_fails(
        calldata_to_accumulator(),
        change,
        "real_bytes_left[0] == real_bytes_left[2] + !mask",
    );
    let change = |rows: &mut Vec<CopyRow>| rows[1].table.real_bytes_left = number(4);
    assert_fails(calldata_to_accumulator(), change, "real_bytes_left[1] == real_bytes_left[2]");
}

#[test]
fn the_accumulator_accumulates() {
    let change = |rows: &mut Vec<CopyRow>| rows[1].circuit.value_acc = number(4);
    assert_fails(calldata_to_accumulator(), change, "value_acc is same for read-write rows");
    let change = |rows: &mut Vec<CopyRow>| {
        rows[2].circuit.value_acc = number(4);
        rows[3].circuit.value_acc = number(4);
    };
    assert_fails(
        calldata_to_accumulator(),
        change,
        "value_acc(2) == value_acc(0) * r + value(2)",
    );
}

#[test]
fn a_write_row_is_not_padding() {
    let change = |rows: &mut Vec<CopyRow>| rows[1].circuit.is_pad = number(1);
    assert_fails(calldata_to_accumulator(), change, "is_pad == 0 for write row");
}

#[test]
fn bytes_are_looked_up() {
    let change = |rows: &mut Vec<CopyRow>| rows[0].table.id = number(4);
    assert_fails(calldata_to_accumulator(), change, "Tx calldata lookup");
    let change = |rows: &mut Vec<CopyRow>| rows[1].circuit.value = number(77);
    assert_fails(calldata_to_bytecode(), change, "Bytecode lookup");
    let change = |rows: &mut Vec<CopyRow>| rows[1].circuit.is_code = number(0);
    assert_fails(calldata_to_bytecode(), change, "Bytecode lookup");
}

#[test]
fn words_are_looked_up() {
    let change = |rows: &mut Vec<CopyRow>| rows[62].circuit.value_word_rlc = number(77);
    assert_fails(memory_to_memory(), change, "Memory word lookup");
    let change = |rows: &mut Vec<CopyRow>| rows[63].circuit.value_word_rlc_prev = number(77);
    assert_fails(memory_to_memory(), change, "Memory word lookup");
    let change = |rows: &mut Vec<CopyRow>| rows[63].circuit.value_word_rlc = number(77);
    assert_fails(memory_to_log(), change, "TxLog word lookup");
    // Only the end of a word is looked up.
    let mut c = memory_to_memory();
    c.rows[0][60].circuit.value_word_rlc = number(77);
    assert_eq!(failures(&c), "");
}

fn padded_read(mask: u64) -> Copies {
    copies(
        &[(
            end(CopyDataType::TxCalldata, 3, 64),
            end(CopyDataType::RlcAcc, 8, 0),
            64,
            vec![Byte { value: 0, is_pad: 1, mask, front_mask: 0 }],
        )],
        256,
        12,
    )
}

#[test]
fn a_padded_read_reads_zero() {
    let change = |rows: &mut Vec<CopyRow>| rows[0].circuit.value = number(9);
    assert_fails(padded_read(0), change, "value == 0 when is_pad == 1 for read");
    // Only the byte that is read is held to it.
    let mut c = padded_read(0);
    c.rows[0][1].circuit.value = number(9);
    assert_eq!(failures(&c), "");
}

#[test]
fn a_masked_padded_read_may_hold_any_value() {
    let mut c = padded_read(1);
    assert_eq!(failures(&c), "");
    c.rows[0][0].circuit.value = number(9);
    assert_eq!(failures(&c), "");
}

#[test]
fn the_declarations_are_in_order() {
    let mut meta: plonk::ConstraintSystem<Fr> = plonk::ConstraintSystem::default();
    let config = configure(&mut meta, Factor(1));
    assert_eq!(meta.num_advice_columns(), 13 + 30);
    assert_eq!(meta.num_selectors(), 1);
    assert_eq!(config.copy.q_step.index(), 0);
    assert!(!config.copy.q_step.is_simple());
    let names: Vec<&str> = meta.gates().iter().map(|g| g.name()).collect();
    assert_eq!(
        names,
        vec![
            "lt gate",
            "lt gate",
            "lt gate",
            "decode tag",
            "verify row",
            "Last Step (check value accumulator) Memory => Precompile or Precompile => Memory",
            "Last Step (check value accumulator) Memory => Bytecode",
            "Last Step (check value accumulator) TxCalldata => Bytecode",
            "Last Step (check value accumulator) RlcAcc",
            "Last Step (check read and write rlc) Memory => Memory",
            "verify step (q_step == 1)",
        ]
    );
    let counts: Vec<usize> = meta.gates().iter().map(|g| g.polynomials().len()).collect();
    assert_eq!(counts, vec![2, 2, 2, 5, 17, 1, 1, 1, 1, 1, 10]);
    assert_eq!(meta.gates()[4].constraint_name(6), "word_index[0] + 1 == word_index[2]");
    let lookups: Vec<&str> = meta.lookups().iter().map(|l| l.name()).collect();
    assert_eq!(lookups[..10], ["range check for u8"; 10]);
    assert_eq!(
        lookups[10..],
        ["Memory word lookup", "TxLog word lookup", "Bytecode lookup", "Tx calldata lookup"]
    );
    let widths: Vec<usize> =
        meta.lookups()[10..].iter().map(|l| l.input_expressions().len()).collect();
    assert_eq!(widths, vec![12, 12, 6, 5]);
}

#[test]
fn the_columns_are_allocated_in_order() {
    let mut meta: plonk::ConstraintSystem<Fr> = plonk::ConstraintSystem::default();
    let config = configure(&mut meta, Factor(1)).copy.clone();
    assert_eq!(config.is_last, AdviceColumn { index: 13, phase: Phase::First });
    assert_eq!(config.value, AdviceColumn { index: 14, phase: Phase::Second });
    assert_eq!(config.value_acc, AdviceColumn { index: 19, phase: Phase::Second });
    assert_eq!(config.is_code, AdviceColumn { index: 20, phase: Phase::First });
    assert_eq!(config.front_mask, AdviceColumn { index: 29, phase: Phase::First });
    assert_eq!(config.addr_lt_addr_end.lt.index, 30);
    assert_eq!(config.addr_lt_addr_end.diff.len(), 8);
    assert_eq!(config.is_word_continue.lt.index, 39);
    assert_eq!(config.is_word_continue.diff.len(), 1);
    assert_eq!(config.non_pad_non_mask.lt.index, 41);
    assert_eq!(config.non_pad_non_mask.diff[0].index, 42);
    let mut phases = vec![0; 43];
    phases[12] = 1;
    phases[14..20].fill(1);
    assert_eq!(meta.advice_column_phase(), phases);
}

#[test]
fn no_column_is_queried_at_more_than_three_rows() {
    let mut meta: plonk::ConstraintSystem<Fr> = plonk::ConstraintSystem::default();
    configure(&mut meta, Factor(1));
    for (_, rotation) in meta.advice_queries() {
        assert!((0..=2).contains(&rotation.0));
    }
    for (_, rotation) in meta.fixed_queries() {
        assert_eq!(rotation.0, 0);
    }
    assert_eq!(meta.blinding_factors() + 1, CopyCircuit::<(), (), ()>::unusable_rows());
}

#[test]
fn the_columns_of_the_tables_are_annotated() {
    let mut meta: plonk::ConstraintSystem<Fr> = plonk::ConstraintSystem::default();
    let config = configure(&mut meta, Factor(1));
    let names = meta.general_column_annotations();
    let name = |column: Column<Any>| names.get(&metadata::Column::from(column)).map(|n| n.as_str());
    assert_eq!(name(config.tx[0].into()), Some("TX_id"));
    assert_eq!(name(config.tx[1].into()), Some("TX_tag"));
    assert_eq!(name(config.tx[2].into()), None);
    assert_eq!(name(config.rw[3].into()), Some("RW_tag"));
    assert_eq!(name(config.bytecode[5].into()), Some("BYTECODE_value"));
    assert_eq!(name(config.advice[0].into()), Some("COPY_is_first"));
    assert_eq!(names.len(), 5);
}

#[test]
fn a_read_write_table_may_be_narrow() {
    let mut meta: plonk::ConstraintSystem<Fr> = plonk::ConstraintSystem::default();
    let config = configure(&mut meta, Factor(1));
    let mut tables = config.copy.rw_table.clone();
    tables.table_exprs.truncate(3);
    let mut narrow = config.copy.clone();
    narrow.rw_table = tables;
    assert_eq!(narrow.memory_lookup_pairs().len(), 3);
    assert_eq!(narrow.tx_log_lookup_pairs().len(), 3);
    assert_eq!(config.copy.memory_lookup_pairs().len(), 12);
}

/// What a constraint of a gate evaluates to, where the cells that are not given hold zero, enabled
/// rows hold one, and steps are selected.
fn evaluated(gate: usize, constraint: &str, cells: &[(AdviceColumn, i32, u64)], r: u64) -> Fr {
    let mut meta: plonk::ConstraintSystem<Fr> = plonk::ConstraintSystem::default();
    let config = configure(&mut meta, Factor(r));
    let gate = &meta.gates()[gate];
    let k = (0..gate.polynomials().len()).find(|k| gate.constraint_name(*k) == constraint).unwrap();
    gate.polynomials()[k].evaluate(
        &|c| c,
        &|_| Fr::from(1),
        &|q| Fr::from(u64::from(q.column_index() == config.q_enable.index())),
        &|q| {
            let cell = cells
                .iter()
                .find(|(c, at, _)| (c.index, *at) == (q.column_index(), q.rotation().0));
            Fr::from(cell.map_or(0, |(_, _, value)| *value))
        },
        &|_| unreachable!(),
        &|_| unreachable!(),
        &|a| -a,
        &|a, b| a + b,
        &|a, b| a * b,
        &|a, f| a * f,
    )
}

#[test]
fn the_address_constraint_has_its_exact_value() {
    let mut meta: plonk::ConstraintSystem<Fr> = plonk::ConstraintSystem::default();
    let config = configure(&mut meta, Factor(1)).copy;
    let addr = config.copy_table.addr;
    let value = |front_mask: u64, next: u64| {
        let cells = [(addr, 0, 64), (addr, 2, next), (config.front_mask, 0, front_mask)];
        evaluated(4, "rows[0].addr + 1 == rows[2].addr", &cells, 1)
    };
    assert_eq!(value(1, 64), Fr::from(0));
    assert_eq!(value(1, 65), -Fr::from(1));
    assert_eq!(value(0, 64), Fr::from(1));
    assert_eq!(value(0, 65), Fr::from(0));
}

#[test]
fn the_accumulator_constraint_has_its_exact_value() {
    let mut meta: plonk::ConstraintSystem<Fr> = plonk::ConstraintSystem::default();
    let config = configure(&mut meta, Factor(1)).copy;
    let value = |mask: u64, acc: u64| {
        let cells = [
            (config.value_acc, 0, 3),
            (config.value_acc, 2, acc),
            (config.value, 0, 1),
            (config.value, 1, 2),
            (config.value, 2, 7),
            (config.mask, 0, 1),
            (config.mask, 2, mask),
        ];
        evaluated(10, "value_acc(2) == value_acc(0) * r + value(2)", &cells, 10)
    };
    assert_eq!(value(0, 37), Fr::from(0));
    assert_eq!(value(0, 38), Fr::from(1));
    assert_eq!(value(1, 37), Fr::from(0));
    assert_eq!(value(1, 38), Fr::from(0));
}

#[test]
fn a_clone_has_the_same_columns() {
    let mut meta: plonk::ConstraintSystem<Fr> = plonk::ConstraintSystem::default();
    let config = configure(&mut meta, Factor(1)).copy;
    assert_eq!(format!("{config:?}"), format!("{:?}", config.clone()));
}

#[test]
fn the_padded_read_constraint_has_its_exact_value() {
    let mut meta: plonk::ConstraintSystem<Fr> = plonk::ConstraintSystem::default();
    let config = configure(&mut meta, Factor(1)).copy;
    let value = |is_pad: u64, mask: u64, value: u64| {
        let cells = [(config.is_pad, 0, is_pad), (config.mask, 0, mask), (config.value, 0, value)];
        evaluated(10, "value == 0 when is_pad == 1 for read", &cells, 1)
    };
    assert_eq!(value(1, 0, 5), Fr::from(5));
    assert_eq!(value(1, 0, 0), Fr::from(0));
    assert_eq!(value(1, 1, 5), Fr::from(0));
    assert_eq!(value(0, 0, 5), Fr::from(0));
}
