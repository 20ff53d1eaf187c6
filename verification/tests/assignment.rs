//! What the assignment of the copy circuit hands to a region.
use copy_circuit::assign::{unwrap_value, CopyCircuitRow, CopyRow, CopyTableRow};
use copy_circuit::binary_number::BinaryNumberConfig;
use copy_circuit::circuit::{Block, CircuitsParams, CopyCircuit, ExternalData};
use copy_circuit::config::{CopyCircuitConfig, CopyCircuitConfigArgs};
use copy_circuit::constraint_system::ConstraintSystem;
use copy_circuit::copy_event::{
    clone_events, count_copy_rows, CopyBytes, CopyDataType, CopyEvent, PrecompileCalls,
};
use copy_circuit::expression::{AdviceColumn, Expr, FixedColumn, Phase};
use copy_circuit::field::Scalar;
use copy_circuit::region::{Assignment, Label, Region};
use copy_circuit::table::{BytecodeTable, Challenges, CopyTable, RwTable, TxTable};
use halo2_axiom::halo2curves::bn256::Fr;
use halo2_axiom::plonk;

fn number(x: u64) -> Option<Scalar> {
    Some(Scalar::from_u64(x))
}

fn first(index: usize) -> AdviceColumn {
    AdviceColumn { index, phase: Phase::First }
}

/// A configuration with the copy table in the first thirteen columns.
fn config() -> CopyCircuitConfig {
    let mut meta: plonk::ConstraintSystem<Fr> = plonk::ConstraintSystem::default();
    for _ in 0..13 {
        meta.advice_column();
    }
    let column = meta.fixed_column();
    let exprs = |n: usize| -> Vec<Expr> {
        (0..n).map(|_| Expr::Fixed(FixedColumn { index: column.index() }, 0)).collect()
    };
    let args = CopyCircuitConfigArgs {
        tx_table: TxTable { table_exprs: exprs(5), annotations: Vec::new(), call_data_tag: 1 },
        rw_table: RwTable {
            table_exprs: exprs(12),
            annotations: Vec::new(),
            memory_tag: 2,
            tx_log_tag: 3,
        },
        bytecode_table: BytecodeTable {
            table_exprs: exprs(6),
            annotations: Vec::new(),
            byte_tag: 4,
        },
        copy_table: CopyTable {
            is_first: first(0),
            id: first(1),
            addr: first(2),
            src_addr_end: first(3),
            bytes_left: first(4),
            real_bytes_left: first(5),
            rlc_acc: first(6),
            rw_counter: first(7),
            rwc_inc_left: first(8),
            tag: BinaryNumberConfig {
                bit_8: first(9),
                bit_4: first(10),
                bit_2: first(11),
                bit_1: first(12),
            },
            annotations: Vec::new(),
        },
        q_enable: FixedColumn { index: column.index() },
        u8_table: FixedColumn { index: column.index() },
        challenges: Challenges { keccak_input: Expr::Constant(1) },
    };
    CopyCircuitConfig::new(&mut ConstraintSystem { inner: &mut meta }, args)
}

/// A row whose values are the numbers from `n` on.
fn row(tag: CopyDataType, n: u64) -> CopyRow {
    CopyRow {
        tag,
        table: CopyTableRow {
            is_first: number(n),
            id: number(n + 1),
            addr: number(n + 2),
            src_addr_end: number(n + 3),
            bytes_left: number(n + 4),
            real_bytes_left: number(n + 5),
            rlc_acc: number(n + 6),
            rw_counter: number(n + 7),
            rwc_inc_left: number(n + 8),
        },
        circuit: CopyCircuitRow {
            is_last: number(n + 9),
            value: number(n + 10),
            value_word_rlc: number(n + 11),
            value_word_rlc_prev: number(n + 12),
            rlc_acc_read: number(n + 13),
            rlc_acc_write: number(n + 14),
            value_acc: None,
            is_pad: number(1),
            is_code: number(n + 15),
            mask: number(1),
            front_mask: number(n + 16),
            word_index: number(n + 17),
        },
    }
}

fn event(bytes: usize, src_addr_end: u64) -> CopyEvent {
    CopyEvent { src_addr_end, copy_bytes: CopyBytes { bytes: vec![(7, false, true); bytes] } }
}

/// An assignment in a form that can be compared.
#[derive(Debug, PartialEq)]
enum Step {
    Name(usize, &'static str),
    Advice(usize, usize, Option<u64>),
    Fixed(usize, usize, u64),
    Enable(usize),
}

fn steps(region: &Region) -> Vec<Step> {
    let low = |s: &Scalar| {
        let limbs = s.to_limbs();
        assert_eq!(limbs[1..], [0, 0, 0]);
        limbs[0]
    };
    region
        .assignments
        .iter()
        .map(|a| match a {
            Assignment::Name(c, name) => Step::Name(c.index, name),
            Assignment::Advice(c, offset, v, _) => {
                Step::Advice(c.index, *offset, v.as_ref().map(low))
            }
            Assignment::Fixed(c, offset, v, _) => Step::Fixed(c.index, *offset, low(v)),
            Assignment::Enable(_, offset) => Step::Enable(*offset),
        })
        .collect()
}

fn known(pairs: &[(usize, u64)], offset: usize) -> Vec<Step> {
    pairs.iter().map(|(c, v)| Step::Advice(*c, offset, Some(*v))).collect()
}

#[test]
fn a_read_row_is_written_in_full() {
    let config = config();
    let mut region = Region::new();
    let mut offset = 6;
    let rows = vec![row(CopyDataType::Memory, 40)];
    config.assign_copy_event(&mut region, &mut offset, &event(1, 50), &rows);
    assert_eq!(offset, 7);
    let mut expected = vec![Step::Fixed(0, 6, 1)];
    expected.extend(known(
        &[
            (0, 40), (1, 41), (2, 42), (3, 43), (4, 44), (5, 45), (6, 46), (7, 47), (8, 48),
        ],
        6,
    ));
    expected.push(Step::Enable(6));
    expected.push(Step::Fixed(0, 6, 1));
    expected.extend(known(&[(13, 49), (14, 50), (15, 51), (16, 52), (17, 53), (18, 54)], 6));
    expected.push(Step::Advice(19, 6, None));
    // The markers of padding, code and masks, and the word index.
    expected.extend(known(&[(26, 1), (20, 55), (28, 1), (29, 56), (27, 57)], 6));
    // The tag of memory.
    expected.extend(known(&[(9, 0), (10, 0), (11, 1), (12, 0)], 6));
    // 42 < 50, and 42 - 50 in eight bytes.
    expected.extend(known(
        &[
            (30, 1), (31, 248), (32, 255), (33, 255), (34, 255), (35, 255), (36, 255), (37, 255),
            (38, 255),
        ],
        6,
    ));
    // 0 < 31, and 0 - 31 in a byte.
    expected.extend(known(&[(39, 1), (40, 225)], 6));
    // 2 is not below 1.
    expected.extend(known(&[(41, 0), (42, 1)], 6));
    expected.extend(known(&[(21, 0), (22, 0), (23, 0), (24, 1), (25, 0)], 6));
    assert_eq!(steps(&region), expected);
}

#[test]
fn a_write_row_leaves_out_what_only_reads_have() {
    let config = config();
    let mut region = Region::new();
    let mut offset = 0;
    let rows = vec![row(CopyDataType::Memory, 40), row(CopyDataType::TxLog, 60)];
    config.assign_copy_event(&mut region, &mut offset, &event(1, 50), &rows);
    assert_eq!(offset, 2);
    let second: Vec<Step> = steps(&region)
        .into_iter()
        .filter(|s| match s {
            Step::Advice(_, row, _) | Step::Fixed(_, row, _) | Step::Enable(row) => *row == 1,
            Step::Name(_, _) => false,
        })
        .collect();
    assert!(!second.contains(&Step::Enable(1)));
    assert!(second.contains(&Step::Fixed(0, 1, 1)));
    for column in [3, 4, 30, 31, 38] {
        assert!(!second.iter().any(|s| matches!(s, Step::Advice(c, _, _) if *c == column)));
    }
    // The tag of logs.
    for step in known(&[(9, 0), (10, 1), (11, 0), (12, 0), (24, 0), (25, 1)], 1) {
        assert!(second.contains(&step));
    }
    assert!(second.contains(&Step::Advice(2, 1, Some(62))));
}

#[test]
fn the_word_index_is_counted_from_the_start_of_the_event() {
    let config = config();
    let mut region = Region::new();
    let mut offset = 0;
    let rows = vec![row(CopyDataType::Memory, 0); 70];
    config.assign_copy_event(&mut region, &mut offset, &event(35, 50), &rows);
    let bits: Vec<Step> = steps(&region)
        .into_iter()
        .filter(|s| matches!(s, Step::Advice(39, _, _)))
        .collect();
    for (offset, bit) in bits.iter().enumerate() {
        let expected = if (offset / 2) % 32 == 31 { 0 } else { 1 };
        assert_eq!(*bit, Step::Advice(39, offset, Some(expected)));
    }
    assert_eq!(bits.len(), 70);
    assert_eq!(bits[62], Step::Advice(39, 62, Some(0)));
}

#[test]
fn every_data_type_is_written() {
    let config = config();
    for (tag, code, columns) in [
        (CopyDataType::Padding, 0, [0, 0, 0, 0, 0]),
        (CopyDataType::Bytecode, 1, [0, 0, 1, 0, 0]),
        (CopyDataType::Memory, 2, [0, 0, 0, 1, 0]),
        (CopyDataType::TxCalldata, 3, [0, 1, 0, 0, 0]),
        (CopyDataType::TxLog, 4, [0, 0, 0, 0, 1]),
        (CopyDataType::RlcAcc, 5, [0, 0, 0, 0, 0]),
        (CopyDataType::Precompile(PrecompileCalls::Ecrecover), 6, [1, 0, 0, 0, 0]),
        (CopyDataType::Precompile(PrecompileCalls::Sha256), 7, [1, 0, 0, 0, 0]),
        (CopyDataType::Precompile(PrecompileCalls::Ripemd160), 8, [1, 0, 0, 0, 0]),
        (CopyDataType::Precompile(PrecompileCalls::Identity), 9, [1, 0, 0, 0, 0]),
        (CopyDataType::Precompile(PrecompileCalls::Modexp), 10, [1, 0, 0, 0, 0]),
        (CopyDataType::Precompile(PrecompileCalls::Bn128Add), 11, [1, 0, 0, 0, 0]),
        (CopyDataType::Precompile(PrecompileCalls::Bn128Mul), 12, [1, 0, 0, 0, 0]),
        (CopyDataType::Precompile(PrecompileCalls::Bn128Pairing), 13, [1, 0, 0, 0, 0]),
        (CopyDataType::Precompile(PrecompileCalls::Blake2F), 14, [1, 0, 0, 0, 0]),
    ] {
        assert_eq!(tag.code(), code);
        assert_eq!(tag.is_precompile(), columns[0] == 1);
        let mut region = Region::new();
        let mut offset = 3;
        config.assign_copy_event(&mut region, &mut offset, &event(1, 0), &vec![row(tag, 0)]);
        let written = steps(&region);
        for (k, bit) in [(9, code / 8), (10, code / 4), (11, code / 2), (12, code)] {
            assert!(written.contains(&Step::Advice(k, 3, Some(bit % 2))));
        }
        let last = written.len() - 5;
        for (k, value) in columns.iter().enumerate() {
            assert_eq!(written[last + k], Step::Advice(21 + k, 3, Some(*value)));
        }
    }
}

#[test]
fn an_unknown_address_is_compared_as_zero() {
    let config = config();
    let mut region = Region::new();
    let mut offset = 0;
    let mut unknown = row(CopyDataType::Memory, 40);
    unknown.table.addr = None;
    unknown.circuit.is_pad = None;
    unknown.circuit.mask = None;
    config.assign_copy_event(&mut region, &mut offset, &event(1, 5), &vec![unknown]);
    let written = steps(&region);
    assert!(written.contains(&Step::Advice(2, 0, None)));
    assert!(written.contains(&Step::Advice(30, 0, Some(1))));
    assert!(written.contains(&Step::Advice(31, 0, Some(251))));
    assert!(written.contains(&Step::Advice(41, 0, Some(1))));
    assert_eq!(unwrap_value(None), Scalar::zero());
    assert_eq!(unwrap_value(number(9)), Scalar::from_u64(9));
}

/// What a row that fills up the circuit holds.
fn padding(offset: usize) -> Vec<Step> {
    known(
        &[
            (0, 0), (13, 0), (1, 0), (2, 0), (3, 1), (4, 0), (5, 0), (14, 0), (15, 0), (16, 0),
            (27, 0), (28, 1), (29, 1), (19, 0), (6, 0), (20, 0), (26, 0), (7, 0), (8, 0), (9, 0),
            (10, 0), (11, 0), (12, 0), (30, 1), (31, 255), (32, 255), (33, 255), (34, 255),
            (35, 255), (36, 255), (37, 255), (38, 255), (39, 1), (40, 225), (41, 0), (42, 0),
            (21, 0), (22, 0), (23, 0), (24, 0), (25, 0),
        ],
        offset,
    )
}

#[test]
fn padding_rows_are_steps_in_turns() {
    let config = config();
    let mut region = Region::new();
    let mut offset = 4;
    config.assign_padding_row(&mut region, &mut offset, false);
    config.assign_padding_row(&mut region, &mut offset, false);
    assert_eq!(offset, 6);
    let mut expected = vec![Step::Fixed(0, 4, 1), Step::Enable(4)];
    expected.extend(padding(4));
    expected.push(Step::Fixed(0, 5, 1));
    expected.extend(padding(5));
    assert_eq!(steps(&region), expected);
}

#[test]
fn the_last_two_rows_are_not_enabled() {
    let config = config();
    let mut region = Region::new();
    let mut offset = 8;
    config.assign_padding_row(&mut region, &mut offset, true);
    assert_eq!(steps(&region), padding(8));
    assert_eq!(offset, 9);
}

#[test]
fn the_circuit_is_filled_up() {
    let config = config();
    let mut region = Region::new();
    let events = vec![event(1, 5), event(2, 9)];
    let rows = vec![vec![row(CopyDataType::Memory, 0); 2], vec![row(CopyDataType::Memory, 0); 4]];
    config.assign_copy_events(&mut region, &events, &rows, 11);
    let written = steps(&region);
    assert_eq!(
        written[..9],
        [
            Step::Name(13, "is_last"),
            Step::Name(14, "value"),
            Step::Name(15, "value_word_rlc"),
            Step::Name(16, "value_word_rlc_prev"),
            Step::Name(27, "word_index"),
            Step::Name(28, "mask"),
            Step::Name(29, "front_mask"),
            Step::Name(20, "is_code"),
            Step::Name(26, "is_pad"),
        ]
    );
    for offset in 0..11 {
        assert_eq!(written.contains(&Step::Fixed(0, offset, 1)), offset < 9);
        assert_eq!(written.contains(&Step::Enable(offset)), offset < 9 && offset % 2 == 0);
        assert!(written.contains(&Step::Advice(1, offset, Some(if offset < 6 { 1 } else { 0 }))));
    }
    let rows_written = |s: &Step| match s {
        Step::Advice(_, row, _) | Step::Fixed(_, row, _) | Step::Enable(row) => *row,
        Step::Name(_, _) => 0,
    };
    assert_eq!(written.iter().map(rows_written).max(), Some(10));
    let mut tail = padding(9);
    tail.extend(padding(10));
    let start = written.len() - tail.len();
    assert_eq!(written[start..], tail);
}

#[test]
fn every_cell_has_one_value() {
    let config = config();
    let mut region = Region::new();
    let events = vec![event(2, 5), event(0, 1), event(1, 9)];
    let rows = vec![
        vec![row(CopyDataType::Memory, 3); 4],
        Vec::new(),
        vec![row(CopyDataType::Bytecode, 8); 2],
    ];
    config.assign_copy_events(&mut region, &events, &rows, 12);
    let written = steps(&region);
    for (i, a) in written.iter().enumerate() {
        for b in &written[i + 1..] {
            match (a, b) {
                (Step::Advice(c, row, _), Step::Advice(d, other, _)) => {
                    assert!(c != d || row != other);
                }
                (Step::Fixed(c, row, v), Step::Fixed(d, other, w)) if c == d && row == other => {
                    assert_eq!(v, w);
                }
                _ => {}
            }
        }
    }
}

#[test]
fn rows_are_counted() {
    assert_eq!(count_copy_rows(&vec![]), 0);
    assert_eq!(count_copy_rows(&vec![event(0, 1)]), 0);
    assert_eq!(count_copy_rows(&vec![event(3, 1), event(32, 1)]), 70);
    assert_eq!(event(3, 1).copy_bytes.bytes.len(), 3);
}

fn block() -> Block<&'static str, Vec<u64>, u8> {
    Block {
        copy_events: vec![event(3, 1), event(4, 2)],
        circuits_params: CircuitsParams {
            max_copy_rows: 16,
            max_txs: 5,
            max_calldata: 6,
            max_rws: 7,
        },
        txs: vec!["a", "b"],
        rws: vec![1, 2, 3],
        bytecodes: 4,
    }
}

#[test]
fn a_new_circuit_has_no_external_data() {
    let circuit: CopyCircuit<u8, Vec<u64>, u64> = CopyCircuit::new(vec![event(1, 9)], 30);
    assert_eq!(circuit.copy_events.len(), 1);
    assert_eq!(circuit.copy_events[0].src_addr_end, 9);
    assert_eq!(circuit.max_copy_rows, 30);
    assert_eq!(circuit.external_data.max_txs, 0);
    assert_eq!(circuit.external_data.max_calldata, 0);
    assert_eq!(circuit.external_data.max_rws, 0);
    assert!(circuit.external_data.txs.is_empty());
    assert!(circuit.external_data.rws.is_empty());
    assert_eq!(circuit.external_data.bytecodes, 0);
    let default: CopyCircuit<u8, Vec<u64>, u64> = CopyCircuit::default();
    assert!(default.copy_events.is_empty());
    assert_eq!(default.max_copy_rows, 0);
}

#[test]
fn external_data_is_kept() {
    let data = ExternalData {
        max_txs: 1,
        max_calldata: 2,
        txs: vec![3],
        max_rws: 4,
        rws: 5,
        bytecodes: 6,
    };
    let circuit = CopyCircuit::new_with_external_data(vec![event(2, 8)], 9, data);
    assert_eq!(circuit.copy_events[0].copy_bytes.bytes, vec![(7, false, true); 2]);
    assert_eq!(circuit.max_copy_rows, 9);
    assert_eq!(circuit.external_data.txs, vec![3]);
    assert_eq!((circuit.external_data.rws, circuit.external_data.bytecodes), (5, 6));
}

#[test]
fn a_circuit_takes_the_events_of_a_block() {
    let block = block();
    let circuit = CopyCircuit::new_from_block_no_external(&block);
    assert_eq!(circuit.copy_events.len(), 2);
    assert_eq!(circuit.copy_events[1].src_addr_end, 2);
    assert_eq!(circuit.copy_events[1].copy_bytes.bytes, block.copy_events[1].copy_bytes.bytes);
    assert_eq!(circuit.max_copy_rows, 16);
    assert!(circuit.external_data.txs.is_empty());
    assert_eq!(circuit.external_data.max_txs, 0);
}

#[test]
fn a_circuit_takes_the_external_data_of_a_block() {
    let block = block();
    let circuit = CopyCircuit::new_from_block(&block);
    assert_eq!(circuit.copy_events.len(), 2);
    assert_eq!(circuit.copy_events[0].copy_bytes.bytes.len(), 3);
    assert_eq!(circuit.max_copy_rows, 16);
    assert_eq!(circuit.external_data.max_txs, 5);
    assert_eq!(circuit.external_data.max_calldata, 6);
    assert_eq!(circuit.external_data.max_rws, 7);
    assert_eq!(circuit.external_data.txs, vec!["a", "b"]);
    assert_eq!(circuit.external_data.rws, vec![1, 2, 3]);
    assert_eq!(circuit.external_data.bytecodes, 4);
    assert_eq!(clone_events(&block.copy_events).len(), 2);
}

#[test]
fn a_block_that_just_fits_is_assigned() {
    let block = block();
    assert_eq!(CopyCircuit::min_num_rows_block(&block), (16, 16));
    let circuit = CopyCircuit::new_from_block_no_external(&block);
    let rows = vec![vec![row(CopyDataType::Memory, 0); 6], vec![row(CopyDataType::Memory, 0); 8]];
    let mut region = Region::new();
    circuit.synthesize_sub(&config(), &rows, &mut region);
    let written = steps(&region);
    assert!(written.contains(&Step::Fixed(0, 13, 1)));
    assert!(!written.contains(&Step::Fixed(0, 14, 1)));
    let mut tail = padding(14);
    tail.extend(padding(15));
    let start = written.len() - tail.len();
    assert_eq!(written[start..], tail);
}

fn labels(region: &Region) -> Vec<Label> {
    region
        .assignments
        .iter()
        .filter_map(|a| match a {
            Assignment::Advice(_, _, _, label) | Assignment::Fixed(_, _, _, label) => Some(*label),
            _ => None,
        })
        .collect()
}

#[test]
fn the_cells_of_a_read_row_are_labelled() {
    let mut region = Region::new();
    let mut offset = 6;
    let rows = vec![row(CopyDataType::Padding, 40)];
    config().assign_copy_event(&mut region, &mut offset, &event(1, 50), &rows);
    let mut expected = vec![Label::AtRow("q_enable")];
    for name in [
        "is_first",
        "id",
        "addr",
        "src_addr_end",
        "bytes_left",
        "real_bytes_left",
        "rlc_acc",
        "rw_counter",
        "rwc_inc_left",
    ] {
        expected.push(Label::AtRow(name));
    }
    expected.push(Label::Text("q_enable"));
    for name in [
        "is_last",
        "value",
        "value_word_rlc",
        "value_word_rlc_prev",
        "rlc_acc_read",
        "rlc_acc_write",
        "value_acc",
        "is_pad",
        "is_code",
        "mask",
        "front_mask",
        "word_index",
    ] {
        expected.push(Label::AtRow(name));
    }
    let found = labels(&region);
    assert_eq!(found[..expected.len()], expected);
    let last = found.len() - 5;
    assert_eq!(
        found[last..],
        ["is_precompiled", "is_tx_calldata", "is_bytecode", "is_memory", "is_tx_log"]
            .map(Label::AtRow)
    );
}

#[test]
fn the_cells_of_a_padding_row_are_labelled() {
    let mut region = Region::new();
    let mut offset = 6;
    config().assign_padding_row(&mut region, &mut offset, false);
    let found = labels(&region);
    assert_eq!(found[0], Label::Text("q_enable"));
    assert_eq!(
        found[1..20],
        [
            "is_first",
            "is_last",
            "id",
            "addr",
            "src_addr_end",
            "bytes_left",
            "bytes_left",
            "value",
            "value_word_rlc",
            "value_word_rlc_prev",
            "word_index",
            "mask",
            "front mask",
            "value_acc",
            "rlc_acc",
            "is_code",
            "is_pad",
            "rw_counter",
            "rwc_inc_left",
        ]
        .map(Label::Assign)
    );
    assert_eq!(found[found.len() - 5..], [Label::PaddingRow; 5]);
}
