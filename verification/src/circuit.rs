//! The copy circuit: the copy events of a block, and the rows that they take.
use vstd::prelude::*;
use crate::assign::{rows_of_events, CopyRow};
use crate::config::CopyCircuitConfig;
use crate::copy_event::{clone_events, copy_rows, count_copy_rows, same_events, CopyEvent};
use crate::copy_event::lemma_same_copy_rows;
use crate::region::Region;

verus! {

/// Data for the tables that the circuit looks things up in. The transactions, the reads and
/// writes, and the bytecodes are carried through as they are.
#[derive(Clone, Debug)]
pub struct ExternalData<T, R, B> {
    /// The most transactions that the transaction circuit takes.
    pub max_txs: usize,
    /// The most bytes of call data that the transaction circuit takes.
    pub max_calldata: usize,
    /// The transactions of the transaction circuit.
    pub txs: Vec<T>,
    /// The most reads and writes that the state circuit takes.
    pub max_rws: usize,
    /// The reads and writes of the state circuit.
    pub rws: R,
    /// The bytecodes of the bytecode circuit.
    pub bytecodes: B,
}

impl<T, R: Default, B: Default> ExternalData<T, R, B> {
    /// No data: nothing is allowed for, and there is none.
    pub open spec fn is_default(self) -> bool {
        &&& self.max_txs == 0
        &&& self.max_calldata == 0
        &&& self.txs@.len() == 0
        &&& self.max_rws == 0
        &&& call_ensures(R::default, (), self.rws)
        &&& call_ensures(B::default, (), self.bytecodes)
    }
}

impl<T, R: Default, B: Default> Default for ExternalData<T, R, B> {
    fn default() -> (r: Self)
        ensures
            r.is_default(),
    {
        ExternalData {
            max_txs: 0,
            max_calldata: 0,
            txs: Vec::new(),
            max_rws: 0,
            rws: R::default(),
            bytecodes: B::default(),
        }
    }
}

/// The sizes that the circuits of a block are built for.
#[derive(Clone, Copy, Debug)]
pub struct CircuitsParams {
    /// The most rows of the copy circuit.
    pub max_copy_rows: usize,
    /// The most transactions.
    pub max_txs: usize,
    /// The most bytes of call data.
    pub max_calldata: usize,
    /// The most reads and writes.
    pub max_rws: usize,
}

/// What the copy circuit takes from a block.
#[derive(Clone, Debug)]
pub struct Block<T, R, B> {
    /// The copy events of the block.
    pub copy_events: Vec<CopyEvent>,
    /// The sizes of the circuits.
    pub circuits_params: CircuitsParams,
    /// The transactions of the block.
    pub txs: Vec<T>,
    /// The reads and writes of the block.
    pub rws: R,
    /// The bytecodes that the block runs.
    pub bytecodes: B,
}

/// The copy circuit.
#[derive(Clone, Debug)]
pub struct CopyCircuit<T, R, B> {
    /// The copy events.
    pub copy_events: Vec<CopyEvent>,
    /// The most rows of the circuit.
    pub max_copy_rows: usize,
    /// Data for the tables that the circuit looks things up in.
    pub external_data: ExternalData<T, R, B>,
}

impl<T, R: Default, B: Default> Default for CopyCircuit<T, R, B> {
    fn default() -> (r: Self)
        ensures
            r.copy_events@.len() == 0,
            r.max_copy_rows == 0,
            r.external_data.is_default(),
    {
        CopyCircuit::new(Vec::new(), 0)
    }
}

impl<T, R: Default, B: Default> CopyCircuit<T, R, B> {
    /// A new copy circuit, without external data.
    pub fn new(copy_events: Vec<CopyEvent>, max_copy_rows: usize) -> (r: Self)
        ensures
            r.copy_events == copy_events,
            r.max_copy_rows == max_copy_rows,
            r.external_data.is_default(),
    {
        CopyCircuit { copy_events, max_copy_rows, external_data: ExternalData::default() }
    }

    /// A new copy circuit from a block without the external data required to assign the tables.
    /// This is only suitable where the tables are assigned elsewhere.
    pub fn new_from_block_no_external(block: &Block<T, R, B>) -> (r: Self)
        ensures
            same_events(r.copy_events@, block.copy_events@),
            r.max_copy_rows == block.circuits_params.max_copy_rows,
            r.external_data.is_default(),
    {
        Self::new(clone_events(&block.copy_events), block.circuits_params.max_copy_rows)
    }
}

impl<T, R, B> CopyCircuit<T, R, B> {
    /// A new copy circuit with external data.
    pub fn new_with_external_data(
        copy_events: Vec<CopyEvent>,
        max_copy_rows: usize,
        external_data: ExternalData<T, R, B>,
    ) -> (r: Self)
        ensures
            r.copy_events == copy_events,
            r.max_copy_rows == max_copy_rows,
            r.external_data == external_data,
    {
        CopyCircuit { copy_events, max_copy_rows, external_data }
    }

    /// The rows at the end that the circuit cannot use. No column is queried at more than three
    /// distances from the current row, which takes six rows.
    pub fn unusable_rows() -> (r: usize)
        ensures
            r == 6,
    {
        6
    }

    /// The number of rows required to prove a block, and the number of rows that the circuit is
    /// built for. Two rows are required after those of the copy events.
    pub fn min_num_rows_block(block: &Block<T, R, B>) -> (r: (usize, usize))
        requires
            copy_rows(block.copy_events@) + 2 <= usize::MAX,
        ensures
            r.0 == copy_rows(block.copy_events@) + 2,
            r.1 == block.circuits_params.max_copy_rows,
    {
        (count_copy_rows(&block.copy_events) + 2, block.circuits_params.max_copy_rows)
    }

    /// Makes the assignments of the copy circuit. `rows` are the rows that the copy table holds
    /// of each event.
    pub fn synthesize_sub(
        &self,
        config: &CopyCircuitConfig,
        rows: &Vec<Vec<CopyRow>>,
        region: &mut Region,
    )
        requires
            config.comparisons_fit(),
            rows_of_events(self.copy_events@, rows@),
            copy_rows(self.copy_events@) + 2 <= self.max_copy_rows,
        ensures
            final(region)@ == old(region)@ + config.circuit_log(
                self.copy_events@,
                rows@,
                self.max_copy_rows as int,
            ),
    {
        config.assign_copy_events(region, &self.copy_events, rows, self.max_copy_rows)
    }
}

impl<T: Clone, R: Clone, B: Clone> CopyCircuit<T, R, B> {
    /// A new copy circuit from a block, with the external data of the block.
    pub fn new_from_block(block: &Block<T, R, B>) -> (r: Self)
        ensures
            same_events(r.copy_events@, block.copy_events@),
            r.max_copy_rows == block.circuits_params.max_copy_rows,
            r.external_data.max_txs == block.circuits_params.max_txs,
            r.external_data.max_calldata == block.circuits_params.max_calldata,
            r.external_data.max_rws == block.circuits_params.max_rws,
            r.external_data.txs@.len() == block.txs@.len(),
            forall|k: int|
                0 <= k < block.txs@.len() ==> cloned(
                    block.txs@[k],
                    #[trigger] r.external_data.txs@[k],
                ),
            cloned(block.rws, r.external_data.rws),
            cloned(block.bytecodes, r.external_data.bytecodes),
    {
        Self::new_with_external_data(
            clone_events(&block.copy_events),
            block.circuits_params.max_copy_rows,
            ExternalData {
                max_txs: block.circuits_params.max_txs,
                max_calldata: block.circuits_params.max_calldata,
                txs: block.txs.clone(),
                max_rws: block.circuits_params.max_rws,
                rws: block.rws.clone(),
                bytecodes: block.bytecodes.clone(),
            },
        )
    }
}

/// The assignments of a circuit that holds the copy events of a block, and is built for its number
/// of rows, can be made exactly where that number is at least the number of rows required.
pub proof fn law_block_fits<T, R, B>(circuit: CopyCircuit<T, R, B>, block: Block<T, R, B>)
    requires
        same_events(circuit.copy_events@, block.copy_events@),
        circuit.max_copy_rows == block.circuits_params.max_copy_rows,
    ensures
        copy_rows(circuit.copy_events@) + 2 <= circuit.max_copy_rows <==> copy_rows(
            block.copy_events@,
        ) + 2 <= block.circuits_params.max_copy_rows,
{
    lemma_same_copy_rows(circuit.copy_events@, block.copy_events@);
}

} // verus!
