//! The tables that the circuit looks things up in, and the one that it fills.
use vstd::prelude::*;
use crate::binary_number::BinaryNumberConfig;
use crate::constraint_system::Annotation;
use crate::expression::{AdviceColumn, Expr};

verus! {

/// The columns of the copy table, which the circuit fills.
#[derive(Debug)]
pub struct CopyTable {
    /// Whether the row is the first of a copy event.
    pub is_first: AdviceColumn,
    /// The identifier of the source or the destination.
    pub id: AdviceColumn,
    /// The address of the byte in the source or the destination.
    pub addr: AdviceColumn,
    /// The address at which the data of the source ends.
    pub src_addr_end: AdviceColumn,
    /// The number of bytes that are left to copy.
    pub bytes_left: AdviceColumn,
    /// The number of bytes that are left to copy, without those that only fill up a word.
    pub real_bytes_left: AdviceColumn,
    /// The random linear combination of the copied bytes.
    pub rlc_acc: AdviceColumn,
    /// The read-write counter.
    pub rw_counter: AdviceColumn,
    /// By how much the read-write counter is still to grow.
    pub rwc_inc_left: AdviceColumn,
    /// The data type of the source or the destination.
    pub tag: BinaryNumberConfig,
    /// Names for the columns.
    pub annotations: Vec<Annotation>,
}

impl CopyTable {
    /// Whether every column is among the first `n` advice columns.
    pub open spec fn within(self, n: nat) -> bool {
        &&& self.is_first.index < n
        &&& self.id.index < n
        &&& self.addr.index < n
        &&& self.src_addr_end.index < n
        &&& self.bytes_left.index < n
        &&& self.real_bytes_left.index < n
        &&& self.rlc_acc.index < n
        &&& self.rw_counter.index < n
        &&& self.rwc_inc_left.index < n
        &&& self.tag.within(n)
    }

    /// The two have the same columns and names.
    pub open spec fn same_as(self, other: CopyTable) -> bool {
        &&& self.columns() == other.columns()
        &&& self.annotations@ == other.annotations@
    }

    /// The columns in the order in which a row of the table gives their values, and after them
    /// the bits of the tag.
    pub open spec fn columns(self) -> Seq<AdviceColumn> {
        seq![
            self.is_first,
            self.id,
            self.addr,
            self.src_addr_end,
            self.bytes_left,
            self.real_bytes_left,
            self.rlc_acc,
            self.rw_counter,
            self.rwc_inc_left,
            self.tag.bit_8,
            self.tag.bit_4,
            self.tag.bit_2,
            self.tag.bit_1,
        ]
    }
}

impl Clone for CopyTable {
    fn clone(&self) -> (r: CopyTable)
        ensures
            r.same_as(*self),
    {
        CopyTable {
            is_first: self.is_first,
            id: self.id,
            addr: self.addr,
            src_addr_end: self.src_addr_end,
            bytes_left: self.bytes_left,
            real_bytes_left: self.real_bytes_left,
            rlc_acc: self.rlc_acc,
            rw_counter: self.rw_counter,
            rwc_inc_left: self.rwc_inc_left,
            tag: self.tag,
            annotations: copy_of(&self.annotations),
        }
    }
}

/// A list of the same elements.
pub(crate) fn copy_of<T: Copy>(list: &Vec<T>) -> (r: Vec<T>)
    ensures
        r@ == list@,
{
    let mut r: Vec<T> = Vec::new();
    let mut k: usize = 0;
    while k < list.len()
        invariant
            k <= list@.len(),
            r@ == list@.take(k as int),
        decreases list@.len() - k,
    {
        r.push(list[k]);
        assert(r@ =~= list@.take(k + 1));
        k += 1;
    }
    assert(list@.take(k as int) =~= list@);
    r
}

/// A list of the same expressions.
fn copy_of_exprs(exprs: &Vec<Expr>) -> (r: Vec<Expr>)
    ensures
        r@ == exprs@,
{
    let mut r: Vec<Expr> = Vec::new();
    let mut k: usize = 0;
    while k < exprs.len()
        invariant
            k <= exprs@.len(),
            r@ == exprs@.take(k as int),
        decreases exprs@.len() - k,
    {
        r.push(exprs[k].duplicate());
        assert(r@ =~= exprs@.take(k + 1));
        k += 1;
    }
    assert(exprs@.take(k as int) =~= exprs@);
    r
}

/// Every expression is within the first `n` advice columns.
pub open spec fn exprs_fit(exprs: Seq<Expr>, n: nat) -> bool {
    forall|k: int| 0 <= k < exprs.len() ==> (#[trigger] exprs[k]).fits(n)
}

/// Every expression refers to cells in the current row and the next two only.
pub open spec fn exprs_near(exprs: Seq<Expr>) -> bool {
    forall|k: int| 0 <= k < exprs.len() ==> (#[trigger] exprs[k]).near()
}

/// The table of reads and writes.
#[derive(Debug)]
pub struct RwTable {
    /// The columns of the table at the current row.
    pub table_exprs: Vec<Expr>,
    /// Names for the columns.
    pub annotations: Vec<Annotation>,
    /// The tag of memory operations.
    pub memory_tag: u64,
    /// The tag of log operations.
    pub tx_log_tag: u64,
}

impl RwTable {
    /// The two have the same columns, names and tags.
    pub open spec fn same_as(self, other: RwTable) -> bool {
        &&& self.table_exprs@ == other.table_exprs@
        &&& self.annotations@ == other.annotations@
        &&& self.memory_tag == other.memory_tag
        &&& self.tx_log_tag == other.tx_log_tag
    }
}

impl Clone for RwTable {
    fn clone(&self) -> (r: RwTable)
        ensures
            r.same_as(*self),
    {
        RwTable {
            table_exprs: copy_of_exprs(&self.table_exprs),
            annotations: copy_of(&self.annotations),
            memory_tag: self.memory_tag,
            tx_log_tag: self.tx_log_tag,
        }
    }
}

/// The table of transactions.
#[derive(Debug)]
pub struct TxTable {
    /// The columns of the table at the current row.
    pub table_exprs: Vec<Expr>,
    /// Names for the columns.
    pub annotations: Vec<Annotation>,
    /// The tag of the bytes of the call data.
    pub call_data_tag: u64,
}

impl TxTable {
    /// The two have the same columns, names and tags.
    pub open spec fn same_as(self, other: TxTable) -> bool {
        &&& self.table_exprs@ == other.table_exprs@
        &&& self.annotations@ == other.annotations@
        &&& self.call_data_tag == other.call_data_tag
    }
}

impl Clone for TxTable {
    fn clone(&self) -> (r: TxTable)
        ensures
            r.same_as(*self),
    {
        TxTable {
            table_exprs: copy_of_exprs(&self.table_exprs),
            annotations: copy_of(&self.annotations),
            call_data_tag: self.call_data_tag,
        }
    }
}

/// The table of bytecodes.
#[derive(Debug)]
pub struct BytecodeTable {
    /// The columns of the table at the current row.
    pub table_exprs: Vec<Expr>,
    /// Names for the columns.
    pub annotations: Vec<Annotation>,
    /// The tag of the bytes of the code.
    pub byte_tag: u64,
}

impl BytecodeTable {
    /// The two have the same columns, names and tags.
    pub open spec fn same_as(self, other: BytecodeTable) -> bool {
        &&& self.table_exprs@ == other.table_exprs@
        &&& self.annotations@ == other.annotations@
        &&& self.byte_tag == other.byte_tag
    }
}

impl Clone for BytecodeTable {
    fn clone(&self) -> (r: BytecodeTable)
        ensures
            r.same_as(*self),
    {
        BytecodeTable {
            table_exprs: copy_of_exprs(&self.table_exprs),
            annotations: copy_of(&self.annotations),
            byte_tag: self.byte_tag,
        }
    }
}

/// The challenges of the proof.
#[derive(Debug)]
pub struct Challenges {
    /// The challenge for the random linear combination of bytes.
    pub keccak_input: Expr,
}

} // verus!
