//! The copies that the circuit proves: what is copied from where to where, byte by byte.
use vstd::prelude::*;

verus! {

/// The precompiled contracts.
#[derive(Clone, Copy, Debug, PartialEq, Eq, Structural)]
pub enum PrecompileCalls {
    /// Recovery of the signer of a message.
    Ecrecover,
    /// The hash SHA2-256.
    Sha256,
    /// The hash RIPEMD-160.
    Ripemd160,
    /// The identity function.
    Identity,
    /// Modular exponentiation.
    Modexp,
    /// Point addition on the curve alt_bn128.
    Bn128Add,
    /// Scalar multiplication on the curve alt_bn128.
    Bn128Mul,
    /// The pairing check on the curve alt_bn128.
    Bn128Pairing,
    /// The compression function F of BLAKE2.
    Blake2F,
}

/// Where bytes are copied from or to.
#[derive(Clone, Copy, Debug, PartialEq, Eq, Structural)]
pub enum CopyDataType {
    /// No copy: a row that fills up the circuit.
    Padding,
    /// The bytecode of a contract.
    Bytecode,
    /// The memory of a call.
    Memory,
    /// The call data of a transaction.
    TxCalldata,
    /// A log of a transaction.
    TxLog,
    /// An accumulator of the random linear combination of the bytes.
    RlcAcc,
    /// The input or output of a precompiled contract.
    Precompile(PrecompileCalls),
}

impl PrecompileCalls {
    /// The place of the contract in the list of precompiled contracts.
    pub open spec fn spec_index(self) -> u64 {
        match self {
            PrecompileCalls::Ecrecover => 0,
            PrecompileCalls::Sha256 => 1,
            PrecompileCalls::Ripemd160 => 2,
            PrecompileCalls::Identity => 3,
            PrecompileCalls::Modexp => 4,
            PrecompileCalls::Bn128Add => 5,
            PrecompileCalls::Bn128Mul => 6,
            PrecompileCalls::Bn128Pairing => 7,
            PrecompileCalls::Blake2F => 8,
        }
    }

    /// The place of the contract in the list of precompiled contracts.
    pub fn index(self) -> (r: u64)
        ensures
            r == self.spec_index(),
    {
        match self {
            PrecompileCalls::Ecrecover => 0,
            PrecompileCalls::Sha256 => 1,
            PrecompileCalls::Ripemd160 => 2,
            PrecompileCalls::Identity => 3,
            PrecompileCalls::Modexp => 4,
            PrecompileCalls::Bn128Add => 5,
            PrecompileCalls::Bn128Mul => 6,
            PrecompileCalls::Bn128Pairing => 7,
            PrecompileCalls::Blake2F => 8,
        }
    }
}

impl CopyDataType {
    /// The number that stands for the type in the tag column of the copy table.
    pub open spec fn spec_code(self) -> u64 {
        match self {
            CopyDataType::Padding => 0,
            CopyDataType::Bytecode => 1,
            CopyDataType::Memory => 2,
            CopyDataType::TxCalldata => 3,
            CopyDataType::TxLog => 4,
            CopyDataType::RlcAcc => 5,
            CopyDataType::Precompile(call) => (6 + call.spec_index()) as u64,
        }
    }

    /// The number that stands for the type in the tag column of the copy table.
    pub fn code(self) -> (r: u64)
        ensures
            r == self.spec_code(),
            r < 16,
    {
        match self {
            CopyDataType::Padding => 0,
            CopyDataType::Bytecode => 1,
            CopyDataType::Memory => 2,
            CopyDataType::TxCalldata => 3,
            CopyDataType::TxLog => 4,
            CopyDataType::RlcAcc => 5,
            CopyDataType::Precompile(call) => 6 + call.index(),
        }
    }

    /// Whether the type is one of those of the precompiled contracts.
    pub fn is_precompile(self) -> (r: bool)
        ensures
            r == (self is Precompile),
    {
        match self {
            CopyDataType::Precompile(_) => true,
            _ => false,
        }
    }
}

/// Different data types have different codes, and a code takes four bits.
pub proof fn law_codes_are_distinct(a: CopyDataType, b: CopyDataType)
    ensures
        a.spec_code() == b.spec_code() ==> a == b,
        a.spec_code() < 16,
{
}

/// The code of a data type that is not of a precompiled contract is below six, in the order in
/// which the copy table numbers them, and that of a precompiled contract is five more than the
/// address at which the contract is called.
pub proof fn law_codes(data_type: CopyDataType)
    ensures
        data_type.spec_code() == 0 <==> data_type == CopyDataType::Padding,
        data_type.spec_code() == 1 <==> data_type == CopyDataType::Bytecode,
        data_type.spec_code() == 2 <==> data_type == CopyDataType::Memory,
        data_type.spec_code() == 3 <==> data_type == CopyDataType::TxCalldata,
        data_type.spec_code() == 4 <==> data_type == CopyDataType::TxLog,
        data_type.spec_code() == 5 <==> data_type == CopyDataType::RlcAcc,
        data_type.spec_code() == 5 + 0x01 <==> data_type == CopyDataType::Precompile(
            PrecompileCalls::Ecrecover,
        ),
        data_type.spec_code() == 5 + 0x02 <==> data_type == CopyDataType::Precompile(
            PrecompileCalls::Sha256,
        ),
        data_type.spec_code() == 5 + 0x03 <==> data_type == CopyDataType::Precompile(
            PrecompileCalls::Ripemd160,
        ),
        data_type.spec_code() == 5 + 0x04 <==> data_type == CopyDataType::Precompile(
            PrecompileCalls::Identity,
        ),
        data_type.spec_code() == 5 + 0x05 <==> data_type == CopyDataType::Precompile(
            PrecompileCalls::Modexp,
        ),
        data_type.spec_code() == 5 + 0x06 <==> data_type == CopyDataType::Precompile(
            PrecompileCalls::Bn128Add,
        ),
        data_type.spec_code() == 5 + 0x07 <==> data_type == CopyDataType::Precompile(
            PrecompileCalls::Bn128Mul,
        ),
        data_type.spec_code() == 5 + 0x08 <==> data_type == CopyDataType::Precompile(
            PrecompileCalls::Bn128Pairing,
        ),
        data_type.spec_code() == 5 + 0x09 <==> data_type == CopyDataType::Precompile(
            PrecompileCalls::Blake2F,
        ),
        data_type.spec_code() < 15,
{
}

/// The bytes of a copy event.
#[derive(Debug)]
pub struct CopyBytes {
    /// Each byte, whether it is code, and whether it only fills up a memory word.
    pub bytes: Vec<(u8, bool, bool)>,
}

/// A copy of bytes from one place to another.
#[derive(Debug)]
pub struct CopyEvent {
    /// The address at which the data of the source ends.
    pub src_addr_end: u64,
    /// The bytes, read and written one by one.
    pub copy_bytes: CopyBytes,
}

impl View for CopyBytes {
    type V = Seq<(u8, bool, bool)>;

    open spec fn view(&self) -> Seq<(u8, bool, bool)> {
        self.bytes@
    }
}

impl View for CopyEvent {
    type V = (u64, Seq<(u8, bool, bool)>);

    open spec fn view(&self) -> (u64, Seq<(u8, bool, bool)>) {
        (self.src_addr_end, self.copy_bytes@)
    }
}

impl Clone for CopyBytes {
    fn clone(&self) -> (r: CopyBytes)
        ensures
            r@ == self@,
    {
        let mut bytes: Vec<(u8, bool, bool)> = Vec::new();
        let mut k: usize = 0;
        while k < self.bytes.len()
            invariant
                k <= self.bytes@.len(),
                bytes@ == self.bytes@.take(k as int),
            decreases self.bytes@.len() - k,
        {
            bytes.push(self.bytes[k]);
            assert(bytes@ =~= self.bytes@.take(k + 1));
            k += 1;
        }
        assert(self.bytes@.take(k as int) =~= self.bytes@);
        CopyBytes { bytes }
    }
}

impl Clone for CopyEvent {
    fn clone(&self) -> (r: CopyEvent)
        ensures
            r@ == self@,
    {
        CopyEvent { src_addr_end: self.src_addr_end, copy_bytes: self.copy_bytes.clone() }
    }
}

/// The two lists hold the same copies.
pub open spec fn same_events(a: Seq<CopyEvent>, b: Seq<CopyEvent>) -> bool {
    &&& a.len() == b.len()
    &&& forall|k: int| 0 <= k < a.len() ==> (#[trigger] a[k])@ == b[k]@
}

/// A list of the same copies.
pub fn clone_events(events: &Vec<CopyEvent>) -> (r: Vec<CopyEvent>)
    ensures
        same_events(r@, events@),
{
    let mut r: Vec<CopyEvent> = Vec::new();
    let mut k: usize = 0;
    while k < events.len()
        invariant
            k <= events@.len(),
            r@.len() == k,
            forall|j: int| 0 <= j < k ==> (#[trigger] r@[j])@ == events@[j]@,
        decreases events@.len() - k,
    {
        r.push(events[k].clone());
        k += 1;
    }
    r
}

impl CopyEvent {
    /// The number of rows that the event takes: a read row and a write row for each byte.
    pub open spec fn rows(self) -> nat {
        self.copy_bytes.bytes@.len() * 2
    }
}

/// The number of rows that the events take.
pub open spec fn copy_rows(events: Seq<CopyEvent>) -> nat
    decreases events.len(),
{
    if events.len() == 0 {
        0
    } else {
        copy_rows(events.drop_last()) + events.last().rows()
    }
}

/// No copies take no rows, one copy takes two rows for each of its bytes, and the rows of two lists
/// of copies add up.
pub proof fn law_copy_rows_add_up(a: Seq<CopyEvent>, event: CopyEvent, b: Seq<CopyEvent>)
    ensures
        copy_rows(Seq::empty()) == 0,
        copy_rows(seq![event]) == 2 * event.copy_bytes.bytes@.len(),
        copy_rows(a + b) == copy_rows(a) + copy_rows(b),
    decreases b.len(),
{
    assert(seq![event].drop_last() =~= Seq::empty());
    assert(copy_rows(seq![event].drop_last()) == 0);
    assert(seq![event].last() == event);
    if b.len() == 0 {
        assert(a + b =~= a);
    } else {
        law_copy_rows_add_up(a, event, b.drop_last());
        assert((a + b).drop_last() =~= a + b.drop_last());
        assert((a + b).last() == b.last());
    }
}

/// Lists of the same copies take the same number of rows.
pub proof fn lemma_same_copy_rows(a: Seq<CopyEvent>, b: Seq<CopyEvent>)
    requires
        same_events(a, b),
    ensures
        copy_rows(a) == copy_rows(b),
    decreases a.len(),
{
    if a.len() > 0 {
        lemma_same_copy_rows(a.drop_last(), b.drop_last());
        assert(a[a.len() - 1]@ == b[a.len() - 1]@);
    }
}

/// The number of rows of some of the first events is at most that of all events.
pub proof fn lemma_copy_rows_prefix(events: Seq<CopyEvent>, k: int)
    requires
        0 <= k <= events.len(),
    ensures
        copy_rows(events.take(k)) <= copy_rows(events),
    decreases events.len() - k,
{
    if k == events.len() {
        assert(events.take(k) =~= events);
    } else {
        lemma_copy_rows_prefix(events, k + 1);
        assert(events.take(k + 1).drop_last() =~= events.take(k));
    }
}

/// The number of rows that the events take.
pub fn count_copy_rows(events: &Vec<CopyEvent>) -> (r: usize)
    requires
        copy_rows(events@) <= usize::MAX,
    ensures
        r == copy_rows(events@),
{
    let mut rows: usize = 0;
    let mut k: usize = 0;
    while k < events.len()
        invariant
            k <= events@.len(),
            rows == copy_rows(events@.take(k as int)),
            copy_rows(events@) <= usize::MAX,
        decreases events@.len() - k,
    {
        proof {
            lemma_copy_rows_prefix(events@, k + 1);
            assert(events@.take(k + 1).drop_last() =~= events@.take(k as int));
        }
        rows = rows + events[k].copy_bytes.bytes.len() * 2;
        k += 1;
    }
    assert(events@.take(k as int) =~= events@);
    rows
}

} // verus!
