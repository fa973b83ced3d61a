use vstd::prelude::*;

use crate::bytesutil::{u32_le_bytes, u32_to_le, u64_from_le, u64_le_bytes, u64_to_le, push_all, bytes_eq};

verus! {

// ---------------------------------------------------------------------------
// Closed variant sets.
// ---------------------------------------------------------------------------

/// How a lock script references its code: by data hash or by type hash.
#[derive(Debug, Clone, Copy, PartialEq, Eq, Structural)]
pub enum ScriptHashType {
    Data,
    Type,
}

impl ScriptHashType {
    /// The chain's one-byte encoding of the variant.
    pub fn as_byte(self) -> (b: u8)
        ensures
            b == self.byte_spec(),
    {
        match self {
            ScriptHashType::Data => 0,
            ScriptHashType::Type => 1,
        }
    }

    pub open spec fn byte_spec(self) -> u8 {
        match self {
            ScriptHashType::Data => 0,
            ScriptHashType::Type => 1,
        }
    }
}

/// How a dependency cell is consumed: directly or as a dep group.
#[derive(Debug, Clone, Copy, PartialEq, Eq, Structural)]
pub enum DepType {
    Code,
    DepGroup,
}

impl DepType {
    /// The chain's one-byte encoding of the variant.
    pub fn as_byte(self) -> (b: u8)
        ensures
            b == self.byte_spec(),
    {
        match self {
            DepType::Code => 0,
            DepType::DepGroup => 1,
        }
    }

    pub open spec fn byte_spec(self) -> u8 {
        match self {
            DepType::Code => 0,
            DepType::DepGroup => 1,
        }
    }
}

/// The two supported signature/lock schemes.
#[derive(Debug, Clone, Copy, PartialEq, Eq, Structural)]
pub enum LockScriptId {
    Secp256K1Blake160,
    PwLockK1Acpl,
}

// ---------------------------------------------------------------------------
// Out-points.
// ---------------------------------------------------------------------------

/// The mathematical value of an out-point.
pub struct OutPointV {
    pub tx_hash: Seq<u8>,
    pub index: u32,
}

/// The unique identifier of a cell: the hash of the transaction that created
/// it and the index of the output within that transaction.
#[derive(Debug)]
pub struct OutPoint {
    pub tx_hash: Vec<u8>,
    pub index: u32,
}

impl View for OutPoint {
    type V = OutPointV;

    open spec fn view(&self) -> OutPointV {
        OutPointV { tx_hash: self.tx_hash@, index: self.index }
    }
}

/// The serialized out-point: the 32-byte transaction hash followed by the
/// 4-byte little-endian output index.
pub open spec fn out_point_bytes(op: OutPointV) -> Seq<u8> {
    op.tx_hash + u32_le_bytes(op.index)
}

impl OutPoint {
    pub open spec fn wf(&self) -> bool {
        self.tx_hash@.len() == 32
    }

    pub fn new(tx_hash: Vec<u8>, index: u32) -> (r: Self)
        ensures
            r@ == (OutPointV { tx_hash: tx_hash@, index }),
    {
        OutPoint { tx_hash, index }
    }

    /// Serializes the out-point to the 36-byte storage key layout.
    pub fn pack(&self) -> (r: Vec<u8>)
        ensures
            r@ == out_point_bytes(self@),
    {
        let mut r: Vec<u8> = Vec::new();
        push_all(&mut r, &self.tx_hash);
        let idx = u32_to_le(self.index);
        push_all(&mut r, &idx);
        proof {
            assert(r@ =~= out_point_bytes(self@));
        }
        r
    }

    /// Structural copy.
    pub fn duplicate(&self) -> (r: Self)
        ensures
            r@ == self@,
    {
        OutPoint { tx_hash: clone_bytes(&self.tx_hash), index: self.index }
    }

    /// Value equality of two out-points.
    pub fn same_as(&self, other: &OutPoint) -> (r: bool)
        ensures
            r <==> self@ == other@,
    {
        let r = bytes_eq(&self.tx_hash, &other.tx_hash) && self.index == other.index;
        proof {
            if self.tx_hash@ == other.tx_hash@ && self.index == other.index {
                assert(self@ == other@);
            }
        }
        r
    }
}

/// Byte-for-byte copy of a byte vector.
pub fn clone_bytes(src: &Vec<u8>) -> (r: Vec<u8>)
    ensures
        r@ == src@,
{
    let mut r: Vec<u8> = Vec::new();
    push_all(&mut r, src);
    proof {
        assert(r@ =~= src@);
    }
    r
}

// ---------------------------------------------------------------------------
// Cell records.
// ---------------------------------------------------------------------------

/// The mathematical value of a cell record.
pub struct CellInfoV {
    pub capacity: u64,
    pub lock_hash: Seq<u8>,
}

/// One on-chain output believed to be owned and unspent: its capacity in
/// shannons and the lock hash attributing it to a managed account.
#[derive(Debug)]
pub struct CellInfo {
    pub capacity: u64,
    pub lock_hash: Vec<u8>,
}

impl View for CellInfo {
    type V = CellInfoV;

    open spec fn view(&self) -> CellInfoV {
        CellInfoV { capacity: self.capacity, lock_hash: self.lock_hash@ }
    }
}

/// The persisted 40-byte record layout: 8 bytes of little-endian capacity
/// followed by the 32-byte owner lock hash.
pub open spec fn cell_record_bytes(c: CellInfoV) -> Seq<u8> {
    u64_le_bytes(c.capacity) + c.lock_hash
}

impl CellInfo {
    pub open spec fn wf(&self) -> bool {
        self.lock_hash@.len() == 32
    }

    pub fn new(capacity: u64, lock_hash: Vec<u8>) -> (r: Self)
        ensures
            r@ == (CellInfoV { capacity, lock_hash: lock_hash@ }),
    {
        CellInfo { capacity, lock_hash }
    }

    /// Serializes the record to its 40-byte layout.
    pub fn to_vec(&self) -> (r: Vec<u8>)
        ensures
            r@ == cell_record_bytes(self@),
            r@.len() == 8 + self.lock_hash@.len(),
    {
        let mut r = u64_to_le(self.capacity);
        push_all(&mut r, &self.lock_hash);
        r
    }

    /// Reads a record back from its 40-byte layout; the result is exactly the
    /// record whose serialization is the given bytes.
    pub fn from_slice(slice: &Vec<u8>) -> (r: Self)
        requires
            slice@.len() == 40,
        ensures
            cell_record_bytes(r@) == slice@,
            r.wf(),
    {
        let mut cap_bytes: Vec<u8> = Vec::new();
        let mut hash: Vec<u8> = Vec::new();
        let mut i: usize = 0;
        while i < 8
            invariant
                slice@.len() == 40,
                i <= 8,
                cap_bytes@ == slice@.take(i as int),
            decreases 8 - i,
        {
            cap_bytes.push(slice[i]);
            i = i + 1;
            proof {
                assert(slice@.take(i as int) =~= slice@.take(i - 1).push(slice@[i - 1]));
            }
        }
        while i < 40
            invariant
                slice@.len() == 40,
                8 <= i <= 40,
                hash@ == slice@.subrange(8, i as int),
            decreases 40 - i,
        {
            hash.push(slice[i]);
            i = i + 1;
            proof {
                assert(slice@.subrange(8, i as int) =~= slice@.subrange(8, i - 1).push(
                    slice@[i - 1],
                ));
            }
        }
        let capacity = u64_from_le(&cap_bytes);
        let r = CellInfo { capacity, lock_hash: hash };
        proof {
            assert(cell_record_bytes(r@) =~= slice@);
        }
        r
    }

    /// Structural copy.
    pub fn duplicate(&self) -> (r: Self)
        ensures
            r@ == self@,
    {
        CellInfo { capacity: self.capacity, lock_hash: clone_bytes(&self.lock_hash) }
    }
}

/// The 64-bit packings are injective: equal record bytes mean equal records.
/// With the exact serialization contracts this gives the round-trip law:
/// decoding an encoded record returns the record unchanged.
pub proof fn lemma_cell_record_roundtrip(a: CellInfoV, b: CellInfoV)
    requires
        a.lock_hash.len() == 32,
        b.lock_hash.len() == 32,
        cell_record_bytes(a) == cell_record_bytes(b),
    ensures
        a == b,
{
    let x = a.capacity;
    let y = b.capacity;
    assert forall|k: int| 0 <= k < 8 implies u64_le_bytes(x)[k] == u64_le_bytes(y)[k] by {
        assert(cell_record_bytes(a)[k] == u64_le_bytes(x)[k]);
        assert(cell_record_bytes(b)[k] == u64_le_bytes(y)[k]);
    }
    assert((x & 0xff) as u8 == (y & 0xff) as u8 && ((x >> 8) & 0xff) as u8 == ((y >> 8)
        & 0xff) as u8 && ((x >> 16) & 0xff) as u8 == ((y >> 16) & 0xff) as u8 && ((x >> 24)
        & 0xff) as u8 == ((y >> 24) & 0xff) as u8 && ((x >> 32) & 0xff) as u8 == ((y >> 32)
        & 0xff) as u8 && ((x >> 40) & 0xff) as u8 == ((y >> 40) & 0xff) as u8 && ((x >> 48)
        & 0xff) as u8 == ((y >> 48) & 0xff) as u8 && ((x >> 56) & 0xff) as u8 == ((y >> 56)
        & 0xff) as u8 ==> x == y) by (bit_vector);
    assert(x == y);
    assert forall|k: int| 0 <= k < 32 implies a.lock_hash[k] == b.lock_hash[k] by {
        assert(cell_record_bytes(a)[8 + k] == a.lock_hash[k]);
        assert(cell_record_bytes(b)[8 + k] == b.lock_hash[k]);
    }
    assert(a.lock_hash =~= b.lock_hash);
}

// ---------------------------------------------------------------------------
// Inputs, scripts, dependencies.
// ---------------------------------------------------------------------------

/// The mathematical value of a tracked input.
pub struct InputInfoV {
    pub out_point: OutPointV,
    pub cell_info: CellInfoV,
}

/// A spendable cell paired with its out-point, as handed to the selector.
#[derive(Debug)]
pub struct InputInfo {
    pub out_point: OutPoint,
    pub cell_info: CellInfo,
}

impl View for InputInfo {
    type V = InputInfoV;

    open spec fn view(&self) -> InputInfoV {
        InputInfoV { out_point: self.out_point@, cell_info: self.cell_info@ }
    }
}

impl InputInfo {
    pub open spec fn wf(&self) -> bool {
        self.out_point.wf() && self.cell_info.wf()
    }

    pub fn new(out_point: OutPoint, cell_info: CellInfo) -> (r: Self)
        ensures
            r@ == (InputInfoV { out_point: out_point@, cell_info: cell_info@ }),
    {
        InputInfo { out_point, cell_info }
    }

    /// Structural copy.
    pub fn duplicate(&self) -> (r: Self)
        ensures
            r@ == self@,
    {
        InputInfo { out_point: self.out_point.duplicate(), cell_info: self.cell_info.duplicate() }
    }
}

/// The mathematical value of a lock script.
pub struct ScriptV {
    pub code_hash: Seq<u8>,
    pub hash_type: ScriptHashType,
    pub args: Seq<u8>,
}

/// A lock script: the spending condition attached to a cell.
#[derive(Debug)]
pub struct Script {
    pub code_hash: Vec<u8>,
    pub hash_type: ScriptHashType,
    pub args: Vec<u8>,
}

impl View for Script {
    type V = ScriptV;

    open spec fn view(&self) -> ScriptV {
        ScriptV { code_hash: self.code_hash@, hash_type: self.hash_type, args: self.args@ }
    }
}

impl Script {
    pub open spec fn wf(&self) -> bool {
        self.code_hash@.len() == 32
    }

    /// Structural copy.
    pub fn duplicate(&self) -> (r: Self)
        ensures
            r@ == self@,
    {
        Script {
            code_hash: clone_bytes(&self.code_hash),
            hash_type: self.hash_type,
            args: clone_bytes(&self.args),
        }
    }

    /// Value equality of two scripts.
    pub fn same_as(&self, other: &Script) -> (r: bool)
        ensures
            r <==> self@ == other@,
    {
        let r = bytes_eq(&self.code_hash, &other.code_hash) && self.hash_type == other.hash_type
            && bytes_eq(&self.args, &other.args);
        proof {
            if self.code_hash@ == other.code_hash@ && self.hash_type == other.hash_type
                && self.args@ == other.args@ {
                assert(self@ == other@);
            }
        }
        r
    }
}

/// The mathematical value of a cell dependency.
pub struct CellDepV {
    pub out_point: OutPointV,
    pub dep_type: DepType,
}

/// An external reference the chain's script-verification machinery needs.
#[derive(Debug)]
pub struct CellDep {
    pub out_point: OutPoint,
    pub dep_type: DepType,
}

impl View for CellDep {
    type V = CellDepV;

    open spec fn view(&self) -> CellDepV {
        CellDepV { out_point: self.out_point@, dep_type: self.dep_type }
    }
}

impl CellDep {
    pub open spec fn wf(&self) -> bool {
        self.out_point.wf()
    }

    /// Structural copy.
    pub fn duplicate(&self) -> (r: Self)
        ensures
            r@ == self@,
    {
        CellDep { out_point: self.out_point.duplicate(), dep_type: self.dep_type }
    }
}

// ---------------------------------------------------------------------------
// Transactions.
// ---------------------------------------------------------------------------

/// The mathematical value of a transaction output.
pub struct CellOutputV {
    pub capacity: u64,
    pub lock: ScriptV,
}

/// One output of a transaction under construction: a capacity and the lock
/// script of the destination account.
#[derive(Debug)]
pub struct CellOutput {
    pub capacity: u64,
    pub lock: Script,
}

impl View for CellOutput {
    type V = CellOutputV;

    open spec fn view(&self) -> CellOutputV {
        CellOutputV { capacity: self.capacity, lock: self.lock@ }
    }
}

impl CellOutput {
    pub open spec fn wf(&self) -> bool {
        self.lock.wf()
    }
}

/// The mathematical value of an unsigned transaction.
pub struct RawTransactionV {
    pub cell_deps: Seq<CellDepV>,
    pub inputs: Seq<OutPointV>,
    pub outputs: Seq<CellOutputV>,
}

/// An unsigned transaction: its dependency set, the out-points it consumes
/// and the outputs it creates.  The version is zero, every input has a zero
/// `since` and every output carries empty data, as the generator emits them.
#[derive(Debug)]
pub struct RawTransaction {
    pub cell_deps: Vec<CellDep>,
    pub inputs: Vec<OutPoint>,
    pub outputs: Vec<CellOutput>,
}

impl View for RawTransaction {
    type V = RawTransactionV;

    open spec fn view(&self) -> RawTransactionV {
        RawTransactionV {
            cell_deps: self.cell_deps@.map_values(|d: CellDep| d@),
            inputs: self.inputs@.map_values(|op: OutPoint| op@),
            outputs: self.outputs@.map_values(|o: CellOutput| o@),
        }
    }
}

/// A fully witnessed transaction: the raw transaction and one serialized
/// witness per distinct owner, in witness-slot order.
#[derive(Debug)]
pub struct SignedTransaction {
    pub raw: RawTransaction,
    pub witnesses: Vec<Vec<u8>>,
}

// ---------------------------------------------------------------------------
// Chain metadata.
// ---------------------------------------------------------------------------

/// The mathematical value of a block anchor.
pub struct BlockMetaV {
    pub number: u64,
    pub hash: Seq<u8>,
}

/// A block height together with the block hash the chain reports there; used
/// as the checkpoint anchor.
#[derive(Debug)]
pub struct BlockMeta {
    pub number: u64,
    pub hash: Vec<u8>,
}

impl View for BlockMeta {
    type V = BlockMetaV;

    open spec fn view(&self) -> BlockMetaV {
        BlockMetaV { number: self.number, hash: self.hash@ }
    }
}

impl BlockMeta {
    pub open spec fn wf(&self) -> bool {
        self.hash@.len() == 32
    }

    /// Structural copy.
    pub fn duplicate(&self) -> (r: Self)
        ensures
            r@ == self@,
    {
        BlockMeta { number: self.number, hash: clone_bytes(&self.hash) }
    }
}

/// The definition of a lock script family: the code hash and hash type every
/// account of the scheme shares, and the dependency list its verifier needs.
#[derive(Debug)]
pub struct LockScriptConfig {
    pub code_hash: Vec<u8>,
    pub hash_type: ScriptHashType,
    pub cell_deps: Vec<CellDep>,
}

impl LockScriptConfig {
    pub open spec fn wf(&self) -> bool {
        self.code_hash@.len() == 32 && forall|i: int|
            0 <= i < self.cell_deps@.len() ==> (#[trigger] self.cell_deps@[i]).wf()
    }
}

/// One managed account as configured: raw secret key bytes and the scheme
/// that derives its lock script.
#[derive(Debug)]
pub struct Account {
    pub secret_key: Vec<u8>,
    pub lock_id: LockScriptId,
}

/// The immutable process metadata: the checkpoint anchor, the per-scheme lock
/// script definitions and the managed account list.
#[derive(Debug)]
pub struct MetaData {
    pub start_block: BlockMeta,
    pub lock_scripts: Vec<(LockScriptId, LockScriptConfig)>,
    pub accounts: Vec<Account>,
}

impl MetaData {
    pub open spec fn wf(&self) -> bool {
        self.start_block.wf() && forall|i: int|
            0 <= i < self.lock_scripts@.len() ==> (#[trigger] self.lock_scripts@[i]).1.wf()
    }

    /// The configured lock script definition for a scheme, if any.
    pub fn lock_script_for(&self, id: LockScriptId) -> (r: Option<&LockScriptConfig>)
        ensures
            match r {
                Some(cfg) => exists|i: int|
                    0 <= i < self.lock_scripts@.len() && self.lock_scripts@[i].0 == id && cfg
                        == &self.lock_scripts@[i].1,
                None => forall|i: int|
                    0 <= i < self.lock_scripts@.len() ==> (#[trigger] self.lock_scripts@[i]).0
                        != id,
            },
    {
        let mut i: usize = 0;
        while i < self.lock_scripts.len()
            invariant
                i <= self.lock_scripts@.len(),
                forall|j: int| 0 <= j < i ==> (#[trigger] self.lock_scripts@[j]).0 != id,
            decreases self.lock_scripts@.len() - i,
        {
            if self.lock_scripts[i].0 == id {
                return Some(&self.lock_scripts[i].1);
            }
            i = i + 1;
        }
        None
    }
}

} // verus!
