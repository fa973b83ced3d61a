//! The chain's wire format for transactions.
//!
//! Every structure is one of three layouts: a fixed-size concatenation, a
//! fixed-item vector (a four-byte little-endian item count followed by the
//! items), or a dynamic table (a four-byte little-endian full size, one
//! four-byte little-endian offset per field measured from the start of the
//! table, then the field payloads).  An absent optional field is empty.

use vstd::prelude::*;

use crate::bytesutil::{u32_le_bytes, u32_to_le, u64_le_bytes, u64_to_le, push_all};
use crate::errors::{Error, Result};
use crate::records::{
    CellDepV, CellOutputV, OutPointV, RawTransactionV, ScriptV, CellDep, CellOutput, OutPoint,
    RawTransaction, Script,
};
use crate::records::out_point_bytes;

verus! {

// ---------------------------------------------------------------------------
// Concatenation of byte strings.
// ---------------------------------------------------------------------------

/// All the byte strings of a sequence, laid end to end.
pub open spec fn cat_all(items: Seq<Seq<u8>>) -> Seq<u8>
    decreases items.len(),
{
    if items.len() == 0 {
        Seq::empty()
    } else {
        items[0] + cat_all(items.drop_first())
    }
}

/// The summed length of a sequence of byte strings.
pub open spec fn total_len(items: Seq<Seq<u8>>) -> int
    decreases items.len(),
{
    if items.len() == 0 {
        0
    } else {
        items[0].len() + total_len(items.drop_first())
    }
}

pub proof fn lemma_cat_all_push(items: Seq<Seq<u8>>, x: Seq<u8>)
    ensures
        cat_all(items.push(x)) == cat_all(items) + x,
    decreases items.len(),
{
    if items.len() == 0 {
        assert(items.push(x).drop_first() =~= items);
        assert(cat_all(items.push(x)) =~= cat_all(items) + x);
    } else {
        assert(items.push(x).drop_first() =~= items.drop_first().push(x));
        lemma_cat_all_push(items.drop_first(), x);
        assert(cat_all(items.push(x)) =~= cat_all(items) + x);
    }
}

pub proof fn lemma_total_len_push(items: Seq<Seq<u8>>, x: Seq<u8>)
    ensures
        total_len(items.push(x)) == total_len(items) + x.len(),
    decreases items.len(),
{
    if items.len() == 0 {
        assert(items.push(x).drop_first() =~= items);
    } else {
        assert(items.push(x).drop_first() =~= items.drop_first().push(x));
        lemma_total_len_push(items.drop_first(), x);
    }
}

pub proof fn lemma_total_len_nonneg(items: Seq<Seq<u8>>)
    ensures
        total_len(items) >= 0,
    decreases items.len(),
{
    if items.len() > 0 {
        lemma_total_len_nonneg(items.drop_first());
    }
}

/// The summed length of three byte strings laid end to end.
pub proof fn lemma_total_len3(a: Seq<u8>, b: Seq<u8>, c: Seq<u8>)
    ensures
        total_len(seq![a, b, c]) == a.len() + b.len() + c.len(),
{
    let items = seq![a, b, c];
    assert(items.drop_first() =~= seq![b, c]);
    assert(seq![b, c].drop_first() =~= seq![c]);
    assert(seq![c].drop_first() =~= Seq::<Seq<u8>>::empty());
    assert(total_len(Seq::<Seq<u8>>::empty()) == 0);
    assert(total_len(seq![c]) == c.len());
    assert(total_len(seq![b, c]) == b.len() + c.len());
    assert(total_len(items) == a.len() + b.len() + c.len());
}

pub proof fn lemma_cat_all_len(items: Seq<Seq<u8>>)
    ensures
        cat_all(items).len() == total_len(items),
    decreases items.len(),
{
    if items.len() > 0 {
        lemma_cat_all_len(items.drop_first());
    }
}

/// The summed length of a prefix never exceeds that of the whole.
pub proof fn lemma_total_len_take_le(items: Seq<Seq<u8>>, i: int)
    requires
        0 <= i <= items.len(),
    ensures
        total_len(items.take(i)) <= total_len(items),
        total_len(items.take(i)) >= 0,
    decreases items.len() - i,
{
    lemma_total_len_nonneg(items.take(i));
    if i < items.len() {
        assert(items.take(i + 1) =~= items.take(i).push(items[i]));
        lemma_total_len_push(items.take(i), items[i]);
        lemma_total_len_take_le(items, i + 1);
        assert(items.take(items.len() as int) =~= items);
    } else {
        assert(items.take(i) =~= items);
    }
}

// ---------------------------------------------------------------------------
// The three layouts.
// ---------------------------------------------------------------------------

/// A byte vector: item count, then the raw bytes.
pub open spec fn mol_bytes(b: Seq<u8>) -> Seq<u8> {
    u32_le_bytes(b.len() as u32) + b
}

/// An absent optional byte vector is empty; a present one is the vector.
pub open spec fn mol_bytes_opt(b: Option<Seq<u8>>) -> Seq<u8> {
    match b {
        Option::None => Seq::empty(),
        Option::Some(s) => mol_bytes(s),
    }
}

/// A vector of fixed-size items: item count, then the items.
pub open spec fn mol_fixvec(items: Seq<Seq<u8>>) -> Seq<u8> {
    u32_le_bytes(items.len() as u32) + cat_all(items)
}

/// The byte length of a table or dynamic vector over the given payloads.
pub open spec fn mol_full_len(items: Seq<Seq<u8>>) -> int {
    4 + 4 * items.len() + total_len(items)
}

/// Where the `i`-th payload starts, measured from the start of the table.
pub open spec fn mol_offset(items: Seq<Seq<u8>>, i: int) -> int {
    4 + 4 * items.len() + total_len(items.take(i))
}

/// A table, or a vector of dynamically sized items: full size, one offset
/// per payload, then the payloads.
pub open spec fn mol_dyn(items: Seq<Seq<u8>>) -> Seq<u8> {
    u32_le_bytes(mol_full_len(items) as u32) + cat_all(
        Seq::new(items.len(), |i: int| u32_le_bytes(mol_offset(items, i) as u32)),
    ) + cat_all(items)
}

/// Whether a table over the given payloads fits the four-byte size field.
pub open spec fn mol_dyn_fits(items: Seq<Seq<u8>>) -> bool {
    mol_full_len(items) <= u32::MAX
}

/// Assembles a table (or dynamic vector) from its serialized fields.
/// Fails exactly when the table would overflow its four-byte size field.
pub fn mol_dyn_from(fields: &Vec<Vec<u8>>) -> (r: Result<Vec<u8>>)
    ensures
        ({
            let items = fields@.map_values(|v: Vec<u8>| v@);
            match r {
                Ok(bytes) => bytes@ == mol_dyn(items) && mol_dyn_fits(items),
                Err(e) => !mol_dyn_fits(items) && e is Runtime,
            }
        }),
{
    let ghost items = fields@.map_values(|v: Vec<u8>| v@);
    let n = fields.len();
    proof {
        lemma_total_len_nonneg(items);
    }
    if n as u64 > (u32::MAX as u64 - 4) / 4 {
        proof {
            assert(!mol_dyn_fits(items));
        }
        return Err(Error::runtime("encoded structure is too large".to_string()));
    }
    let mut offs: Vec<u64> = Vec::new();
    let mut tot: u64 = 4 + 4 * (n as u64);
    let mut i: usize = 0;
    proof {
        assert(items.take(0) =~= Seq::<Seq<u8>>::empty());
    }
    while i < n
        invariant
            n == fields@.len(),
            items == fields@.map_values(|v: Vec<u8>| v@),
            i <= n,
            offs@.len() == i,
            tot == mol_offset(items, i as int),
            forall|j: int| 0 <= j < i ==> offs@[j] == mol_offset(items, j),
            tot <= 4 + 4 * (n as u64) + total_len(items.take(i as int)),
        decreases n - i,
    {
        offs.push(tot);
        let flen = fields[i].len();
        proof {
            assert(items[i as int] == fields@[i as int]@);
            assert(items.take(i + 1) =~= items.take(i as int).push(items[i as int]));
            lemma_total_len_push(items.take(i as int), items[i as int]);
            lemma_total_len_take_le(items, i + 1);
        }
        if flen as u64 > u64::MAX - tot {
            proof {
                lemma_total_len_nonneg(items.take(i as int));
                assert(mol_full_len(items) >= mol_offset(items, i + 1));
                assert(!mol_dyn_fits(items));
            }
            return Err(Error::runtime("encoded structure is too large".to_string()));
        }
        tot = tot + flen as u64;
        i = i + 1;
    }
    proof {
        assert(items.take(n as int) =~= items);
        assert(tot == mol_full_len(items));
    }
    if tot > u32::MAX as u64 {
        return Err(Error::runtime("encoded structure is too large".to_string()));
    }
    let mut r = u32_to_le(tot as u32);
    proof {
        assert(tot as u32 == mol_full_len(items) as u32);
    }
    let ghost offbytes = Seq::new(items.len(), |j: int| u32_le_bytes(mol_offset(items, j) as u32));
    let mut i: usize = 0;
    while i < n
        invariant
            n == fields@.len(),
            items == fields@.map_values(|v: Vec<u8>| v@),
            offs@.len() == n,
            forall|j: int| 0 <= j < n ==> offs@[j] == mol_offset(items, j),
            offbytes == Seq::new(
                items.len(),
                |j: int| u32_le_bytes(mol_offset(items, j) as u32),
            ),
            i <= n,
            r@ == u32_le_bytes(mol_full_len(items) as u32) + cat_all(offbytes.take(i as int)),
        decreases n - i,
    {
        let ob = u32_to_le(offs[i] as u32);
        proof {
            assert(offs@[i as int] as u32 == mol_offset(items, i as int) as u32);
            assert(offbytes.take(i + 1) =~= offbytes.take(i as int).push(offbytes[i as int]));
            lemma_cat_all_push(offbytes.take(i as int), offbytes[i as int]);
        }
        push_all(&mut r, &ob);
        i = i + 1;
    }
    proof {
        assert(offbytes.take(n as int) =~= offbytes);
    }
    let mut i: usize = 0;
    while i < n
        invariant
            n == fields@.len(),
            items == fields@.map_values(|v: Vec<u8>| v@),
            offbytes == Seq::new(
                items.len(),
                |j: int| u32_le_bytes(mol_offset(items, j) as u32),
            ),
            i <= n,
            r@ == u32_le_bytes(mol_full_len(items) as u32) + cat_all(offbytes) + cat_all(
                items.take(i as int),
            ),
        decreases n - i,
    {
        proof {
            assert(items[i as int] == fields@[i as int]@);
            assert(items.take(i + 1) =~= items.take(i as int).push(items[i as int]));
            lemma_cat_all_push(items.take(i as int), items[i as int]);
        }
        push_all(&mut r, &fields[i]);
        i = i + 1;
    }
    proof {
        assert(items.take(n as int) =~= items);
        assert(r@ == mol_dyn(items));
    }
    Ok(r)
}

/// Assembles a fixed-item vector from its serialized items.  Fails exactly
/// when the item count would overflow its four-byte field.
pub fn mol_fixvec_from(fields: &Vec<Vec<u8>>) -> (r: Result<Vec<u8>>)
    ensures
        ({
            let items = fields@.map_values(|v: Vec<u8>| v@);
            match r {
                Ok(bytes) => bytes@ == mol_fixvec(items) && items.len() <= u32::MAX,
                Err(e) => items.len() > u32::MAX && e is Runtime,
            }
        }),
{
    let ghost items = fields@.map_values(|v: Vec<u8>| v@);
    let n = fields.len();
    if n as u64 > u32::MAX as u64 {
        return Err(Error::runtime("encoded vector is too long".to_string()));
    }
    let mut r = u32_to_le(n as u32);
    let mut i: usize = 0;
    while i < n
        invariant
            n == fields@.len(),
            items == fields@.map_values(|v: Vec<u8>| v@),
            i <= n,
            r@ == u32_le_bytes(items.len() as u32) + cat_all(items.take(i as int)),
        decreases n - i,
    {
        proof {
            assert(items[i as int] == fields@[i as int]@);
            assert(items.take(i + 1) =~= items.take(i as int).push(items[i as int]));
            lemma_cat_all_push(items.take(i as int), items[i as int]);
        }
        push_all(&mut r, &fields[i]);
        i = i + 1;
    }
    proof {
        assert(items.take(n as int) =~= items);
    }
    Ok(r)
}

/// Serializes a byte vector with its length prefix.
pub fn mol_bytes_from(b: &Vec<u8>) -> (r: Result<Vec<u8>>)
    ensures
        match r {
            Ok(bytes) => bytes@ == mol_bytes(b@) && b@.len() <= u32::MAX,
            Err(e) => b@.len() > u32::MAX && e is Runtime,
        },
{
    if b.len() as u64 > u32::MAX as u64 {
        return Err(Error::runtime("encoded vector is too long".to_string()));
    }
    let mut r = u32_to_le(b.len() as u32);
    push_all(&mut r, b);
    Ok(r)
}

// ---------------------------------------------------------------------------
// Chain structures.
// ---------------------------------------------------------------------------

/// The serialized lock script: a table of code hash, hash-type byte and
/// argument bytes.
pub open spec fn script_ser(s: ScriptV) -> Seq<u8> {
    mol_dyn(seq![s.code_hash, seq![s.hash_type.byte_spec()], mol_bytes(s.args)])
}

pub open spec fn script_fits(s: ScriptV) -> bool {
    s.args.len() <= u32::MAX && mol_dyn_fits(
        seq![s.code_hash, seq![s.hash_type.byte_spec()], mol_bytes(s.args)],
    )
}

/// Serializes a lock script.  Fails exactly when the script would overflow
/// the wire format's four-byte size fields.
pub fn serialize_script(s: &Script) -> (r: Result<Vec<u8>>)
    ensures
        match r {
            Ok(bytes) => bytes@ == script_ser(s@) && script_fits(s@),
            Err(e) => !script_fits(s@) && e is Runtime,
        },
{
    let args = mol_bytes_from(&s.args)?;
    let mut ht: Vec<u8> = Vec::new();
    ht.push(s.hash_type.as_byte());
    let mut fields: Vec<Vec<u8>> = Vec::new();
    fields.push(crate::records::clone_bytes(&s.code_hash));
    fields.push(ht);
    fields.push(args);
    let ghost items = seq![s@.code_hash, seq![s@.hash_type.byte_spec()], mol_bytes(s@.args)];
    proof {
        assert(fields@.map_values(|v: Vec<u8>| v@) =~= items);
    }
    mol_dyn_from(&fields)
}

/// The serialized transaction input: a zero `since` and the out-point.
pub open spec fn cell_input_ser(op: OutPointV) -> Seq<u8> {
    u64_le_bytes(0) + out_point_bytes(op)
}

/// Serializes a transaction input consuming the given out-point.
pub fn serialize_cell_input(op: &OutPoint) -> (r: Vec<u8>)
    ensures
        r@ == cell_input_ser(op@),
{
    let mut r = u64_to_le(0);
    let packed = op.pack();
    push_all(&mut r, &packed);
    r
}

/// The serialized cell dependency: the out-point and the dep-type byte.
pub open spec fn cell_dep_ser(d: CellDepV) -> Seq<u8> {
    out_point_bytes(d.out_point) + seq![d.dep_type.byte_spec()]
}

/// Serializes a cell dependency.
pub fn serialize_cell_dep(d: &CellDep) -> (r: Vec<u8>)
    ensures
        r@ == cell_dep_ser(d@),
{
    let mut r = d.out_point.pack();
    r.push(d.dep_type.as_byte());
    proof {
        assert(r@ =~= cell_dep_ser(d@));
    }
    r
}

/// The serialized output: a table of capacity, lock script and absent type
/// script.
pub open spec fn cell_output_ser(o: CellOutputV) -> Seq<u8> {
    mol_dyn(seq![u64_le_bytes(o.capacity), script_ser(o.lock), Seq::<u8>::empty()])
}

pub open spec fn cell_output_fits(o: CellOutputV) -> bool {
    script_fits(o.lock) && mol_dyn_fits(
        seq![u64_le_bytes(o.capacity), script_ser(o.lock), Seq::<u8>::empty()],
    )
}

/// Serializes a transaction output.  Fails exactly when the output would
/// overflow the wire format's four-byte size fields.
pub fn serialize_cell_output(o: &CellOutput) -> (r: Result<Vec<u8>>)
    ensures
        match r {
            Ok(bytes) => bytes@ == cell_output_ser(o@) && cell_output_fits(o@),
            Err(e) => !cell_output_fits(o@) && e is Runtime,
        },
{
    let lock = serialize_script(&o.lock)?;
    let mut fields: Vec<Vec<u8>> = Vec::new();
    fields.push(u64_to_le(o.capacity));
    fields.push(lock);
    fields.push(Vec::new());
    let ghost items = seq![u64_le_bytes(o@.capacity), script_ser(o@.lock), Seq::<u8>::empty()];
    proof {
        assert(fields@.map_values(|v: Vec<u8>| v@) =~= items);
    }
    mol_dyn_from(&fields)
}

/// The serialized witness structure: a table whose lock field carries the
/// signature bytes and whose two other optional fields are absent.
pub open spec fn witness_args_ser(lock: Option<Seq<u8>>) -> Seq<u8> {
    mol_dyn(seq![mol_bytes_opt(lock), Seq::<u8>::empty(), Seq::<u8>::empty()])
}

pub open spec fn witness_args_fits(lock: Option<Seq<u8>>) -> bool {
    (match lock {
        Option::None => true,
        Option::Some(s) => s.len() <= u32::MAX,
    }) && mol_dyn_fits(seq![mol_bytes_opt(lock), Seq::<u8>::empty(), Seq::<u8>::empty()])
}

/// Serializes a witness whose lock field holds the given bytes.  Fails
/// exactly when the witness would overflow its four-byte size fields.
pub fn serialize_witness_args(lock: &Vec<u8>) -> (r: Result<Vec<u8>>)
    ensures
        match r {
            Ok(bytes) => bytes@ == witness_args_ser(Some(lock@)) && witness_args_fits(
                Some(lock@),
            ),
            Err(e) => !witness_args_fits(Some(lock@)) && e is Runtime,
        },
{
    let lock_field = mol_bytes_from(lock)?;
    let mut fields: Vec<Vec<u8>> = Vec::new();
    fields.push(lock_field);
    fields.push(Vec::new());
    fields.push(Vec::new());
    let ghost items = seq![mol_bytes_opt(Some(lock@)), Seq::<u8>::empty(), Seq::<u8>::empty()];
    proof {
        assert(fields@.map_values(|v: Vec<u8>| v@) =~= items);
    }
    mol_dyn_from(&fields)
}

/// The six serialized fields of a raw transaction: version, cell deps,
/// header deps (always empty), inputs, outputs and outputs data (one empty
/// byte vector per output).
pub open spec fn raw_tx_fields(tx: RawTransactionV) -> Seq<Seq<u8>> {
    seq![
        u32_le_bytes(0),
        mol_fixvec(tx.cell_deps.map_values(|d: CellDepV| cell_dep_ser(d))),
        mol_fixvec(Seq::<Seq<u8>>::empty()),
        mol_fixvec(tx.inputs.map_values(|op: OutPointV| cell_input_ser(op))),
        mol_dyn(tx.outputs.map_values(|o: CellOutputV| cell_output_ser(o))),
        mol_dyn(Seq::new(tx.outputs.len(), |i: int| mol_bytes(Seq::<u8>::empty()))),
    ]
}

/// The serialized raw transaction, whose digest is the transaction hash.
pub open spec fn raw_tx_ser(tx: RawTransactionV) -> Seq<u8> {
    mol_dyn(raw_tx_fields(tx))
}

pub open spec fn raw_tx_fits(tx: RawTransactionV) -> bool {
    &&& tx.cell_deps.len() <= u32::MAX
    &&& tx.inputs.len() <= u32::MAX
    &&& forall|i: int| 0 <= i < tx.outputs.len() ==> cell_output_fits(#[trigger] tx.outputs[i])
    &&& mol_dyn_fits(tx.outputs.map_values(|o: CellOutputV| cell_output_ser(o)))
    &&& mol_dyn_fits(Seq::new(tx.outputs.len(), |i: int| mol_bytes(Seq::<u8>::empty())))
    &&& mol_dyn_fits(raw_tx_fields(tx))
}

/// Serializes a raw transaction to the exact bytes the chain hashes.  Fails
/// exactly when some structure would overflow its four-byte size fields.
pub fn serialize_raw_tx(tx: &RawTransaction) -> (r: Result<Vec<u8>>)
    ensures
        match r {
            Ok(bytes) => bytes@ == raw_tx_ser(tx@) && raw_tx_fits(tx@),
            Err(e) => !raw_tx_fits(tx@) && e is Runtime,
        },
{
    let ghost dep_items = tx@.cell_deps.map_values(|d: CellDepV| cell_dep_ser(d));
    let mut dep_fields: Vec<Vec<u8>> = Vec::new();
    let mut i: usize = 0;
    while i < tx.cell_deps.len()
        invariant
            i <= tx.cell_deps@.len(),
            dep_items == tx@.cell_deps.map_values(|d: CellDepV| cell_dep_ser(d)),
            tx@.cell_deps.len() == tx.cell_deps@.len(),
            dep_fields@.len() == i,
            forall|j: int| 0 <= j < i ==> (#[trigger] dep_fields@[j])@ == dep_items[j],
        decreases tx.cell_deps@.len() - i,
    {
        let ser = serialize_cell_dep(&tx.cell_deps[i]);
        proof {
            assert(dep_items[i as int] == cell_dep_ser(tx@.cell_deps[i as int]));
            assert(tx@.cell_deps[i as int] == tx.cell_deps@[i as int]@);
        }
        dep_fields.push(ser);
        i = i + 1;
    }
    proof {
        assert(dep_fields@.map_values(|v: Vec<u8>| v@) =~= dep_items);
    }
    let cell_deps_ser = mol_fixvec_from(&dep_fields)?;

    let empty_fields: Vec<Vec<u8>> = Vec::new();
    proof {
        assert(empty_fields@.map_values(|v: Vec<u8>| v@) =~= Seq::<Seq<u8>>::empty());
    }
    let header_deps_ser = mol_fixvec_from(&empty_fields)?;

    let ghost input_items = tx@.inputs.map_values(|op: OutPointV| cell_input_ser(op));
    let mut input_fields: Vec<Vec<u8>> = Vec::new();
    let mut i: usize = 0;
    while i < tx.inputs.len()
        invariant
            i <= tx.inputs@.len(),
            input_items == tx@.inputs.map_values(|op: OutPointV| cell_input_ser(op)),
            tx@.inputs.len() == tx.inputs@.len(),
            input_fields@.len() == i,
            forall|j: int| 0 <= j < i ==> (#[trigger] input_fields@[j])@ == input_items[j],
        decreases tx.inputs@.len() - i,
    {
        let ser = serialize_cell_input(&tx.inputs[i]);
        proof {
            assert(input_items[i as int] == cell_input_ser(tx@.inputs[i as int]));
            assert(tx@.inputs[i as int] == tx.inputs@[i as int]@);
        }
        input_fields.push(ser);
        i = i + 1;
    }
    proof {
        assert(input_fields@.map_values(|v: Vec<u8>| v@) =~= input_items);
    }
    let inputs_ser = mol_fixvec_from(&input_fields)?;

    let ghost output_items = tx@.outputs.map_values(|o: CellOutputV| cell_output_ser(o));
    let mut output_fields: Vec<Vec<u8>> = Vec::new();
    let mut i: usize = 0;
    while i < tx.outputs.len()
        invariant
            i <= tx.outputs@.len(),
            output_items == tx@.outputs.map_values(|o: CellOutputV| cell_output_ser(o)),
            tx@.outputs.len() == tx.outputs@.len(),
            output_fields@.len() == i,
            forall|j: int| 0 <= j < i ==> (#[trigger] output_fields@[j])@ == output_items[j],
            forall|j: int| 0 <= j < i ==> cell_output_fits(#[trigger] tx@.outputs[j]),
        decreases tx.outputs@.len() - i,
    {
        proof {
            assert(output_items[i as int] == cell_output_ser(tx@.outputs[i as int]));
            assert(tx@.outputs[i as int] == tx.outputs@[i as int]@);
        }
        let ser = match serialize_cell_output(&tx.outputs[i]) {
            Ok(ser) => ser,
            Err(e) => {
                proof {
                    assert(!cell_output_fits(tx@.outputs[i as int]));
                    assert(!raw_tx_fits(tx@));
                }
                return Err(e);
            },
        };
        output_fields.push(ser);
        i = i + 1;
    }
    proof {
        assert(output_fields@.map_values(|v: Vec<u8>| v@) =~= output_items);
    }
    let outputs_ser = mol_dyn_from(&output_fields)?;

    let ghost data_items = Seq::new(tx@.outputs.len(), |i: int| mol_bytes(Seq::<u8>::empty()));
    let mut data_fields: Vec<Vec<u8>> = Vec::new();
    let empty: Vec<u8> = Vec::new();
    let mut i: usize = 0;
    while i < tx.outputs.len()
        invariant
            i <= tx.outputs@.len(),
            data_items == Seq::new(tx@.outputs.len(), |i: int| mol_bytes(Seq::<u8>::empty())),
            tx@.outputs.len() == tx.outputs@.len(),
            empty@ == Seq::<u8>::empty(),
            data_fields@.len() == i,
            forall|j: int| 0 <= j < i ==> (#[trigger] data_fields@[j])@ == data_items[j],
        decreases tx.outputs@.len() - i,
    {
        let d = mol_bytes_from(&empty)?;
        proof {
            assert(data_items[i as int] == mol_bytes(Seq::<u8>::empty()));
        }
        data_fields.push(d);
        i = i + 1;
    }
    proof {
        assert(data_fields@.map_values(|v: Vec<u8>| v@) =~= data_items);
    }
    let outputs_data_ser = mol_dyn_from(&data_fields)?;

    let mut fields: Vec<Vec<u8>> = Vec::new();
    fields.push(u32_to_le(0));
    fields.push(cell_deps_ser);
    fields.push(header_deps_ser);
    fields.push(inputs_ser);
    fields.push(outputs_ser);
    fields.push(outputs_data_ser);
    proof {
        assert(fields@.map_values(|v: Vec<u8>| v@) =~= raw_tx_fields(tx@));
    }
    mol_dyn_from(&fields)
}

} // verus!
