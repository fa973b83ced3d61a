//! The synchronizer: the checkpoint preflight check, the scan-window
//! decision, and the application of one block's effects to the ledger.
//!
//! Fetching headers and blocks is remote I/O and stays outside the library;
//! the caller hands each fetched block to [`apply_block`], which applies all
//! of the block's insertions and removals and then advances the cursor, so a
//! restart never skips or duplicates a height.

use vstd::prelude::*;

use crate::accounts::{find_owner, AccountEntry, AccountMap};
use crate::errors::{Error, Result};
use crate::ledger::CellLedger;
use crate::records::{BlockMeta, CellInfo, CellInfoV, CellOutput, CellOutputV, OutPoint, OutPointV};
use crate::records::clone_bytes;

verus! {

// ---------------------------------------------------------------------------
// Block data.
// ---------------------------------------------------------------------------

/// The mathematical value of one transaction as scanned from a block.
pub struct TxDataV {
    pub hash: Seq<u8>,
    pub outputs: Seq<CellOutputV>,
    pub inputs: Seq<OutPointV>,
}

/// One transaction as scanned from a block: its hash, its outputs and the
/// out-points its inputs consume.
#[derive(Debug)]
pub struct TxData {
    pub hash: Vec<u8>,
    pub outputs: Vec<CellOutput>,
    pub inputs: Vec<OutPoint>,
}

impl View for TxData {
    type V = TxDataV;

    open spec fn view(&self) -> TxDataV {
        TxDataV {
            hash: self.hash@,
            outputs: self.outputs@.map_values(|o: CellOutput| o@),
            inputs: self.inputs@.map_values(|op: OutPoint| op@),
        }
    }
}

impl TxData {
    pub open spec fn wf(&self) -> bool {
        &&& self.hash@.len() == 32
        &&& self.outputs@.len() <= u32::MAX
        &&& forall|i: int| 0 <= i < self.outputs@.len() ==> (#[trigger] self.outputs@[i]).wf()
        &&& forall|i: int| 0 <= i < self.inputs@.len() ==> (#[trigger] self.inputs@[i]).wf()
    }
}

/// One block's transactions, in block order.
#[derive(Debug)]
pub struct BlockData {
    pub transactions: Vec<TxData>,
}

impl View for BlockData {
    type V = Seq<TxDataV>;

    open spec fn view(&self) -> Seq<TxDataV> {
        self.transactions@.map_values(|t: TxData| t@)
    }
}

impl BlockData {
    pub open spec fn wf(&self) -> bool {
        forall|i: int| 0 <= i < self.transactions@.len() ==> (#[trigger] self.transactions@[i]).wf()
    }
}

// ---------------------------------------------------------------------------
// The effects of a block, as folds over the cell maps.
// ---------------------------------------------------------------------------

/// The out-point of the `idx`-th output of a transaction.
pub open spec fn created_out_point(txh: Seq<u8>, idx: int) -> OutPointV {
    OutPointV { tx_hash: txh, index: idx as u32 }
}

/// Inserts the first `upto` outputs owned by a managed account.
pub open spec fn apply_outputs(
    m: Map<OutPointV, CellInfoV>,
    accts: Seq<AccountEntry>,
    txh: Seq<u8>,
    outs: Seq<CellOutputV>,
    upto: int,
) -> Map<OutPointV, CellInfoV>
    decreases upto,
{
    if upto <= 0 {
        m
    } else {
        let m1 = apply_outputs(m, accts, txh, outs, upto - 1);
        match find_owner(accts, outs[upto - 1].lock) {
            Option::Some(h) => m1.insert(
                created_out_point(txh, upto - 1),
                CellInfoV { capacity: outs[upto - 1].capacity, lock_hash: h },
            ),
            Option::None => m1,
        }
    }
}

/// Removes the out-points consumed by the first `upto` inputs.
pub open spec fn remove_inputs(
    m: Map<OutPointV, CellInfoV>,
    ins: Seq<OutPointV>,
    upto: int,
) -> Map<OutPointV, CellInfoV>
    decreases upto,
{
    if upto <= 0 {
        m
    } else {
        remove_inputs(m, ins, upto - 1).remove(ins[upto - 1])
    }
}

/// One transaction's effect on the spendable set: its owned outputs are
/// inserted, then its consumed out-points removed.
pub open spec fn apply_tx_spendable(
    m: Map<OutPointV, CellInfoV>,
    accts: Seq<AccountEntry>,
    tx: TxDataV,
) -> Map<OutPointV, CellInfoV> {
    remove_inputs(
        apply_outputs(m, accts, tx.hash, tx.outputs, tx.outputs.len() as int),
        tx.inputs,
        tx.inputs.len() as int,
    )
}

/// One transaction's effect on the pending set: its consumed out-points are
/// removed.
pub open spec fn apply_tx_pending(
    m: Map<OutPointV, CellInfoV>,
    tx: TxDataV,
) -> Map<OutPointV, CellInfoV> {
    remove_inputs(m, tx.inputs, tx.inputs.len() as int)
}

/// The first `upto` transactions' effect on the spendable set.
pub open spec fn apply_block_spendable(
    m: Map<OutPointV, CellInfoV>,
    accts: Seq<AccountEntry>,
    txs: Seq<TxDataV>,
    upto: int,
) -> Map<OutPointV, CellInfoV>
    decreases upto,
{
    if upto <= 0 {
        m
    } else {
        apply_tx_spendable(apply_block_spendable(m, accts, txs, upto - 1), accts, txs[upto - 1])
    }
}

/// The first `upto` transactions' effect on the pending set.
pub open spec fn apply_block_pending(
    m: Map<OutPointV, CellInfoV>,
    txs: Seq<TxDataV>,
    upto: int,
) -> Map<OutPointV, CellInfoV>
    decreases upto,
{
    if upto <= 0 {
        m
    } else {
        apply_tx_pending(apply_block_pending(m, txs, upto - 1), txs[upto - 1])
    }
}

/// No output of the block re-creates an out-point that is already pending.
/// On a real chain this always holds: an out-point is created exactly once.
pub open spec fn fresh_outputs(mp: Map<OutPointV, CellInfoV>, txs: Seq<TxDataV>) -> bool {
    forall|t: int, o: int|
        0 <= t < txs.len() && 0 <= o < txs[t].outputs.len() ==> !mp.contains_key(
            #[trigger] created_out_point(txs[t].hash, o),
        )
}

// ---------------------------------------------------------------------------
// Preflight and window decisions.
// ---------------------------------------------------------------------------

/// Verifies the stored checkpoint against the header the remote chain
/// reports at the checkpoint height.  A missing header or a hash mismatch is
/// fatal: the engine is pointed at the wrong chain and must not proceed.
pub fn check_chain(start: &BlockMeta, remote: &Option<BlockMeta>) -> (r: Result<()>)
    ensures
        match r {
            Ok(()) => remote matches Some(h) && h@.hash == start@.hash,
            Err(e) => {
                &&& e is Runtime
                &&& match remote {
                    Some(h) => h@.hash != start@.hash,
                    None => true,
                }
            },
        },
{
    match remote {
        Some(header) => {
            if crate::bytesutil::bytes_eq(&header.hash, &start.hash) {
                Ok(())
            } else {
                Err(Error::runtime("the provided node isn't the expected chain".to_string()))
            }
        },
        None => Err(
            Error::runtime("the provided node doesn't have enough chain data".to_string()),
        ),
    }
}

/// The scan window for one round: from the next height to scan up to the
/// tip minus the confirmation delay, inclusive; nothing when the tip is too
/// close, in which case the round is skipped.
pub fn sync_window(next_num: u64, delay_blocks: u64, tip_num: u64) -> (r: Option<(u64, u64)>)
    requires
        next_num + delay_blocks <= u64::MAX,
    ensures
        match r {
            Some(w) => {
                &&& next_num + delay_blocks < tip_num
                &&& w.0 == next_num
                &&& w.1 == tip_num - delay_blocks
                &&& w.0 <= w.1
            },
            None => next_num + delay_blocks >= tip_num,
        },
{
    if next_num + delay_blocks >= tip_num {
        None
    } else {
        Some((next_num, tip_num - delay_blocks))
    }
}

// ---------------------------------------------------------------------------
// Applying a block.
// ---------------------------------------------------------------------------

/// Applies one block's effects to the ledger, then persists the cursor as
/// that block's height, so resuming restarts at the next height.
///
/// If no out-point was both spendable and pending before, and the block does
/// not re-create an out-point that is already pending, none is afterwards.
#[verifier::loop_isolation(false)]
pub fn apply_block(
    ledger: &mut CellLedger,
    accounts: &AccountMap,
    block: &BlockData,
    number: u64,
)
    requires
        old(ledger).wf(),
        accounts.wf(),
        block.wf(),
    ensures
        final(ledger).wf(),
        final(ledger).spendable_map() == apply_block_spendable(
            old(ledger).spendable_map(),
            accounts.entries_spec(),
            block@,
            block@.len() as int,
        ),
        final(ledger).pending_map() == apply_block_pending(
            old(ledger).pending_map(),
            block@,
            block@.len() as int,
        ),
        final(ledger).prev_number_spec() == Some(number),
        final(ledger).metadata_spec() == old(ledger).metadata_spec(),
        old(ledger).no_dual() && fresh_outputs(old(ledger).pending_map(), block@)
            ==> final(ledger).no_dual(),
{
    let ghost accts = accounts.entries_spec();
    let ghost txs = block@;
    let ghost sp0 = old(ledger).spendable_map();
    let ghost pn0 = old(ledger).pending_map();
    let ghost keep = old(ledger).no_dual() && fresh_outputs(pn0, txs);
    let mut t: usize = 0;
    while t < block.transactions.len()
        invariant
            t <= txs.len(),
            txs.len() == block.transactions@.len(),
            ledger.wf(),
            ledger.spendable_map() == apply_block_spendable(sp0, accts, txs, t as int),
            ledger.pending_map() == apply_block_pending(pn0, txs, t as int),
            ledger.prev_number_spec() == old(ledger).prev_number_spec(),
            ledger.metadata_spec() == old(ledger).metadata_spec(),
            forall|k: OutPointV|
                #[trigger] ledger.pending_map().contains_key(k) ==> pn0.contains_key(k),
            keep ==> ledger.no_dual(),
        decreases txs.len() - t,
    {
        let tx = &block.transactions[t];
        let ghost txv = txs[t as int];
        proof {
            assert(txv == tx@);
        }
        let ghost sp_tx = ledger.spendable_map();
        let ghost pn_tx = ledger.pending_map();
        let mut o: usize = 0;
        while o < tx.outputs.len()
            invariant
                o <= txv.outputs.len(),
                txv.outputs.len() == tx.outputs@.len(),
                txv == tx@,
                ledger.wf(),
                ledger.spendable_map() == apply_outputs(sp_tx, accts, txv.hash, txv.outputs, o as int),
                ledger.pending_map() == pn_tx,
                ledger.prev_number_spec() == old(ledger).prev_number_spec(),
                ledger.metadata_spec() == old(ledger).metadata_spec(),
                keep ==> ledger.no_dual(),
            decreases txv.outputs.len() - o,
        {
            let output = &tx.outputs[o];
            proof {
                assert(txv.outputs[o as int] == output@);
            }
            match accounts.find_by_script(&output.lock) {
                Some(entry) => {
                    let op = OutPoint::new(clone_bytes(&tx.hash), o as u32);
                    let info = CellInfo::new(output.capacity, clone_bytes(&entry.lock_hash));
                    proof {
                        assert(op@ == created_out_point(txv.hash, o as int));
                        if keep {
                            assert(!pn0.contains_key(created_out_point(txv.hash, o as int)));
                            assert(!ledger.pending_map().contains_key(op@));
                        }
                    }
                    ledger.add_cell(op, info);
                },
                None => {},
            }
            o = o + 1;
        }
        proof {
            assert(txv.outputs.len() as int == tx.outputs@.len() as int);
        }
        let mut i: usize = 0;
        let ghost sp_in = ledger.spendable_map();
        let ghost pn_in = ledger.pending_map();
        while i < tx.inputs.len()
            invariant
                i <= txv.inputs.len(),
                txv.inputs.len() == tx.inputs@.len(),
                txv == tx@,
                ledger.wf(),
                ledger.spendable_map() == remove_inputs(sp_in, txv.inputs, i as int),
                ledger.pending_map() == remove_inputs(pn_in, txv.inputs, i as int),
                ledger.prev_number_spec() == old(ledger).prev_number_spec(),
                ledger.metadata_spec() == old(ledger).metadata_spec(),
                forall|k: OutPointV|
                    #[trigger] ledger.pending_map().contains_key(k) ==> pn_in.contains_key(k),
                keep ==> ledger.no_dual(),
            decreases txv.inputs.len() - i,
        {
            let input = &tx.inputs[i];
            proof {
                assert(txv.inputs[i as int] == input@);
            }
            ledger.rm_cell(input);
            i = i + 1;
        }
        proof {
            assert(ledger.spendable_map() == apply_tx_spendable(sp_tx, accts, txv));
            assert(ledger.pending_map() == apply_tx_pending(pn_tx, txv));
            assert(ledger.spendable_map() == apply_block_spendable(sp0, accts, txs, t + 1));
            assert(ledger.pending_map() == apply_block_pending(pn0, txs, t + 1));
            assert forall|k: OutPointV|
                #[trigger] ledger.pending_map().contains_key(k) implies pn0.contains_key(k) by {
                lemma_remove_inputs_shrinks(pn_in, txv.inputs, i as int, k);
            }
        }
        t = t + 1;
    }
    ledger.put_prev_number(number);
}

/// A removal fold never adds keys.
proof fn lemma_remove_inputs_shrinks(
    m: Map<OutPointV, CellInfoV>,
    ins: Seq<OutPointV>,
    upto: int,
    k: OutPointV,
)
    requires
        remove_inputs(m, ins, upto).contains_key(k),
    ensures
        m.contains_key(k),
    decreases upto,
{
    if upto > 0 {
        lemma_remove_inputs_shrinks(m, ins, upto - 1, k);
    }
}

// ---------------------------------------------------------------------------
// Frame laws: out-points outside a block's effects never change state.
// ---------------------------------------------------------------------------

/// Whether some transaction of the block creates the out-point.
pub open spec fn block_creates(txs: Seq<TxDataV>, k: OutPointV) -> bool {
    exists|t: int, o: int|
        0 <= t < txs.len() && 0 <= o < txs[t].outputs.len() && #[trigger] created_out_point(
            txs[t].hash,
            o,
        ) == k
}

/// Whether some transaction of the block consumes the out-point.
pub open spec fn block_consumes(txs: Seq<TxDataV>, k: OutPointV) -> bool {
    exists|t: int, i: int| 0 <= t < txs.len() && 0 <= i < txs[t].inputs.len() && (#[trigger] txs[t].inputs[i]) == k
}

proof fn lemma_apply_outputs_frame(
    m: Map<OutPointV, CellInfoV>,
    accts: Seq<AccountEntry>,
    txh: Seq<u8>,
    outs: Seq<CellOutputV>,
    upto: int,
    k: OutPointV,
)
    requires
        forall|o: int| 0 <= o < upto ==> #[trigger] created_out_point(txh, o) != k,
    ensures
        apply_outputs(m, accts, txh, outs, upto).contains_key(k) == m.contains_key(k),
        m.contains_key(k) ==> apply_outputs(m, accts, txh, outs, upto)[k] == m[k],
    decreases upto,
{
    if upto > 0 {
        lemma_apply_outputs_frame(m, accts, txh, outs, upto - 1, k);
    }
}

proof fn lemma_remove_inputs_frame(
    m: Map<OutPointV, CellInfoV>,
    ins: Seq<OutPointV>,
    upto: int,
    k: OutPointV,
)
    requires
        forall|i: int| 0 <= i < upto ==> (#[trigger] ins[i]) != k,
    ensures
        remove_inputs(m, ins, upto).contains_key(k) == m.contains_key(k),
        m.contains_key(k) ==> remove_inputs(m, ins, upto)[k] == m[k],
    decreases upto,
{
    if upto > 0 {
        lemma_remove_inputs_frame(m, ins, upto - 1, k);
    }
}

/// An out-point that the block neither creates nor consumes keeps exactly
/// its old state in the spendable set after the block is applied.
pub proof fn lemma_apply_block_spendable_frame(
    m: Map<OutPointV, CellInfoV>,
    accts: Seq<AccountEntry>,
    txs: Seq<TxDataV>,
    upto: int,
    k: OutPointV,
)
    requires
        0 <= upto <= txs.len(),
        !block_creates(txs, k),
        !block_consumes(txs, k),
    ensures
        apply_block_spendable(m, accts, txs, upto).contains_key(k) == m.contains_key(k),
        m.contains_key(k) ==> apply_block_spendable(m, accts, txs, upto)[k] == m[k],
    decreases upto,
{
    if upto > 0 {
        lemma_apply_block_spendable_frame(m, accts, txs, upto - 1, k);
        let m1 = apply_block_spendable(m, accts, txs, upto - 1);
        let tx = txs[upto - 1];
        assert forall|o: int| 0 <= o < tx.outputs.len() implies #[trigger] created_out_point(
            tx.hash,
            o,
        ) != k by {
            if created_out_point(tx.hash, o) == k {
                assert(block_creates(txs, k));
            }
        }
        lemma_apply_outputs_frame(m1, accts, tx.hash, tx.outputs, tx.outputs.len() as int, k);
        let m2 = apply_outputs(m1, accts, tx.hash, tx.outputs, tx.outputs.len() as int);
        assert forall|i: int| 0 <= i < tx.inputs.len() implies (#[trigger] tx.inputs[i]) != k by {
            if tx.inputs[i] == k {
                assert(block_consumes(txs, k));
            }
        }
        lemma_remove_inputs_frame(m2, tx.inputs, tx.inputs.len() as int, k);
    }
}

/// An out-point that the block does not consume keeps exactly its old state
/// in the pending set after the block is applied.
pub proof fn lemma_apply_block_pending_frame(
    m: Map<OutPointV, CellInfoV>,
    txs: Seq<TxDataV>,
    upto: int,
    k: OutPointV,
)
    requires
        0 <= upto <= txs.len(),
        !block_consumes(txs, k),
    ensures
        apply_block_pending(m, txs, upto).contains_key(k) == m.contains_key(k),
        m.contains_key(k) ==> apply_block_pending(m, txs, upto)[k] == m[k],
    decreases upto,
{
    if upto > 0 {
        lemma_apply_block_pending_frame(m, txs, upto - 1, k);
        let m1 = apply_block_pending(m, txs, upto - 1);
        let tx = txs[upto - 1];
        assert forall|i: int| 0 <= i < tx.inputs.len() implies (#[trigger] tx.inputs[i]) != k by {
            if tx.inputs[i] == k {
                assert(block_consumes(txs, k));
            }
        }
        lemma_remove_inputs_frame(m1, tx.inputs, tx.inputs.len() as int, k);
    }
}

} // verus!
