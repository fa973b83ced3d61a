//! The orchestrator's decisions: marking a submitted batch's inputs as
//! pending, and the idle-backoff rule.  The run loop itself — remote calls
//! and sleeps — lives outside the library and drives these decisions.

use vstd::prelude::*;

use crate::errors::Result;
use crate::ledger::CellLedger;
use crate::records::InputInfo;

verus! {

/// After a successful submission, every consumed input is moved from the
/// spendable set to the pending set; a failed move (an input that was not
/// spendable) surfaces as a storage error and aborts the round.
pub fn after_submission(ledger: &mut CellLedger, inputs: &Vec<InputInfo>) -> (r: Result<()>)
    requires
        old(ledger).wf(),
    ensures
        final(ledger).wf(),
        final(ledger).prev_number_spec() == old(ledger).prev_number_spec(),
        final(ledger).metadata_spec() == old(ledger).metadata_spec(),
        old(ledger).no_dual() ==> final(ledger).no_dual(),
        match r {
            Ok(()) => forall|i: int|
                0 <= i < inputs@.len() ==> !final(ledger).spendable_map().contains_key(
                    (#[trigger] inputs@[i])@.out_point,
                ) && final(ledger).pending_map().contains_key((inputs@[i])@.out_point),
            Err(e) => e is Storage && exists|i: int|
                0 <= i < inputs@.len() && !final(ledger).spendable_map().contains_key(
                    (#[trigger] inputs@[i])@.out_point,
                ),
        },
{
    let mut i: usize = 0;
    while i < inputs.len()
        invariant
            i <= inputs@.len(),
            ledger.wf(),
            ledger.prev_number_spec() == old(ledger).prev_number_spec(),
            ledger.metadata_spec() == old(ledger).metadata_spec(),
            old(ledger).no_dual() ==> ledger.no_dual(),
            forall|j: int|
                0 <= j < i ==> !ledger.spendable_map().contains_key(
                    (#[trigger] inputs@[j])@.out_point,
                ) && ledger.pending_map().contains_key((inputs@[j])@.out_point),
        decreases inputs@.len() - i,
    {
        match ledger.spend_cell(&inputs[i].out_point) {
            Ok(()) => {},
            Err(e) => {
                proof {
                    assert(0 <= i < inputs@.len() && !ledger.spendable_map().contains_key(
                        (inputs@[i as int])@.out_point,
                    ));
                }
                return Err(e);
            },
        }
        i = i + 1;
    }
    Ok(())
}

/// Whether the orchestrator should sleep for the idle interval: the sync
/// round was skipped and no batch was built, so there is nothing to do but
/// wait for new chain data.
pub fn should_idle(skip_sync: bool, batches_built: u64) -> (r: bool)
    ensures
        r <==> (skip_sync && batches_built == 0),
{
    skip_sync && batches_built == 0
}

} // verus!
