//! The input selector: accumulates spendable cells, one at a time, into a
//! batch that must exceed one minimum output plus headroom in value, and is
//! handed over once it reaches the randomized target size (capped by the
//! hard input limit) — or discarded when the cells run out first.

use vstd::prelude::*;

use crate::errors::{Error, Result};
use crate::records::{InputInfo, InputInfoV};
use crate::BYTE_SHANNONS;

verus! {

/// The selector's verdict after considering one more cell.
#[derive(Debug, Clone, Copy, PartialEq, Eq, Structural)]
pub enum FetchInputsResult {
    /// The spendable cells ran out before the batch was worth enough; the
    /// partial batch is discarded and the round stops.
    Lack,
    /// The batch is not finished; keep accumulating.
    Next,
    /// The batch is worth enough and large enough; hand it to the builder.
    Enough,
}

/// The summed capacity of a batch, in shannons, as an unbounded integer.
pub open spec fn sum_capacities(s: Seq<InputInfo>) -> int
    decreases s.len(),
{
    if s.len() == 0 {
        0
    } else {
        s[0]@.cell_info.capacity + sum_capacities(s.drop_first())
    }
}

pub proof fn lemma_sum_capacities_push(s: Seq<InputInfo>, x: InputInfo)
    ensures
        sum_capacities(s.push(x)) == sum_capacities(s) + x@.cell_info.capacity,
    decreases s.len(),
{
    if s.len() == 0 {
        assert(s.push(x).drop_first() =~= s);
    } else {
        assert(s.push(x).drop_first() =~= s.drop_first().push(x));
        lemma_sum_capacities_push(s.drop_first(), x);
    }
}

/// Sums a batch's capacities; fails exactly when the sum overflows 64 bits.
pub fn sum_capacities_checked(inputs: &Vec<InputInfo>) -> (r: Option<u64>)
    ensures
        match r {
            Some(t) => t == sum_capacities(inputs@),
            None => sum_capacities(inputs@) > u64::MAX,
        },
{
    let mut acc: u64 = 0;
    let mut i: usize = 0;
    proof {
        assert(inputs@.take(0) =~= Seq::<InputInfo>::empty());
    }
    while i < inputs.len()
        invariant
            i <= inputs@.len(),
            acc == sum_capacities(inputs@.take(i as int)),
        decreases inputs@.len() - i,
    {
        proof {
            assert(inputs@.take(i + 1) =~= inputs@.take(i as int).push(inputs@[i as int]));
            lemma_sum_capacities_push(inputs@.take(i as int), inputs@[i as int]);
            lemma_sum_take_le(inputs@, i + 1);
        }
        match acc.checked_add(inputs[i].cell_info.capacity) {
            Some(next) => {
                acc = next;
            },
            None => {
                return None;
            },
        }
        i = i + 1;
    }
    proof {
        assert(inputs@.take(inputs@.len() as int) =~= inputs@);
    }
    Some(acc)
}

/// A prefix never sums to more than the whole: each capacity is nonnegative.
proof fn lemma_sum_take_le(s: Seq<InputInfo>, i: int)
    requires
        0 <= i <= s.len(),
    ensures
        sum_capacities(s.take(i)) <= sum_capacities(s),
        sum_capacities(s.take(i)) >= 0,
    decreases s.len() - i,
{
    lemma_sum_nonneg(s.take(i));
    if i < s.len() {
        assert(s.take(i + 1) =~= s.take(i).push(s[i]));
        lemma_sum_capacities_push(s.take(i), s[i]);
        lemma_sum_take_le(s, i + 1);
        assert(s.take(s.len() as int) =~= s);
    } else {
        assert(s.take(i) =~= s);
    }
}

proof fn lemma_sum_nonneg(s: Seq<InputInfo>)
    ensures
        sum_capacities(s) >= 0,
    decreases s.len(),
{
    if s.len() > 0 {
        lemma_sum_nonneg(s.drop_first());
    }
}

/// The views of a batch's entries.
pub open spec fn input_views(s: Seq<InputInfo>) -> Seq<InputInfoV> {
    s.map_values(|x: InputInfo| x@)
}

/// The value a batch must exceed before it may be emitted: one minimum
/// output plus headroom, in shannons.
pub open spec fn batch_threshold(output_min_bytes: u32) -> int {
    (output_min_bytes + 1) * (BYTE_SHANNONS as int)
}

/// Considers one more spendable cell for the growing batch, advancing the
/// cursor over the snapshot, and decides whether the batch is finished.
///
/// The batch is "enough" once its value meets the threshold and its size
/// reaches the randomized target (capped by the hard limit), or once the
/// snapshot is exhausted with the threshold met; it is "lacking" when the
/// snapshot runs out first.  Summing the batch fails only on 64-bit
/// overflow.
pub fn fetch_more_inputs(
    cells: &Vec<InputInfo>,
    pos: &mut usize,
    inputs: &mut Vec<InputInfo>,
    inputs_limit: usize,
    output_min_bytes: u32,
    expected_input_size: usize,
) -> (r: Result<FetchInputsResult>)
    requires
        *old(pos) <= cells@.len(),
    ensures
        ({
            let took = *old(pos) < cells@.len();
            let total = sum_capacities(final(inputs)@);
            let thr = batch_threshold(output_min_bytes);
            let goal: int = if expected_input_size < inputs_limit {
                expected_input_size as int
            } else {
                inputs_limit as int
            };
            &&& *final(pos) == if took {
                *old(pos) + 1
            } else {
                *old(pos) as int
            }
            &&& input_views(final(inputs)@) == if took {
                input_views(old(inputs)@).push(cells@[*old(pos) as int]@)
            } else {
                input_views(old(inputs)@)
            }
            &&& match r {
                Ok(FetchInputsResult::Lack) => !took && (old(inputs)@.len() == 0 || (total
                    <= u64::MAX && total < thr)),
                Ok(FetchInputsResult::Next) => took && total <= u64::MAX && (total < thr
                    || final(inputs)@.len() < goal),
                Ok(FetchInputsResult::Enough) => total <= u64::MAX && total >= thr && (!took
                    && old(inputs)@.len() > 0 || final(inputs)@.len() >= goal),
                Err(e) => total > u64::MAX && e is Runtime,
            }
        }),
{
    let mut last = false;
    if *pos < cells.len() {
        let cell = cells[*pos].duplicate();
        inputs.push(cell);
        *pos = *pos + 1;
        proof {
            assert(input_views(inputs@) =~= input_views(old(inputs)@).push(
                cells@[*old(pos) as int]@,
            ));
        }
    } else {
        if inputs.len() == 0 {
            proof {
                assert(input_views(inputs@) =~= input_views(old(inputs)@));
            }
            return Ok(FetchInputsResult::Lack);
        }
        last = true;
        proof {
            assert(input_views(inputs@) =~= input_views(old(inputs)@));
        }
    }
    let total = match sum_capacities_checked(inputs) {
        Some(t) => t,
        None => {
            return Err(Error::runtime("total capacity overflowed".to_string()));
        },
    };
    let threshold = (output_min_bytes as u64 + 1) * BYTE_SHANNONS;
    if total < threshold {
        if last {
            return Ok(FetchInputsResult::Lack);
        } else {
            return Ok(FetchInputsResult::Next);
        }
    }
    let goal = if expected_input_size < inputs_limit {
        expected_input_size
    } else {
        inputs_limit
    };
    if last || inputs.len() >= goal {
        Ok(FetchInputsResult::Enough)
    } else {
        Ok(FetchInputsResult::Next)
    }
}

} // verus!
