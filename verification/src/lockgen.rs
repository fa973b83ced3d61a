//! Weighted random choice of destination accounts.

use vstd::prelude::*;

use rand::distr::Distribution;

use crate::accounts::AccountMap;
use crate::errors::{Error, Result};
use crate::records::clone_bytes;

verus! {

/// The weighted-index distribution of the `rand` crate, opaque to the
/// verifier; its contents are described by [`weighted_index_weights`].
#[verifier::external_body]
pub struct WeightedDist {
    inner: rand::distr::weighted::WeightedIndex<usize>,
}

/// The weights a weighted-index distribution was built from.
pub uninterp spec fn weighted_index_weights(w: WeightedDist) -> Seq<usize>;

/// The summed weight of a candidate list, as an unbounded integer.
pub open spec fn sum_weights(ws: Seq<usize>) -> int
    decreases ws.len(),
{
    if ws.len() == 0 {
        0
    } else {
        ws[0] + sum_weights(ws.drop_first())
    }
}

/// Whether a weighted draw over the given weights is possible: some weight,
/// a positive total, and a total the machine can hold.
pub open spec fn drawable(ws: Seq<usize>) -> bool {
    ws.len() > 0 && 0 < sum_weights(ws) <= usize::MAX
}

/// Relies on WeightedIndex::new: on success the distribution draws over
/// exactly the given weights; it fails exactly when the weights are empty,
/// sum to zero, or their sum overflows the machine word.
#[verifier::external_body]
fn weighted_index_new(weights: &Vec<usize>) -> (r: Result<WeightedDist>)
    ensures
        match r {
            Ok(w) => weighted_index_weights(w) == weights@ && drawable(weights@),
            Err(e) => e is Runtime && !drawable(weights@),
        },
{
    match rand::distr::weighted::WeightedIndex::new(weights) {
        Ok(inner) => Ok(WeightedDist { inner }),
        Err(e) => Err(Error::Runtime(e.to_string())),
    }
}

/// Relies on WeightedIndex::sample: every draw is an index into the weights
/// with a positive weight.
#[verifier::external_body]
fn weighted_index_draw(w: &WeightedDist) -> (i: usize)
    ensures
        i < weighted_index_weights(*w).len(),
        weighted_index_weights(*w)[i as int] > 0,
{
    w.inner.sample(&mut rand::rng())
}

/// Draws destination lock hashes over the managed accounts with the
/// configured per-scheme weights.
pub struct LockGenerator {
    items: Vec<(Vec<u8>, usize)>,
    index: WeightedDist,
}

impl LockGenerator {
    /// The candidate lock hashes with their weights.
    pub closed spec fn items_spec(self) -> Seq<(Vec<u8>, usize)> {
        self.items@
    }

    /// The distribution draws over exactly the items' weights.
    pub closed spec fn wf(self) -> bool {
        weighted_index_weights(self.index) == self.items@.map_values(|p: (Vec<u8>, usize)| p.1)
    }

    /// Builds a generator over the given weighted lock hashes; fails exactly
    /// when no draw would be possible (no items, zero total weight, or a
    /// total beyond the machine word).
    pub fn new(items: Vec<(Vec<u8>, usize)>) -> (r: Result<Self>)
        ensures
            match r {
                Ok(g) => g.wf() && g.items_spec() == items@ && drawable(
                    items@.map_values(|p: (Vec<u8>, usize)| p.1),
                ),
                Err(e) => e is Runtime && !drawable(
                    items@.map_values(|p: (Vec<u8>, usize)| p.1),
                ),
            },
    {
        let mut weights: Vec<usize> = Vec::new();
        let mut i: usize = 0;
        while i < items.len()
            invariant
                i <= items@.len(),
                weights@.len() == i,
                forall|j: int| 0 <= j < i ==> weights@[j] == (#[trigger] items@[j]).1,
            decreases items@.len() - i,
        {
            weights.push(items[i].1);
            i = i + 1;
        }
        proof {
            assert(weights@ =~= items@.map_values(|p: (Vec<u8>, usize)| p.1));
        }
        let index = weighted_index_new(&weights)?;
        Ok(LockGenerator { items, index })
    }

    /// Draws one destination: the lock hash of some item with a positive
    /// weight.
    pub fn generate(&self) -> (h: Vec<u8>)
        requires
            self.wf(),
        ensures
            exists|j: int|
                0 <= j < self.items_spec().len() && h@ == (#[trigger] self.items_spec()[j]).0@
                    && self.items_spec()[j].1 > 0,
    {
        let i = weighted_index_draw(&self.index);
        proof {
            assert(weighted_index_weights(self.index).len() == self.items@.len());
            assert(weighted_index_weights(self.index)[i as int] == self.items@[i as int].1);
        }
        let h = clone_bytes(&self.items[i].0);
        proof {
            assert(0 <= i < self.items_spec().len() && h@ == self.items_spec()[i as int].0@
                && self.items_spec()[i as int].1 > 0);
        }
        h
    }
}

/// The generator's candidates are exactly the managed accounts' lock
/// hashes, in account order.
pub open spec fn lock_gen_aligned(g: LockGenerator, accounts: AccountMap) -> bool {
    &&& g.items_spec().len() == accounts.entries_spec().len()
    &&& forall|j: int|
        0 <= j < g.items_spec().len() ==> (#[trigger] g.items_spec()[j]).0@ == (
        accounts.entries_spec()[j]).lock_hash@
}

} // verus!
