//! The ledger of owned cells: process metadata, the synchronization cursor,
//! and the two logical cell sets — "spendable" (believed unspent) and
//! "pending" (locally spent, awaiting chain confirmation).

use vstd::prelude::*;

use crate::errors::{Error, Result};
use crate::records::{CellInfo, CellInfoV, InputInfo, MetaData, OutPoint, OutPointV};

verus! {

// ---------------------------------------------------------------------------
// A cell set as a mathematical map.
// ---------------------------------------------------------------------------

/// Whether some entry of the sequence carries the given out-point.
pub open spec fn has_cell(s: Seq<InputInfo>, k: OutPointV) -> bool {
    exists|i: int| 0 <= i < s.len() && (#[trigger] s[i])@.out_point == k
}

/// The record stored under the given out-point (meaningful when the keys are
/// unique and the out-point is present).
pub open spec fn cell_at(s: Seq<InputInfo>, k: OutPointV) -> CellInfoV {
    (s[choose|i: int| 0 <= i < s.len() && (#[trigger] s[i])@.out_point == k])@.cell_info
}

/// No two entries carry the same out-point.
pub open spec fn unique_keys(s: Seq<InputInfo>) -> bool {
    forall|i: int, j: int|
        0 <= i < j < s.len() ==> (#[trigger] s[i])@.out_point != (#[trigger] s[j])@.out_point
}

/// The mathematical content of a cell set: its entries as a map keyed by
/// out-point.
pub open spec fn cells_map(s: Seq<InputInfo>) -> Map<OutPointV, CellInfoV> {
    Map::new(|k: OutPointV| has_cell(s, k), |k: OutPointV| cell_at(s, k))
}

/// Every entry of the sequence is well formed.
pub open spec fn entries_wf(s: Seq<InputInfo>) -> bool {
    forall|i: int| 0 <= i < s.len() ==> (#[trigger] s[i]).wf()
}

/// Under unique keys, the record stored at an index is the record the map
/// holds under that index's out-point.
pub proof fn lemma_cell_at_index(s: Seq<InputInfo>, i: int)
    requires
        unique_keys(s),
        0 <= i < s.len(),
    ensures
        has_cell(s, s[i]@.out_point),
        cell_at(s, s[i]@.out_point) == s[i]@.cell_info,
{
    let k = s[i]@.out_point;
    assert(has_cell(s, k));
    let j = choose|j: int| 0 <= j < s.len() && (#[trigger] s[j])@.out_point == k;
    if i != j {
        assert(s[i]@.out_point != s[j]@.out_point);
    }
}

// ---------------------------------------------------------------------------
// The ledger.
// ---------------------------------------------------------------------------

/// The in-memory state of the cell store.  Persistence mirrors this state
/// byte for byte through the serialization functions of the crate.
pub struct CellLedger {
    spendable: Vec<InputInfo>,
    pending: Vec<InputInfo>,
    prev_number: Option<u64>,
    metadata: Option<MetaData>,
}

impl CellLedger {
    /// The spendable cells as a map keyed by out-point.
    pub closed spec fn spendable_map(self) -> Map<OutPointV, CellInfoV> {
        cells_map(self.spendable@)
    }

    /// The pending cells as a map keyed by out-point.
    pub closed spec fn pending_map(self) -> Map<OutPointV, CellInfoV> {
        cells_map(self.pending@)
    }

    /// The spendable cells in their snapshot iteration order.
    pub closed spec fn spendable_seq(self) -> Seq<InputInfo> {
        self.spendable@
    }

    /// The persisted cursor: the last fully processed block height.
    pub closed spec fn prev_number_spec(self) -> Option<u64> {
        self.prev_number
    }

    /// The stored process metadata, if initialized.
    pub closed spec fn metadata_spec(self) -> Option<MetaData> {
        self.metadata
    }

    /// Structural well-formedness: unique keys in each set and well-formed
    /// entries throughout.
    pub closed spec fn wf(self) -> bool {
        unique_keys(self.spendable@) && unique_keys(self.pending@) && entries_wf(self.spendable@)
            && entries_wf(self.pending@)
    }

    /// No out-point is spendable and pending simultaneously.
    pub open spec fn no_dual(self) -> bool {
        forall|k: OutPointV|
            !(#[trigger] self.spendable_map().contains_key(k)
                && self.pending_map().contains_key(k))
    }

    /// A fresh, empty ledger.
    pub fn new() -> (r: Self)
        ensures
            r.wf(),
            r.no_dual(),
            r.spendable_map() == Map::<OutPointV, CellInfoV>::empty(),
            r.pending_map() == Map::<OutPointV, CellInfoV>::empty(),
            r.spendable_seq().len() == 0,
            r.prev_number_spec() is None,
            r.metadata_spec() is None,
    {
        let r = CellLedger {
            spendable: Vec::new(),
            pending: Vec::new(),
            prev_number: None,
            metadata: None,
        };
        proof {
            assert(r.spendable_map() =~= Map::<OutPointV, CellInfoV>::empty());
            assert(r.pending_map() =~= Map::<OutPointV, CellInfoV>::empty());
        }
        r
    }

    /// Stores the process metadata.
    pub fn put_metadata(&mut self, metadata: MetaData)
        ensures
            final(self).metadata_spec() == Some(metadata),
            final(self).spendable_map() == old(self).spendable_map(),
            final(self).pending_map() == old(self).pending_map(),
            final(self).spendable_seq() == old(self).spendable_seq(),
            final(self).prev_number_spec() == old(self).prev_number_spec(),
            final(self).wf() == old(self).wf(),
            final(self).no_dual() == old(self).no_dual(),
    {
        self.metadata = Some(metadata);
    }

    /// Reads the stored process metadata; fails with a storage error when
    /// none was ever written.
    pub fn get_metadata(&self) -> (r: Result<&MetaData>)
        ensures
            match r {
                Ok(m) => self.metadata_spec() == Some(*m),
                Err(e) => self.metadata_spec() is None && e is Storage,
            },
    {
        match &self.metadata {
            Some(m) => Ok(m),
            None => Err(Error::storage("can not found the metadata".to_string())),
        }
    }

    /// Persists the cursor: `number` is the last fully processed height.
    pub fn put_prev_number(&mut self, number: u64)
        ensures
            final(self).prev_number_spec() == Some(number),
            final(self).spendable_map() == old(self).spendable_map(),
            final(self).pending_map() == old(self).pending_map(),
            final(self).spendable_seq() == old(self).spendable_seq(),
            final(self).metadata_spec() == old(self).metadata_spec(),
            final(self).wf() == old(self).wf(),
            final(self).no_dual() == old(self).no_dual(),
    {
        self.prev_number = Some(number);
    }

    /// The next height to scan: one past the last fully processed height, or
    /// nothing before any synchronization.
    pub fn get_next_number(&self) -> (r: Option<u64>)
        requires
            self.prev_number_spec() matches Some(n) ==> n < u64::MAX,
        ensures
            match self.prev_number_spec() {
                Some(n) => r == Some((n + 1) as u64),
                None => r is None,
            },
    {
        match &self.prev_number {
            Some(n) => Some(*n + 1),
            None => None,
        }
    }

    /// The index of the entry carrying the out-point, if present.
    fn position_of(entries: &Vec<InputInfo>, op: &OutPoint) -> (r: Option<usize>)
        ensures
            match r {
                Some(i) => i < entries@.len() && entries@[i as int]@.out_point == op@,
                None => !has_cell(entries@, op@),
            },
    {
        let mut i: usize = 0;
        while i < entries.len()
            invariant
                i <= entries@.len(),
                forall|j: int| 0 <= j < i ==> (#[trigger] entries@[j])@.out_point != op@,
            decreases entries@.len() - i,
        {
            if entries[i].out_point.same_as(op) {
                return Some(i);
            }
            i = i + 1;
        }
        None
    }

    /// Inserts a record under its out-point, overwriting any record already
    /// stored there.  Pending cells are untouched.
    pub fn add_cell(&mut self, op: OutPoint, info: CellInfo)
        requires
            old(self).wf(),
            op.wf(),
            info.wf(),
        ensures
            final(self).wf(),
            final(self).spendable_map() == old(self).spendable_map().insert(op@, info@),
            final(self).pending_map() == old(self).pending_map(),
            final(self).prev_number_spec() == old(self).prev_number_spec(),
            final(self).metadata_spec() == old(self).metadata_spec(),
            old(self).no_dual() && !old(self).pending_map().contains_key(op@) ==> final(self).no_dual(),
    {
        let ghost old_entries = self.spendable@;
        let ghost k = op@;
        let ghost v = info@;
        let entry = InputInfo::new(op, info);
        match Self::position_of(&self.spendable, &entry.out_point) {
            Some(i) => {
                self.spendable[i] = entry;
                proof {
                    let s = self.spendable@;
                    assert forall|a: int, b: int| 0 <= a < b < s.len() implies (
                    #[trigger] s[a])@.out_point != (#[trigger] s[b])@.out_point by {
                        assert(old_entries[a]@.out_point != old_entries[b]@.out_point);
                    }
                    assert(self.spendable_map() =~= cells_map(old_entries).insert(k, v)) by {
                        assert forall|kk: OutPointV| #[trigger]
                            cells_map(s).contains_key(kk) <==> cells_map(old_entries).insert(
                            k,
                            v,
                        ).contains_key(kk) by {
                            if cells_map(s).contains_key(kk) {
                                let j = choose|j: int|
                                    0 <= j < s.len() && (#[trigger] s[j])@.out_point == kk;
                                if j != i {
                                    assert(old_entries[j]@.out_point == kk);
                                    assert(has_cell(old_entries, kk));
                                }
                            }
                            if kk != k && cells_map(old_entries).contains_key(kk) {
                                let j = choose|j: int|
                                    0 <= j < old_entries.len() && (
                                    #[trigger] old_entries[j])@.out_point == kk;
                                assert(j != i);
                                assert(s[j]@.out_point == kk);
                                assert(has_cell(s, kk));
                            }
                            if kk == k {
                                assert(s[i as int]@.out_point == k);
                                assert(has_cell(s, kk));
                            }
                        }
                        assert forall|kk: OutPointV|
                            cells_map(s).contains_key(kk) implies #[trigger] cells_map(s)[kk]
                            == cells_map(old_entries).insert(k, v)[kk] by {
                            let j = choose|j: int|
                                0 <= j < s.len() && (#[trigger] s[j])@.out_point == kk;
                            lemma_cell_at_index(s, j);
                            if kk == k {
                                if j != i {
                                    assert(old_entries[j]@.out_point == old_entries[i as int]@.out_point);
                                    assert(false);
                                }
                                assert(cells_map(s)[kk] == v);
                            } else {
                                assert(j != i);
                                assert(old_entries[j]@.out_point == kk);
                                lemma_cell_at_index(old_entries, j);
                            }
                        }
                    }
                }
            },
            None => {
                self.spendable.push(entry);
                proof {
                    let s = self.spendable@;
                    assert forall|a: int, b: int| 0 <= a < b < s.len() implies (
                    #[trigger] s[a])@.out_point != (#[trigger] s[b])@.out_point by {
                        if b < s.len() - 1 {
                            assert(old_entries[a]@.out_point != old_entries[b]@.out_point);
                        } else {
                            assert(!has_cell(old_entries, k));
                            assert(old_entries[a]@.out_point != k);
                        }
                    }
                    assert(self.spendable_map() =~= cells_map(old_entries).insert(k, v)) by {
                        assert forall|kk: OutPointV| #[trigger]
                            cells_map(s).contains_key(kk) <==> cells_map(old_entries).insert(
                            k,
                            v,
                        ).contains_key(kk) by {
                            if cells_map(s).contains_key(kk) {
                                let j = choose|j: int|
                                    0 <= j < s.len() && (#[trigger] s[j])@.out_point == kk;
                                if j < s.len() - 1 {
                                    assert(old_entries[j]@.out_point == kk);
                                    assert(has_cell(old_entries, kk));
                                }
                            }
                            if kk != k && cells_map(old_entries).contains_key(kk) {
                                let j = choose|j: int|
                                    0 <= j < old_entries.len() && (
                                    #[trigger] old_entries[j])@.out_point == kk;
                                assert(s[j]@.out_point == kk);
                                assert(has_cell(s, kk));
                            }
                            if kk == k {
                                assert(s[s.len() - 1]@.out_point == k);
                                assert(has_cell(s, kk));
                            }
                        }
                        assert forall|kk: OutPointV|
                            cells_map(s).contains_key(kk) implies #[trigger] cells_map(s)[kk]
                            == cells_map(old_entries).insert(k, v)[kk] by {
                            let j = choose|j: int|
                                0 <= j < s.len() && (#[trigger] s[j])@.out_point == kk;
                            lemma_cell_at_index(s, j);
                            if kk == k {
                                if j < s.len() - 1 {
                                    assert(old_entries[j]@.out_point == k);
                                    assert(has_cell(old_entries, k));
                                    assert(false);
                                }
                                assert(cells_map(s)[kk] == v);
                            } else {
                                assert(j < s.len() - 1);
                                assert(old_entries[j]@.out_point == kk);
                                lemma_cell_at_index(old_entries, j);
                            }
                        }
                    }
                }
            },
        }
        proof {
            if old(self).no_dual() && !old(self).pending_map().contains_key(k) {
                assert forall|kk: OutPointV|
                    !(#[trigger] self.spendable_map().contains_key(kk)
                        && self.pending_map().contains_key(kk)) by {
                    if self.spendable_map().contains_key(kk) && self.pending_map().contains_key(
                        kk,
                    ) {
                        if kk == k {
                            assert(old(self).pending_map().contains_key(kk));
                        } else {
                            assert(old(self).spendable_map().contains_key(kk));
                            assert(old(self).pending_map().contains_key(kk));
                        }
                    }
                }
            }
        }
    }

    /// Removes the entry at an index, preserving uniqueness, and relates the
    /// new content to the old at the map level.
    fn remove_entry(entries: &mut Vec<InputInfo>, i: usize) -> (removed: InputInfo)
        requires
            unique_keys(old(entries)@),
            entries_wf(old(entries)@),
            i < old(entries)@.len(),
        ensures
            removed == old(entries)@[i as int],
            unique_keys(final(entries)@),
            entries_wf(final(entries)@),
            cells_map(final(entries)@) == cells_map(old(entries)@).remove(
                old(entries)@[i as int]@.out_point,
            ),
            forall|kk: OutPointV|
                #[trigger] has_cell(final(entries)@, kk) ==> has_cell(old(entries)@, kk),
    {
        let ghost old_entries = entries@;
        let ghost k = old_entries[i as int]@.out_point;
        let removed = entries.remove(i);
        proof {
            let s = entries@;
            assert forall|a: int, b: int| 0 <= a < b < s.len() implies (#[trigger] s[a])@.out_point
                != (#[trigger] s[b])@.out_point by {
                let oa: int = if a < i { a } else { a + 1 };
                let ob: int = if b < i { b } else { b + 1 };
                assert(s[a] == old_entries[oa]);
                assert(s[b] == old_entries[ob]);
                assert(old_entries[oa]@.out_point != old_entries[ob]@.out_point);
            }
            assert forall|j: int| 0 <= j < s.len() implies (#[trigger] s[j]).wf() by {
                let oj: int = if j < i { j } else { j + 1 };
                assert(s[j] == old_entries[oj]);
                assert(old_entries[oj].wf());
            }
            assert(cells_map(s) =~= cells_map(old_entries).remove(k)) by {
                assert forall|kk: OutPointV| #[trigger]
                    cells_map(s).contains_key(kk) <==> cells_map(old_entries).remove(
                    k,
                ).contains_key(kk) by {
                    if cells_map(s).contains_key(kk) {
                        let j = choose|j: int|
                            0 <= j < s.len() && (#[trigger] s[j])@.out_point == kk;
                        let oj: int = if j < i { j } else { j + 1 };
                        assert(s[j] == old_entries[oj]);
                        assert(has_cell(old_entries, kk));
                        assert(oj != i);
                        assert(old_entries[oj]@.out_point != old_entries[i as int]@.out_point);
                        assert(kk != k);
                    }
                    if kk != k && cells_map(old_entries).contains_key(kk) {
                        let j = choose|j: int|
                            0 <= j < old_entries.len() && (
                            #[trigger] old_entries[j])@.out_point == kk;
                        assert(j != i);
                        let nj: int = if j < i { j } else { j - 1 };
                        assert(s[nj] == old_entries[j]);
                        assert(has_cell(s, kk));
                    }
                }
                assert forall|kk: OutPointV| cells_map(s).contains_key(kk) implies #[trigger]
                    cells_map(s)[kk] == cells_map(old_entries).remove(k)[kk] by {
                    let j = choose|j: int| 0 <= j < s.len() && (#[trigger] s[j])@.out_point == kk;
                    lemma_cell_at_index(s, j);
                    let oj: int = if j < i { j } else { j + 1 };
                    assert(s[j] == old_entries[oj]);
                    lemma_cell_at_index(old_entries, oj);
                }
            }
            assert forall|kk: OutPointV| #[trigger]
                has_cell(s, kk) implies has_cell(old_entries, kk) by {
                let j = choose|j: int| 0 <= j < s.len() && (#[trigger] s[j])@.out_point == kk;
                let oj: int = if j < i { j } else { j + 1 };
                assert(s[j] == old_entries[oj]);
            }
        }
        removed
    }

    /// Atomically moves a record from the spendable set to the pending set;
    /// fails with a storage error, changing nothing, when the out-point is
    /// not currently spendable.
    pub fn spend_cell(&mut self, op: &OutPoint) -> (r: Result<()>)
        requires
            old(self).wf(),
        ensures
            final(self).wf(),
            final(self).prev_number_spec() == old(self).prev_number_spec(),
            final(self).metadata_spec() == old(self).metadata_spec(),
            match r {
                Ok(()) => {
                    &&& old(self).spendable_map().contains_key(op@)
                    &&& final(self).spendable_map() == old(self).spendable_map().remove(op@)
                    &&& final(self).pending_map() == old(self).pending_map().insert(
                        op@,
                        old(self).spendable_map()[op@],
                    )
                    &&& old(self).no_dual() ==> final(self).no_dual()
                },
                Err(e) => {
                    &&& !old(self).spendable_map().contains_key(op@)
                    &&& e is Storage
                    &&& final(self).spendable_map() == old(self).spendable_map()
                    &&& final(self).pending_map() == old(self).pending_map()
                    &&& final(self).spendable_seq() == old(self).spendable_seq()
                    &&& final(self).no_dual() == old(self).no_dual()
                },
            },
    {
        match Self::position_of(&self.spendable, op) {
            Some(i) => {
                proof {
                    lemma_cell_at_index(self.spendable@, i as int);
                }
                let removed = Self::remove_entry(&mut self.spendable, i);
                let ghost mid = *self;
                self.pending_insert(removed);
                proof {
                    if old(self).no_dual() {
                        assert forall|kk: OutPointV|
                            !(#[trigger] self.spendable_map().contains_key(kk)
                                && self.pending_map().contains_key(kk)) by {
                            if kk != op@ {
                                assert(self.pending_map().contains_key(kk) ==> old(
                                    self,
                                ).pending_map().contains_key(kk));
                                assert(self.spendable_map().contains_key(kk) ==> old(
                                    self,
                                ).spendable_map().contains_key(kk));
                            }
                        }
                    }
                }
                Ok(())
            },
            None => Err(Error::storage("cell should exists".to_string())),
        }
    }

    /// Inserts a record into the pending set under its out-point,
    /// overwriting any record already stored there.
    fn pending_insert(&mut self, entry: InputInfo)
        requires
            old(self).wf(),
            entry.wf(),
        ensures
            final(self).wf(),
            final(self).pending_map() == old(self).pending_map().insert(
                entry@.out_point,
                entry@.cell_info,
            ),
            final(self).spendable_map() == old(self).spendable_map(),
            final(self).spendable_seq() == old(self).spendable_seq(),
            final(self).prev_number_spec() == old(self).prev_number_spec(),
            final(self).metadata_spec() == old(self).metadata_spec(),
    {
        let ghost old_entries = self.pending@;
        let ghost k = entry@.out_point;
        let ghost v = entry@.cell_info;
        match Self::position_of(&self.pending, &entry.out_point) {
            Some(i) => {
                self.pending[i] = entry;
                proof {
                    let s = self.pending@;
                    assert forall|a: int, b: int| 0 <= a < b < s.len() implies (
                    #[trigger] s[a])@.out_point != (#[trigger] s[b])@.out_point by {
                        assert(old_entries[a]@.out_point != old_entries[b]@.out_point);
                    }
                    assert(self.pending_map() =~= cells_map(old_entries).insert(k, v)) by {
                        assert forall|kk: OutPointV| #[trigger]
                            cells_map(s).contains_key(kk) <==> cells_map(old_entries).insert(
                            k,
                            v,
                        ).contains_key(kk) by {
                            if cells_map(s).contains_key(kk) {
                                let j = choose|j: int|
                                    0 <= j < s.len() && (#[trigger] s[j])@.out_point == kk;
                                if j != i {
                                    assert(old_entries[j]@.out_point == kk);
                                    assert(has_cell(old_entries, kk));
                                }
                            }
                            if kk != k && cells_map(old_entries).contains_key(kk) {
                                let j = choose|j: int|
                                    0 <= j < old_entries.len() && (
                                    #[trigger] old_entries[j])@.out_point == kk;
                                assert(j != i);
                                assert(s[j]@.out_point == kk);
                                assert(has_cell(s, kk));
                            }
                            if kk == k {
                                assert(s[i as int]@.out_point == k);
                                assert(has_cell(s, kk));
                            }
                        }
                        assert forall|kk: OutPointV|
                            cells_map(s).contains_key(kk) implies #[trigger] cells_map(s)[kk]
                            == cells_map(old_entries).insert(k, v)[kk] by {
                            let j = choose|j: int|
                                0 <= j < s.len() && (#[trigger] s[j])@.out_point == kk;
                            lemma_cell_at_index(s, j);
                            if kk == k {
                                if j != i {
                                    assert(old_entries[j]@.out_point
                                        == old_entries[i as int]@.out_point);
                                    assert(false);
                                }
                            } else {
                                assert(j != i);
                                assert(old_entries[j]@.out_point == kk);
                                lemma_cell_at_index(old_entries, j);
                            }
                        }
                    }
                }
            },
            None => {
                self.pending.push(entry);
                proof {
                    let s = self.pending@;
                    assert forall|a: int, b: int| 0 <= a < b < s.len() implies (
                    #[trigger] s[a])@.out_point != (#[trigger] s[b])@.out_point by {
                        if b < s.len() - 1 {
                            assert(old_entries[a]@.out_point != old_entries[b]@.out_point);
                        } else {
                            assert(!has_cell(old_entries, k));
                            assert(old_entries[a]@.out_point != k);
                        }
                    }
                    assert(self.pending_map() =~= cells_map(old_entries).insert(k, v)) by {
                        assert forall|kk: OutPointV| #[trigger]
                            cells_map(s).contains_key(kk) <==> cells_map(old_entries).insert(
                            k,
                            v,
                        ).contains_key(kk) by {
                            if cells_map(s).contains_key(kk) {
                                let j = choose|j: int|
                                    0 <= j < s.len() && (#[trigger] s[j])@.out_point == kk;
                                if j < s.len() - 1 {
                                    assert(old_entries[j]@.out_point == kk);
                                    assert(has_cell(old_entries, kk));
                                }
                            }
                            if kk != k && cells_map(old_entries).contains_key(kk) {
                                let j = choose|j: int|
                                    0 <= j < old_entries.len() && (
                                    #[trigger] old_entries[j])@.out_point == kk;
                                assert(s[j]@.out_point == kk);
                                assert(has_cell(s, kk));
                            }
                            if kk == k {
                                assert(s[s.len() - 1]@.out_point == k);
                                assert(has_cell(s, kk));
                            }
                        }
                        assert forall|kk: OutPointV|
                            cells_map(s).contains_key(kk) implies #[trigger] cells_map(s)[kk]
                            == cells_map(old_entries).insert(k, v)[kk] by {
                            let j = choose|j: int|
                                0 <= j < s.len() && (#[trigger] s[j])@.out_point == kk;
                            lemma_cell_at_index(s, j);
                            if kk == k {
                                if j < s.len() - 1 {
                                    assert(old_entries[j]@.out_point == k);
                                    assert(has_cell(old_entries, k));
                                    assert(false);
                                }
                            } else {
                                assert(j < s.len() - 1);
                                assert(old_entries[j]@.out_point == kk);
                                lemma_cell_at_index(old_entries, j);
                            }
                        }
                    }
                }
            },
        }
    }

    /// Deletes the out-point from both cell sets, unconditionally; removing
    /// an absent out-point changes nothing, so the operation is idempotent.
    pub fn rm_cell(&mut self, op: &OutPoint)
        requires
            old(self).wf(),
        ensures
            final(self).wf(),
            final(self).spendable_map() == old(self).spendable_map().remove(op@),
            final(self).pending_map() == old(self).pending_map().remove(op@),
            final(self).prev_number_spec() == old(self).prev_number_spec(),
            final(self).metadata_spec() == old(self).metadata_spec(),
            old(self).no_dual() ==> final(self).no_dual(),
    {
        match Self::position_of(&self.spendable, op) {
            Some(i) => {
                proof {
                    lemma_cell_at_index(self.spendable@, i as int);
                }
                let _ = Self::remove_entry(&mut self.spendable, i);
            },
            None => {
                proof {
                    assert(self.spendable_map() =~= self.spendable_map().remove(op@));
                }
            },
        }
        match Self::position_of(&self.pending, op) {
            Some(i) => {
                proof {
                    lemma_cell_at_index(self.pending@, i as int);
                }
                let _ = Self::remove_entry(&mut self.pending, i);
            },
            None => {
                proof {
                    assert(self.pending_map() =~= self.pending_map().remove(op@));
                }
            },
        }
        proof {
            if old(self).no_dual() {
                assert forall|kk: OutPointV|
                    !(#[trigger] self.spendable_map().contains_key(kk)
                        && self.pending_map().contains_key(kk)) by {
                    assert(self.spendable_map().contains_key(kk) ==> old(
                        self,
                    ).spendable_map().contains_key(kk));
                    assert(self.pending_map().contains_key(kk) ==> old(
                        self,
                    ).pending_map().contains_key(kk));
                }
            }
        }
    }

    /// A snapshot of the spendable cells, in the ledger's iteration order:
    /// deterministic within one snapshot, which is all the selection
    /// algorithm requires.
    pub fn load_cells(&self) -> (r: Vec<InputInfo>)
        ensures
            r@.len() == self.spendable_seq().len(),
            forall|i: int| 0 <= i < r@.len() ==> (#[trigger] r@[i])@ == self.spendable_seq()[i]@,
            self.wf() ==> forall|i: int, j: int|
                0 <= i < j < r@.len() ==> (#[trigger] r@[i])@.out_point != (
                #[trigger] r@[j])@.out_point,
    {
        let mut r: Vec<InputInfo> = Vec::new();
        let mut i: usize = 0;
        while i < self.spendable.len()
            invariant
                i <= self.spendable@.len(),
                r@.len() == i,
                forall|j: int| 0 <= j < i ==> (#[trigger] r@[j])@ == self.spendable@[j]@,
            decreases self.spendable@.len() - i,
        {
            let entry = self.spendable[i].duplicate();
            r.push(entry);
            i = i + 1;
        }
        r
    }
    /// The pending cells in their snapshot iteration order.
    pub closed spec fn pending_seq(self) -> Seq<InputInfo> {
        self.pending@
    }

    /// A snapshot of the pending cells, in the ledger's iteration order.
    pub fn load_pending(&self) -> (r: Vec<InputInfo>)
        ensures
            r@.len() == self.pending_seq().len(),
            forall|i: int| 0 <= i < r@.len() ==> (#[trigger] r@[i])@ == self.pending_seq()[i]@,
            self.wf() ==> forall|i: int, j: int|
                0 <= i < j < r@.len() ==> (#[trigger] r@[i])@.out_point != (
                #[trigger] r@[j])@.out_point,
    {
        let mut r: Vec<InputInfo> = Vec::new();
        let mut i: usize = 0;
        while i < self.pending.len()
            invariant
                i <= self.pending@.len(),
                r@.len() == i,
                forall|j: int| 0 <= j < i ==> (#[trigger] r@[j])@ == self.pending@[j]@,
            decreases self.pending@.len() - i,
        {
            let entry = self.pending[i].duplicate();
            r.push(entry);
            i = i + 1;
        }
        r
    }
}

/// Removing an out-point that is not in a cell map leaves the map unchanged:
/// with the removal contracts this gives the idempotence law — deleting the
/// same out-point twice is a no-op the second time.
pub proof fn lemma_remove_absent_is_noop(m: Map<OutPointV, CellInfoV>, k: OutPointV)
    requires
        !m.contains_key(k),
    ensures
        m.remove(k) == m,
{
    assert(m.remove(k) =~= m);
}

} // verus!
