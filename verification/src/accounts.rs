//! The managed account set, keyed by lock hash.

use vstd::prelude::*;

use crate::molecule::script_fits;
use crate::records::{LockScriptId, Script, ScriptV};

verus! {

/// The mathematical value of a managed account.
pub struct LockInfoV {
    pub id: LockScriptId,
    pub script: ScriptV,
    pub secret_key: Seq<u8>,
}

/// One managed account: its scheme, its derived lock script and its raw
/// secret key bytes.
#[derive(Debug)]
pub struct LockInfo {
    pub id: LockScriptId,
    pub script: Script,
    pub secret_key: Vec<u8>,
}

impl View for LockInfo {
    type V = LockInfoV;

    open spec fn view(&self) -> LockInfoV {
        LockInfoV { id: self.id, script: self.script@, secret_key: self.secret_key@ }
    }
}

impl LockInfo {
    pub fn new(id: LockScriptId, script: Script, secret_key: Vec<u8>) -> (r: Self)
        ensures
            r@ == (LockInfoV { id, script: script@, secret_key: secret_key@ }),
    {
        LockInfo { id, script, secret_key }
    }
}

/// An account under its attribution key.
#[derive(Debug)]
pub struct AccountEntry {
    pub lock_hash: Vec<u8>,
    pub info: LockInfo,
}

impl AccountEntry {
    pub open spec fn wf(&self) -> bool {
        &&& self.lock_hash@.len() == 32
        &&& self.info.script.wf()
        &&& script_fits(self.info.script@)
        &&& self.info.secret_key@.len() == 32
    }
}

/// The first configured owner whose lock script equals the given script,
/// scanning the accounts in order.
pub open spec fn find_owner(accts: Seq<AccountEntry>, s: ScriptV) -> Option<Seq<u8>>
    decreases accts.len(),
{
    if accts.len() == 0 {
        Option::None
    } else if accts[0].info.script@ == s {
        Option::Some(accts[0].lock_hash@)
    } else {
        find_owner(accts.drop_first(), s)
    }
}

/// The managed accounts, keyed by lock hash for attribution of cells.
pub struct AccountMap {
    entries: Vec<AccountEntry>,
}

impl AccountMap {
    pub closed spec fn entries_spec(self) -> Seq<AccountEntry> {
        self.entries@
    }

    /// Unique attribution keys and well-formed entries throughout.
    pub open spec fn wf(self) -> bool {
        &&& forall|i: int, j: int|
            0 <= i < j < self.entries_spec().len() ==> (
            #[trigger] self.entries_spec()[i]).lock_hash@ != (
            #[trigger] self.entries_spec()[j]).lock_hash@
        &&& forall|i: int|
            0 <= i < self.entries_spec().len() ==> (#[trigger] self.entries_spec()[i]).wf()
    }

    pub fn new() -> (r: Self)
        ensures
            r.wf(),
            r.entries_spec().len() == 0,
    {
        AccountMap { entries: Vec::new() }
    }

    pub fn len(&self) -> (n: usize)
        ensures
            n == self.entries_spec().len(),
    {
        self.entries.len()
    }

    pub fn get(&self, i: usize) -> (r: &AccountEntry)
        requires
            i < self.entries_spec().len(),
        ensures
            r == self.entries_spec()[i as int],
    {
        &self.entries[i]
    }

    /// Inserts an account under its lock hash; a later entry with the same
    /// hash replaces the earlier one.  Every other entry is preserved, every
    /// previously present lock hash stays present, and no entry appears that
    /// is neither the inserted one nor an old one.
    pub fn insert(&mut self, entry: AccountEntry)
        requires
            old(self).wf(),
            entry.wf(),
        ensures
            final(self).wf(),
            final(self).entries_spec().len() <= old(self).entries_spec().len() + 1,
            exists|i: int|
                0 <= i < final(self).entries_spec().len() && final(self).entries_spec()[i]
                    == entry,
            forall|p: int|
                0 <= p < final(self).entries_spec().len()
                    ==> #[trigger] final(self).entries_spec()[p] == entry || exists|q: int|
                    0 <= q < old(self).entries_spec().len() && final(self).entries_spec()[p]
                        == old(self).entries_spec()[q],
            forall|q: int|
                0 <= q < old(self).entries_spec().len()
                    && (#[trigger] old(self).entries_spec()[q]).lock_hash@ != entry.lock_hash@
                    ==> exists|p: int|
                    0 <= p < final(self).entries_spec().len() && final(self).entries_spec()[p]
                        == old(self).entries_spec()[q],
            forall|q: int|
                0 <= q < old(self).entries_spec().len() ==> exists|p: int|
                    0 <= p < final(self).entries_spec().len()
                        && (#[trigger] final(self).entries_spec()[p]).lock_hash@ == (
                    #[trigger] old(self).entries_spec()[q]).lock_hash@,
    {
        let ghost olds = self.entries@;
        match Self::position_by_hash(&self.entries, &entry.lock_hash) {
            Some(i) => {
                self.entries[i] = entry;
                proof {
                    let s = self.entries@;
                    assert forall|a: int, b: int| 0 <= a < b < s.len() implies (
                    #[trigger] s[a]).lock_hash@ != (#[trigger] s[b]).lock_hash@ by {
                        assert(olds[a].lock_hash@ != olds[b].lock_hash@);
                    }
                    assert(s[i as int] == entry);
                    assert forall|p: int| 0 <= p < s.len() implies #[trigger] s[p] == entry
                        || exists|q: int| 0 <= q < olds.len() && s[p] == olds[q] by {
                        if p != i {
                            assert(s[p] == olds[p]);
                            assert(0 <= p < olds.len() && s[p] == olds[p]);
                        }
                    }
                    assert forall|q: int|
                        0 <= q < olds.len() && (#[trigger] olds[q]).lock_hash@
                            != entry.lock_hash@ implies exists|p: int|
                        0 <= p < s.len() && s[p] == olds[q] by {
                        assert(q != i);
                        assert(s[q] == olds[q]);
                        assert(0 <= q < s.len() && s[q] == olds[q]);
                    }
                    assert forall|q: int| 0 <= q < olds.len() implies exists|p: int|
                        0 <= p < s.len() && (#[trigger] s[p]).lock_hash@ == (
                        #[trigger] olds[q]).lock_hash@ by {
                        if q == i {
                            assert((s[i as int]).lock_hash@ == (olds[q]).lock_hash@);
                        } else {
                            assert(s[q] == olds[q]);
                            assert((s[q]).lock_hash@ == (olds[q]).lock_hash@);
                        }
                    }
                }
            },
            None => {
                self.entries.push(entry);
                proof {
                    let s = self.entries@;
                    let n = s.len() - 1;
                    assert forall|a: int, b: int| 0 <= a < b < s.len() implies (
                    #[trigger] s[a]).lock_hash@ != (#[trigger] s[b]).lock_hash@ by {
                        if b < n {
                            assert(olds[a].lock_hash@ != olds[b].lock_hash@);
                        } else {
                            assert(olds[a].lock_hash@ != entry.lock_hash@);
                        }
                    }
                    assert(s[n] == entry);
                    assert forall|p: int| 0 <= p < s.len() implies #[trigger] s[p] == entry
                        || exists|q: int| 0 <= q < olds.len() && s[p] == olds[q] by {
                        if p < n {
                            assert(s[p] == olds[p]);
                            assert(0 <= p < olds.len() && s[p] == olds[p]);
                        }
                    }
                    assert forall|q: int|
                        0 <= q < olds.len() && (#[trigger] olds[q]).lock_hash@
                            != entry.lock_hash@ implies exists|p: int|
                        0 <= p < s.len() && s[p] == olds[q] by {
                        assert(s[q] == olds[q]);
                        assert(0 <= q < s.len() && s[q] == olds[q]);
                    }
                    assert forall|q: int| 0 <= q < olds.len() implies exists|p: int|
                        0 <= p < s.len() && (#[trigger] s[p]).lock_hash@ == (
                        #[trigger] olds[q]).lock_hash@ by {
                        assert(s[q] == olds[q]);
                        assert((s[q]).lock_hash@ == (olds[q]).lock_hash@);
                    }
                }
            },
        }
    }

    /// The index of the entry with the given lock hash, if present.
    fn position_by_hash(entries: &Vec<AccountEntry>, h: &Vec<u8>) -> (r: Option<usize>)
        ensures
            match r {
                Some(i) => i < entries@.len() && entries@[i as int].lock_hash@ == h@,
                None => forall|j: int|
                    0 <= j < entries@.len() ==> (#[trigger] entries@[j]).lock_hash@ != h@,
            },
    {
        let mut i: usize = 0;
        while i < entries.len()
            invariant
                i <= entries@.len(),
                forall|j: int| 0 <= j < i ==> (#[trigger] entries@[j]).lock_hash@ != h@,
            decreases entries@.len() - i,
        {
            if crate::bytesutil::bytes_eq(&entries[i].lock_hash, h) {
                return Some(i);
            }
            i = i + 1;
        }
        None
    }

    /// The account attributed to the given lock hash, if any.
    pub fn find_by_hash(&self, hash: &Vec<u8>) -> (r: Option<&AccountEntry>)
        ensures
            match r {
                Some(e) => exists|i: int|
                    0 <= i < self.entries_spec().len() && e == &self.entries_spec()[i]
                        && e.lock_hash@ == hash@,
                None => forall|i: int|
                    0 <= i < self.entries_spec().len() ==> (
                    #[trigger] self.entries_spec()[i]).lock_hash@ != hash@,
            },
    {
        let mut i: usize = 0;
        while i < self.entries.len()
            invariant
                i <= self.entries@.len(),
                forall|j: int| 0 <= j < i ==> (#[trigger] self.entries@[j]).lock_hash@ != hash@,
            decreases self.entries@.len() - i,
    {
            if crate::bytesutil::bytes_eq(&self.entries[i].lock_hash, hash) {
                return Some(&self.entries[i]);
            }
            i = i + 1;
        }
        None
    }

    /// The first account whose lock script equals the given script, if any.
    pub fn find_by_script(&self, s: &Script) -> (r: Option<&AccountEntry>)
        ensures
            match r {
                Some(e) => {
                    &&& find_owner(self.entries_spec(), s@) == Some(e.lock_hash@)
                    &&& exists|i: int|
                        0 <= i < self.entries_spec().len() && e == &self.entries_spec()[i]
                            && e.info.script@ == s@
                },
                None => find_owner(self.entries_spec(), s@) is None,
            },
    {
        let n = self.entries.len();
        let mut i: usize = 0;
        proof {
            assert(self.entries@.skip(0) =~= self.entries@);
        }
        while i < n
            invariant
                n == self.entries@.len(),
                i <= n,
                find_owner(self.entries@, s@) == find_owner(self.entries@.skip(i as int), s@),
            decreases n - i,
        {
            proof {
                assert(self.entries@.skip(i as int)[0] == self.entries@[i as int]);
            }
            if self.entries[i].info.script.same_as(s) {
                return Some(&self.entries[i]);
            }
            proof {
                assert(self.entries@.skip(i as int).drop_first() =~= self.entries@.skip(i + 1));
            }
            i = i + 1;
        }
        proof {
            assert(self.entries@.skip(n as int).len() == 0);
        }
        None
    }
}

} // verus!
