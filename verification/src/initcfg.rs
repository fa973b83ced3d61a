//! Building the immutable run-time tables from the stored metadata: the
//! account map keyed by lock hash, and the per-scheme dependency table.

use vstd::prelude::*;

use crate::accounts::{AccountEntry, AccountMap, LockInfo};
use crate::errors::{Error, Result};
use crate::lockgen::LockGenerator;
use crate::molecule::serialize_script;
use crate::records::{clone_bytes, LockScriptId, MetaData, Script};
use crate::signer::blake2b256;
use crate::builder::LockDepsDict;

verus! {

/// Whether the lock script table has a row for the scheme.
pub open spec fn has_scheme_row(meta: MetaData, id: LockScriptId) -> bool {
    exists|w: int|
        0 <= w < meta.lock_scripts@.len() && (#[trigger] meta.lock_scripts@[w]).0 == id
}

/// The scheme's row of the lock script table (meaningful under one row per
/// scheme).
pub open spec fn scheme_row(meta: MetaData, id: LockScriptId) -> crate::records::LockScriptConfig {
    meta.lock_scripts@[choose|w: int|
        0 <= w < meta.lock_scripts@.len() && (#[trigger] meta.lock_scripts@[w]).0 == id].1
}

/// Under one row per scheme, any row with the scheme is the row the lookup
/// names.
pub proof fn lemma_scheme_row(meta: MetaData, w: int)
    requires
        forall|a: int, b: int|
            0 <= a < b < meta.lock_scripts@.len() ==> (#[trigger] meta.lock_scripts@[a]).0 != (
            #[trigger] meta.lock_scripts@[b]).0,
        0 <= w < meta.lock_scripts@.len(),
    ensures
        has_scheme_row(meta, meta.lock_scripts@[w].0),
        scheme_row(meta, meta.lock_scripts@[w].0) == meta.lock_scripts@[w].1,
{
    let id = meta.lock_scripts@[w].0;
    assert(has_scheme_row(meta, id));
    let v = choose|v: int|
        0 <= v < meta.lock_scripts@.len() && (#[trigger] meta.lock_scripts@[v]).0 == id;
    if v != w {
        assert(meta.lock_scripts@[v].0 != meta.lock_scripts@[w].0);
    }
}

/// The lock script an account derives: the scheme row's code hash and hash
/// type, with the argument bytes derived from the account's key.
#[verifier::opaque]
pub open spec fn derived_script(meta: MetaData, i: int) -> crate::records::ScriptV {
    let id = meta.accounts@[i].lock_id;
    crate::records::ScriptV {
        code_hash: scheme_row(meta, id).code_hash@,
        hash_type: scheme_row(meta, id).hash_type,
        args: crate::signer::args_of(id, meta.accounts@[i].secret_key@),
    }
}

/// An account's attribution key: the domain digest of its serialized
/// derived script.
#[verifier::opaque]
pub open spec fn derived_hash(meta: MetaData, i: int) -> Seq<u8> {
    crate::signer::blake2b_of(crate::molecule::script_ser(derived_script(meta, i)))
}

/// Whether a map entry is exactly the one the account derives.
#[verifier::opaque]
pub open spec fn entry_matches_account(meta: MetaData, i: int, e: AccountEntry) -> bool {
    &&& e.lock_hash@ == derived_hash(meta, i)
    &&& e.info.id == meta.accounts@[i].lock_id
    &&& e.info.secret_key@ == meta.accounts@[i].secret_key@
    &&& e.info.script@ == derived_script(meta, i)
}

/// Every account's scheme is configured and its key material is valid:
/// exactly the condition under which the account map gets built.
pub open spec fn accounts_buildable(meta: MetaData) -> bool {
    forall|i: int|
        0 <= i < meta.accounts@.len() ==> has_scheme_row(
            meta,
            (#[trigger] meta.accounts@[i]).lock_id,
        ) && crate::signer::secp_key_valid(meta.accounts@[i].secret_key@)
}

/// Every account among the first `upto` has its derived hash present in
/// the entries.
pub open spec fn hashes_present(meta: MetaData, entries: Seq<AccountEntry>, upto: int) -> bool {
    forall|t: int|
        0 <= t < upto ==> exists|p: int|
            0 <= p < entries.len() && (#[trigger] entries[p]).lock_hash@
                == #[trigger] derived_hash(meta, t)
}

/// The account (among the first `upto`) an entry derives from, when one
/// exists.
pub open spec fn source_account(meta: MetaData, e: AccountEntry, upto: int) -> int {
    choose|j: int| 0 <= j < upto && entry_matches_account(meta, j, e)
}

/// Every entry is exactly what one of the first `upto` accounts derives;
/// [`source_account`] names the account.
pub open spec fn entries_from_accounts(
    meta: MetaData,
    entries: Seq<AccountEntry>,
    upto: int,
) -> bool {
    forall|p: int|
        0 <= p < entries.len() ==> 0 <= source_account(meta, #[trigger] entries[p], upto) < upto
            && entry_matches_account(meta, source_account(meta, entries[p], upto), entries[p])
}

/// A script with a 32-byte code hash and 20-byte arguments always fits the
/// wire format's size fields.
proof fn lemma_small_script_fits(sv: crate::records::ScriptV)
    requires
        sv.code_hash.len() == 32,
        sv.args.len() == 20,
    ensures
        crate::molecule::script_fits(sv),
{
    let items = seq![
        sv.code_hash,
        seq![sv.hash_type.byte_spec()],
        crate::molecule::mol_bytes(sv.args),
    ];
    assert(crate::molecule::mol_bytes(sv.args).len() == 24);
    crate::molecule::lemma_total_len3(
        sv.code_hash,
        seq![sv.hash_type.byte_spec()],
        crate::molecule::mol_bytes(sv.args),
    );
    assert(crate::molecule::mol_full_len(items) == 73);
}

/// One step of building the account map: inserting the entry the `i`-th
/// account derives keeps every earlier account's hash present and every
/// entry matched to some processed account.
proof fn lemma_accounts_step(
    meta: MetaData,
    i: int,
    pre_map: Seq<AccountEntry>,
    cur: Seq<AccountEntry>,
    entry: AccountEntry,
)
    requires
        0 <= i < meta.accounts@.len(),
        entry_matches_account(meta, i, entry),
        exists|p: int| 0 <= p < cur.len() && #[trigger] cur[p] == entry,
        forall|p: int|
            0 <= p < cur.len() ==> #[trigger] cur[p] == entry || exists|q: int|
                0 <= q < pre_map.len() && cur[p] == pre_map[q],
        forall|q: int|
            0 <= q < pre_map.len() ==> exists|p: int|
                0 <= p < cur.len() && (#[trigger] cur[p]).lock_hash@ == (
                #[trigger] pre_map[q]).lock_hash@,
        hashes_present(meta, pre_map, i),
        entries_from_accounts(meta, pre_map, i),
    ensures
        hashes_present(meta, cur, i + 1),
        entries_from_accounts(meta, cur, i + 1),
{
    reveal(crate::initcfg::entry_matches_account);
    assert(entries_from_accounts(meta, cur, i + 1)) by {
        assert forall|p: int|
            0 <= p < cur.len() implies 0 <= source_account(meta, #[trigger] cur[p], i + 1) < i
                + 1 && entry_matches_account(
                meta,
                source_account(meta, cur[p], i + 1),
                cur[p],
            ) by {
            if cur[p] == entry {
                assert(entry_matches_account(meta, i, cur[p]));
                assert(exists|j: int| 0 <= j < i + 1 && entry_matches_account(meta, j, cur[p]));
            } else {
                let q = choose|q: int| 0 <= q < pre_map.len() && cur[p] == pre_map[q];
                let j = source_account(meta, pre_map[q], i);
                assert(0 <= j < i && entry_matches_account(meta, j, pre_map[q]));
                assert(entry_matches_account(meta, j, cur[p]));
                assert(exists|w: int|
                    0 <= w < i + 1 && entry_matches_account(meta, w, cur[p]));
            }
        }
    }
    assert(hashes_present(meta, cur, i + 1)) by {
        assert forall|t: int| 0 <= t < i + 1 implies exists|p: int|
            0 <= p < cur.len() && (#[trigger] cur[p]).lock_hash@ == #[trigger] derived_hash(
                meta,
                t,
            ) by {
            if t < i {
                let q = choose|q: int|
                    0 <= q < pre_map.len() && (#[trigger] pre_map[q]).lock_hash@
                        == derived_hash(meta, t);
                let p = choose|p: int|
                    0 <= p < cur.len() && (#[trigger] cur[p]).lock_hash@ == (
                    pre_map[q]).lock_hash@;
                assert((cur[p]).lock_hash@ == derived_hash(meta, t));
            } else {
                let p = choose|p: int| 0 <= p < cur.len() && #[trigger] cur[p] == entry;
                assert((cur[p]).lock_hash@ == derived_hash(meta, i));
            }
        }
    }
}

impl MetaData {
    /// Every configured account has 32-byte key material, and the lock
    /// script table has one row per scheme.
    pub open spec fn accounts_wf(&self) -> bool {
        &&& self.wf()
        &&& forall|i: int|
            0 <= i < self.accounts@.len() ==> (#[trigger] self.accounts@[i]).secret_key@.len()
                == 32
        &&& forall|a: int, b: int|
            0 <= a < b < self.lock_scripts@.len() ==> (#[trigger] self.lock_scripts@[a]).0 != (
            #[trigger] self.lock_scripts@[b]).0
    }

    /// Derives each account's lock script and attribution hash — the domain
    /// digest of the serialized script — and collects the accounts keyed by
    /// hash; a later account with the same hash replaces an earlier one.
    /// Fails exactly when a scheme's lock script is not configured or an
    /// account's key material is invalid.
    #[verifier::rlimit(100)]
    pub fn accounts(&self) -> (r: Result<AccountMap>)
        requires
            self.accounts_wf(),
        ensures
            match r {
                Ok(m) => {
                    &&& m.wf()
                    &&& accounts_buildable(*self)
                    &&& m.entries_spec().len() <= self.accounts@.len()
                    &&& hashes_present(*self, m.entries_spec(), self.accounts@.len() as int)
                    &&& entries_from_accounts(
                        *self,
                        m.entries_spec(),
                        self.accounts@.len() as int,
                    )
                },
                Err(e) => !accounts_buildable(*self) && (e is Config || e is Crypto),
            },
    {
        let mut map = AccountMap::new();
        let mut i: usize = 0;
        proof {
            assert(hashes_present(*self, map.entries_spec(), 0));
            assert(entries_from_accounts(*self, map.entries_spec(), 0)) by {
                assert(map.entries_spec().len() == 0);
            }
        }
        while i < self.accounts.len()
            invariant
                self.accounts_wf(),
                i <= self.accounts@.len(),
                map.wf(),
                map.entries_spec().len() <= i,
                forall|t: int|
                    0 <= t < i ==> has_scheme_row(*self, (#[trigger] self.accounts@[t]).lock_id)
                        && crate::signer::secp_key_valid(self.accounts@[t].secret_key@),
                hashes_present(*self, map.entries_spec(), i as int),
                entries_from_accounts(*self, map.entries_spec(), i as int),
            decreases self.accounts@.len() - i,
        {
            let account = &self.accounts[i];
            let id = account.lock_id;
            let args = match id.generate_args(&account.secret_key) {
                Ok(args) => args,
                Err(e) => {
                    proof {
                        assert(!accounts_buildable(*self)) by {
                            if accounts_buildable(*self) {
                                assert(crate::signer::secp_key_valid(
                                    (self.accounts@[i as int]).secret_key@,
                                ));
                            }
                        }
                    }
                    return Err(e);
                },
            };
            let cfg = match self.lock_script_for(id) {
                Some(cfg) => cfg,
                None => {
                    proof {
                        assert(!accounts_buildable(*self)) by {
                            if accounts_buildable(*self) {
                                assert(has_scheme_row(
                                    *self,
                                    (self.accounts@[i as int]).lock_id,
                                ));
                                let w = choose|w: int|
                                    0 <= w < self.lock_scripts@.len() && (
                                    #[trigger] self.lock_scripts@[w]).0 == id;
                                assert(self.lock_scripts@[w].0 != id);
                            }
                        }
                    }
                    return Err(Error::config("lock scripts are not enough".to_string()));
                },
            };
            let script = Script {
                code_hash: clone_bytes(&cfg.code_hash),
                hash_type: cfg.hash_type,
                args,
            };
            proof {
                let w = choose|w: int|
                    0 <= w < self.lock_scripts@.len() && self.lock_scripts@[w].0 == id && cfg
                        == &self.lock_scripts@[w].1;
                assert(self.lock_scripts@[w].1.wf());
                lemma_scheme_row(*self, w);
                assert(scheme_row(*self, id) == self.lock_scripts@[w].1);
                reveal(crate::initcfg::derived_script);
                assert(script@ == derived_script(*self, i as int));
                lemma_small_script_fits(script@);
            }
            let ser = match serialize_script(&script) {
                Ok(ser) => ser,
                Err(e) => {
                    return Err(e);
                },
            };
            let hash = blake2b256(&ser);
            let info = LockInfo::new(id, script, clone_bytes(&account.secret_key));
            let entry = AccountEntry { lock_hash: hash, info };
            let ghost pre_map = map.entries_spec();
            proof {
                reveal(crate::initcfg::derived_script);
                reveal(crate::initcfg::derived_hash);
                reveal(crate::initcfg::entry_matches_account);
                assert(entry.lock_hash@ == derived_hash(*self, i as int));
                assert(entry_matches_account(*self, i as int, entry));
            }
            map.insert(entry);
            proof {
                lemma_accounts_step(*self, i as int, pre_map, map.entries_spec(), entry);
            }
            i = i + 1;
        }
        Ok(map)
    }

    /// Collects the per-scheme dependency lists from the lock script table:
    /// one row per configured scheme, carrying exactly that row's list.
    pub fn lock_deps_dict(&self) -> (r: LockDepsDict)
        requires
            self.accounts_wf(),
        ensures
            r.wf(),
            forall|j: int|
                0 <= j < self.lock_scripts@.len() ==> r.has_deps(
                    (#[trigger] self.lock_scripts@[j]).0,
                ) && r.deps_of(self.lock_scripts@[j].0).len()
                    == self.lock_scripts@[j].1.cell_deps@.len(),
            forall|j: int, t: int|
                0 <= j < self.lock_scripts@.len() && 0 <= t < (
                #[trigger] self.lock_scripts@[j]).1.cell_deps@.len() ==> (#[trigger] r.deps_of(
                    self.lock_scripts@[j].0,
                )[t])@ == (self.lock_scripts@[j].1.cell_deps@[t])@,
    {
        let mut dict = LockDepsDict::new();
        let mut i: usize = 0;
        while i < self.lock_scripts.len()
            invariant
                self.accounts_wf(),
                i <= self.lock_scripts@.len(),
                dict.wf(),
                forall|j: int|
                    0 <= j < self.lock_scripts@.len() ==> (#[trigger] dict.has_deps(
                        self.lock_scripts@[j].0,
                    ) ==> exists|a: int| 0 <= a < i && self.lock_scripts@[a].0 == self.lock_scripts@[j].0),
                forall|j: int|
                    0 <= j < i ==> dict.has_deps((#[trigger] self.lock_scripts@[j]).0)
                        && dict.deps_of(self.lock_scripts@[j].0).len()
                        == self.lock_scripts@[j].1.cell_deps@.len(),
                forall|j: int, t: int|
                    0 <= j < i && 0 <= t < (#[trigger] self.lock_scripts@[j]).1.cell_deps@.len()
                        ==> (#[trigger] dict.deps_of(self.lock_scripts@[j].0)[t])@ == (
                    self.lock_scripts@[j].1.cell_deps@[t])@,
            decreases self.lock_scripts@.len() - i,
        {
            let row = &self.lock_scripts[i];
            let mut deps: Vec<crate::records::CellDep> = Vec::new();
            let mut j: usize = 0;
            while j < row.1.cell_deps.len()
                invariant
                    self.accounts_wf(),
                    i < self.lock_scripts@.len(),
                    row == &self.lock_scripts@[i as int],
                    j <= row.1.cell_deps@.len(),
                    deps@.len() == j,
                    forall|t: int|
                        0 <= t < j ==> (#[trigger] deps@[t]).wf() && (deps@[t])@ == (
                        self.lock_scripts@[i as int].1.cell_deps@[t])@,
                decreases row.1.cell_deps@.len() - j,
            {
                proof {
                    assert(self.lock_scripts@[i as int].1.wf());
                }
                deps.push(row.1.cell_deps[j].duplicate());
                j = j + 1;
            }
            proof {
                if dict.has_deps(self.lock_scripts@[i as int].0) {
                    let a = choose|a: int|
                        0 <= a < i && self.lock_scripts@[a].0 == self.lock_scripts@[i as int].0;
                    assert(self.lock_scripts@[a].0 != self.lock_scripts@[i as int].0);
                }
            }
            let ghost deps_view = deps@;
            dict.insert(row.0, deps);
            proof {
                assert(dict.deps_of(self.lock_scripts@[i as int].0) == deps_view);
                assert forall|j2: int|
                    0 <= j2 < i + 1 implies dict.has_deps(
                    (#[trigger] self.lock_scripts@[j2]).0,
                ) && dict.deps_of(self.lock_scripts@[j2].0).len()
                    == self.lock_scripts@[j2].1.cell_deps@.len() by {
                    if j2 < i {
                        assert(self.lock_scripts@[j2].0 != self.lock_scripts@[i as int].0);
                    }
                }
                assert forall|j2: int, t: int|
                    0 <= j2 < i + 1 && 0 <= t < (
                #[trigger] self.lock_scripts@[j2]).1.cell_deps@.len() implies (
                #[trigger] dict.deps_of(self.lock_scripts@[j2].0)[t])@ == (
                self.lock_scripts@[j2].1.cell_deps@[t])@ by {
                    if j2 < i {
                        assert(self.lock_scripts@[j2].0 != self.lock_scripts@[i as int].0);
                    } else {
                        assert(dict.deps_of(self.lock_scripts@[j2].0)[t] == deps_view[t]);
                    }
                }
                assert forall|j2: int|
                    0 <= j2 < self.lock_scripts@.len() && #[trigger] dict.has_deps(
                        self.lock_scripts@[j2].0,
                    ) implies exists|a: int|
                    0 <= a < i + 1 && self.lock_scripts@[a].0 == self.lock_scripts@[j2].0 by {
                    if self.lock_scripts@[j2].0 != self.lock_scripts@[i as int].0 {
                        let a = choose|a: int|
                            0 <= a < i && self.lock_scripts@[a].0 == self.lock_scripts@[j2].0;
                        assert(0 <= a < i + 1 && self.lock_scripts@[a].0
                            == self.lock_scripts@[j2].0);
                    } else {
                        assert(self.lock_scripts@[i as int].0 == self.lock_scripts@[j2].0);
                    }
                }
            }
            i = i + 1;
        }
        dict
    }
}

/// The configured draw weight of a scheme.
pub open spec fn scheme_weight(id: LockScriptId, secp_weight: usize, pw_weight: usize) -> usize {
    match id {
        LockScriptId::Secp256K1Blake160 => secp_weight,
        LockScriptId::PwLockK1Acpl => pw_weight,
    }
}

/// The weights the generator must carry: one per account, by its scheme.
pub open spec fn expected_weights(
    accounts: AccountMap,
    secp_weight: usize,
    pw_weight: usize,
) -> Seq<usize> {
    Seq::new(
        accounts.entries_spec().len(),
        |j: int| scheme_weight(accounts.entries_spec()[j].info.id, secp_weight, pw_weight),
    )
}

/// Builds the destination generator over the managed accounts, weighting
/// each account by its scheme's configured weight.  Fails exactly when no
/// draw would be possible: no accounts, an all-zero weight assignment, or a
/// weight total beyond the machine word.
pub fn lock_generator(
    accounts: &AccountMap,
    secp_weight: usize,
    pw_weight: usize,
) -> (r: Result<LockGenerator>)
    requires
        accounts.wf(),
    ensures
        match r {
            Ok(g) => {
                &&& g.wf()
                &&& crate::lockgen::lock_gen_aligned(g, *accounts)
                &&& forall|j: int|
                    0 <= j < g.items_spec().len() ==> (#[trigger] g.items_spec()[j]).1
                        == scheme_weight(
                        accounts.entries_spec()[j].info.id,
                        secp_weight,
                        pw_weight,
                    )
                &&& crate::lockgen::drawable(expected_weights(*accounts, secp_weight, pw_weight))
            },
            Err(e) => e is Runtime && !crate::lockgen::drawable(
                expected_weights(*accounts, secp_weight, pw_weight),
            ),
        },
{
    let mut items: Vec<(Vec<u8>, usize)> = Vec::new();
    let mut i: usize = 0;
    while i < accounts.len()
        invariant
            accounts.wf(),
            i <= accounts.entries_spec().len(),
            items@.len() == i,
            forall|t: int|
                0 <= t < i ==> (#[trigger] items@[t]).0@ == (
                accounts.entries_spec()[t]).lock_hash@ && (items@[t]).1 == scheme_weight(
                    accounts.entries_spec()[t].info.id,
                    secp_weight,
                    pw_weight,
                ),
        decreases accounts.entries_spec().len() - i,
    {
        let entry = accounts.get(i);
        let weight = match entry.info.id {
            LockScriptId::Secp256K1Blake160 => secp_weight,
            LockScriptId::PwLockK1Acpl => pw_weight,
        };
        proof {
            assert(weight == scheme_weight(
                accounts.entries_spec()[i as int].info.id,
                secp_weight,
                pw_weight,
            ));
        }
        items.push((clone_bytes(&entry.lock_hash), weight));
        i = i + 1;
    }
    let ghost items_snapshot = items@;
    proof {
        assert(items_snapshot.map_values(|p: (Vec<u8>, usize)| p.1) =~= expected_weights(
            *accounts,
            secp_weight,
            pw_weight,
        ));
    }
    let g = LockGenerator::new(items)?;
    proof {
        assert forall|j: int| 0 <= j < g.items_spec().len() implies (
        #[trigger] g.items_spec()[j]).1 == scheme_weight(
            accounts.entries_spec()[j].info.id,
            secp_weight,
            pw_weight,
        ) by {
            assert((items_snapshot[j]).1 == scheme_weight(
                accounts.entries_spec()[j].info.id,
                secp_weight,
                pw_weight,
            ));
        }
        assert(crate::lockgen::lock_gen_aligned(g, *accounts)) by {
            assert forall|j: int| 0 <= j < g.items_spec().len() implies (
            #[trigger] g.items_spec()[j]).0@ == (accounts.entries_spec()[j]).lock_hash@ by {
                assert((items_snapshot[j]).0@ == (accounts.entries_spec()[j]).lock_hash@);
            }
        }
    }
    Ok(g)
}

} // verus!
