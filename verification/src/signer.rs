//! The dual-scheme signer: canonical message digests per scheme and
//! recoverable signatures, injected into per-input witness slots.

use vstd::prelude::*;

use crate::accounts::{AccountMap, LockInfo};
use crate::bytesutil::{push_all, u64_le_bytes, u64_to_le};
use crate::errors::{Error, Result};
use crate::molecule::{
    raw_tx_fits, raw_tx_ser, serialize_raw_tx, serialize_witness_args, witness_args_ser,
};
use crate::records::{LockScriptId, RawTransaction, SignedTransaction};
use tiny_keccak::Hasher as _;

verus! {

// ---------------------------------------------------------------------------
// Trusted hashing and curve operations.
// ---------------------------------------------------------------------------

/// The chain's default 256-bit domain hash of a byte string.
pub uninterp spec fn blake2b_of(data: Seq<u8>) -> Seq<u8>;

/// The Keccak-256 hash of a byte string.
pub uninterp spec fn keccak_of(data: Seq<u8>) -> Seq<u8>;

/// The compressed public key derived from a secret key.
pub uninterp spec fn pubkey_compressed_of(sk: Seq<u8>) -> Seq<u8>;

/// The uncompressed public key body derived from a secret key.
pub uninterp spec fn pubkey_uncompressed_of(sk: Seq<u8>) -> Seq<u8>;

/// The recoverable signature of a 32-byte digest under a secret key.
pub uninterp spec fn recoverable_sig_of(sk: Seq<u8>, digest: Seq<u8>) -> Seq<u8>;

/// Whether 32 bytes are a valid secret key: read big-endian, they lie in
/// [1, n-1] for the curve's group order n.
pub uninterp spec fn secp_key_valid(sk: Seq<u8>) -> bool;

/// Relies on ckb_hash::blake2b_256: a 32-byte digest that depends on the
/// input bytes alone.
#[verifier::external_body]
pub fn blake2b256(data: &Vec<u8>) -> (r: Vec<u8>)
    ensures
        r@ == blake2b_of(data@),
        r@.len() == 32,
{
    ckb_hash::blake2b_256(data).to_vec()
}

/// Relies on tiny_keccak's Keccak-256: a 32-byte digest that depends on the
/// input bytes alone.
#[verifier::external_body]
pub fn keccak256(data: &Vec<u8>) -> (r: Vec<u8>)
    ensures
        r@ == keccak_of(data@),
        r@.len() == 32,
{
    let mut output = [0u8; 32];
    let mut hasher = tiny_keccak::Keccak::v256();
    hasher.update(data);
    hasher.finalize(&mut output);
    output.to_vec()
}

/// Relies on ckb_crypto's Privkey::pubkey and Pubkey::serialize: the
/// 33-byte compressed public key, a function of the key bytes alone; fails
/// on invalid key material.
#[verifier::external_body]
fn secp_pubkey_compressed(sk: &Vec<u8>) -> (r: Result<Vec<u8>>)
    requires
        sk@.len() == 32,
    ensures
        match r {
            Ok(pk) => pk@ == pubkey_compressed_of(sk@) && pk@.len() == 33 && secp_key_valid(
                sk@,
            ),
            Err(e) => e is Crypto && !secp_key_valid(sk@),
        },
{
    match ckb_crypto::secp::Privkey::from_slice(sk).pubkey() {
        Ok(pk) => Ok(pk.serialize()),
        Err(e) => Err(Error::Crypto(e.to_string())),
    }
}

/// Relies on ckb_crypto's Privkey::pubkey and the secp256k1 uncompressed
/// encoding: the 64-byte uncompressed public key body, a function of the
/// key bytes alone; fails on invalid key material.
#[verifier::external_body]
fn secp_pubkey_uncompressed(sk: &Vec<u8>) -> (r: Result<Vec<u8>>)
    requires
        sk@.len() == 32,
    ensures
        match r {
            Ok(pk) => pk@ == pubkey_uncompressed_of(sk@) && pk@.len() == 64 && secp_key_valid(
                sk@,
            ),
            Err(e) => e is Crypto && !secp_key_valid(sk@),
        },
{
    let pk = match ckb_crypto::secp::Privkey::from_slice(sk).pubkey() {
        Ok(pk) => pk,
        Err(e) => return Err(Error::Crypto(e.to_string())),
    };
    let mut temp = [4u8; 65];
    temp[1..65].copy_from_slice(pk.as_bytes());
    match secp256k1::PublicKey::from_slice(&temp) {
        Ok(raw) => Ok(raw.serialize_uncompressed()[1..].to_vec()),
        Err(e) => Err(Error::Crypto(e.to_string())),
    }
}

/// Relies on ckb_crypto's Privkey::sign_recoverable (deterministic
/// RFC 6979 nonces): the 65-byte recoverable signature is a function of the
/// key and digest alone; fails on invalid key material.
#[verifier::external_body]
fn secp_sign_recoverable(sk: &Vec<u8>, digest: &Vec<u8>) -> (r: Result<Vec<u8>>)
    requires
        sk@.len() == 32,
        digest@.len() == 32,
    ensures
        match r {
            Ok(sig) => sig@ == recoverable_sig_of(sk@, digest@) && sig@.len() == 65
                && secp_key_valid(sk@),
            Err(e) => e is Crypto && !secp_key_valid(sk@),
        },
{
    let message = match ckb_types::H256::from_slice(digest) {
        Ok(h) => h,
        Err(e) => return Err(Error::Crypto(e.to_string())),
    };
    match ckb_crypto::secp::Privkey::from_slice(sk).sign_recoverable(&message) {
        Ok(sig) => Ok(sig.serialize()),
        Err(e) => Err(Error::Crypto(e.to_string())),
    }
}

// ---------------------------------------------------------------------------
// Argument derivation.
// ---------------------------------------------------------------------------

/// A run of zero bytes.
pub open spec fn zero_bytes(n: int) -> Seq<u8> {
    Seq::new(n as nat, |i: int| 0u8)
}

/// The script argument bytes a scheme derives from a secret key: a 20-byte
/// digest of the public key, by the scheme's hash primitive.
pub open spec fn args_of(id: LockScriptId, sk: Seq<u8>) -> Seq<u8> {
    match id {
        LockScriptId::Secp256K1Blake160 => blake2b_of(pubkey_compressed_of(sk)).take(20),
        LockScriptId::PwLockK1Acpl => keccak_of(pubkey_uncompressed_of(sk)).skip(12),
    }
}

impl LockScriptId {
    /// Derives the lock script arguments for this scheme from a secret key.
    pub fn generate_args(self, sk: &Vec<u8>) -> (r: Result<Vec<u8>>)
        requires
            sk@.len() == 32,
        ensures
            match r {
                Ok(args) => args@ == args_of(self, sk@) && args@.len() == 20 && secp_key_valid(
                    sk@,
                ),
                Err(e) => e is Crypto && !secp_key_valid(sk@),
            },
    {
        match self {
            LockScriptId::Secp256K1Blake160 => {
                let pk = secp_pubkey_compressed(sk)?;
                let mut hash = blake2b256(&pk);
                hash.truncate(20);
                proof {
                    assert(hash@ =~= blake2b_of(pubkey_compressed_of(sk@)).take(20));
                }
                Ok(hash)
            },
            LockScriptId::PwLockK1Acpl => {
                let pk = secp_pubkey_uncompressed(sk)?;
                let hash = keccak256(&pk);
                let mut args: Vec<u8> = Vec::new();
                let mut i: usize = 12;
                while i < 32
                    invariant
                        hash@.len() == 32,
                        12 <= i <= 32,
                        args@ == hash@.subrange(12, i as int),
                    decreases 32 - i,
                {
                    args.push(hash[i]);
                    i = i + 1;
                    proof {
                        assert(hash@.subrange(12, i as int) =~= hash@.subrange(12, i - 1).push(
                            hash@[i - 1],
                        ));
                    }
                }
                proof {
                    assert(args@ =~= keccak_of(pubkey_uncompressed_of(sk@)).skip(12));
                }
                Ok(args)
            },
        }
    }
}

// ---------------------------------------------------------------------------
// Message framing and signing.
// ---------------------------------------------------------------------------

/// The serialized placeholder witness: an all-zero signature of the
/// scheme's signature size in the lock slot.
pub open spec fn blank_witness_bytes() -> Seq<u8> {
    witness_args_ser(Some(zero_bytes(65)))
}

/// The message both schemes commit to: the transaction hash, the
/// placeholder witness length as eight little-endian bytes, and the
/// placeholder witness itself.
pub open spec fn sign_message_bytes(data: Seq<u8>) -> Seq<u8> {
    data + u64_le_bytes(blank_witness_bytes().len() as u64) + blank_witness_bytes()
}

/// The Ethereum personal-message prefix for a 32-byte payload.
pub open spec fn eth_prefix_bytes() -> Seq<u8> {
    seq![
        0x19u8, 0x45u8, 0x74u8, 0x68u8, 0x65u8, 0x72u8, 0x65u8, 0x75u8, 0x6du8, 0x20u8, 0x53u8,
        0x69u8, 0x67u8, 0x6eu8, 0x65u8, 0x64u8, 0x20u8, 0x4du8, 0x65u8, 0x73u8, 0x73u8, 0x61u8,
        0x67u8, 0x65u8, 0x3au8, 0x0au8, 0x33u8, 0x32u8,
    ]
}

/// The digest a scheme signs for the given transaction hash.
pub open spec fn signing_digest(id: LockScriptId, data: Seq<u8>) -> Seq<u8> {
    match id {
        LockScriptId::Secp256K1Blake160 => blake2b_of(sign_message_bytes(data)),
        LockScriptId::PwLockK1Acpl => keccak_of(
            eth_prefix_bytes() + keccak_of(sign_message_bytes(data)),
        ),
    }
}

/// Builds the serialized placeholder witness.
fn blank_witness() -> (r: Result<Vec<u8>>)
    ensures
        match r {
            Ok(w) => w@ == blank_witness_bytes(),
            Err(_) => false,
        },
{
    let mut blank: Vec<u8> = Vec::new();
    let mut i: usize = 0;
    while i < 65
        invariant
            i <= 65,
            blank@ == zero_bytes(i as int),
        decreases 65 - i,
    {
        blank.push(0);
        i = i + 1;
        proof {
            assert(blank@ =~= zero_bytes(i as int));
        }
    }
    proof {
        lemma_witness_fits(blank@);
    }
    serialize_witness_args(&blank)
}

/// A witness over a 65-byte lock payload always fits its size fields.
proof fn lemma_witness_fits(sig: Seq<u8>)
    requires
        sig.len() == 65,
    ensures
        crate::molecule::witness_args_fits(Some(sig)),
{
    let items = seq![
        crate::molecule::mol_bytes_opt(Some(sig)),
        Seq::<u8>::empty(),
        Seq::<u8>::empty(),
    ];
    assert(crate::molecule::mol_bytes_opt(Some(sig)).len() == 69);
    crate::molecule::lemma_total_len3(
        crate::molecule::mol_bytes_opt(Some(sig)),
        Seq::<u8>::empty(),
        Seq::<u8>::empty(),
    );
    assert(crate::molecule::mol_full_len(items) == 85);
}

impl LockScriptId {
    /// Signs a 32-byte transaction hash under this scheme: the scheme's
    /// digest of the hash and placeholder witness framing, signed
    /// recoverably.
    pub fn sign(self, sk: &Vec<u8>, data: &Vec<u8>) -> (r: Result<Vec<u8>>)
        requires
            sk@.len() == 32,
            data@.len() == 32,
        ensures
            match r {
                Ok(sig) => sig@ == recoverable_sig_of(sk@, signing_digest(self, data@))
                    && sig@.len() == 65 && secp_key_valid(sk@),
                Err(e) => e is Crypto && !secp_key_valid(sk@),
            },
    {
        let witness_blank = blank_witness()?;
        let mut message: Vec<u8> = crate::records::clone_bytes(data);
        let len_bytes = u64_to_le(witness_blank.len() as u64);
        push_all(&mut message, &len_bytes);
        push_all(&mut message, &witness_blank);
        proof {
            assert(message@ =~= sign_message_bytes(data@));
        }
        match self {
            LockScriptId::Secp256K1Blake160 => {
                let digest = blake2b256(&message);
                secp_sign_recoverable(sk, &digest)
            },
            LockScriptId::PwLockK1Acpl => {
                let inner = keccak256(&message);
                let mut prefixed = eth_prefix();
                push_all(&mut prefixed, &inner);
                let digest = keccak256(&prefixed);
                secp_sign_recoverable(sk, &digest)
            },
        }
    }
}

/// The Ethereum personal-message prefix, as bytes.
fn eth_prefix() -> (r: Vec<u8>)
    ensures
        r@ == eth_prefix_bytes(),
{
    let mut r: Vec<u8> = Vec::new();
    r.push(0x19);
    r.push(0x45);
    r.push(0x74);
    r.push(0x68);
    r.push(0x65);
    r.push(0x72);
    r.push(0x65);
    r.push(0x75);
    r.push(0x6d);
    r.push(0x20);
    r.push(0x53);
    r.push(0x69);
    r.push(0x67);
    r.push(0x6e);
    r.push(0x65);
    r.push(0x64);
    r.push(0x20);
    r.push(0x4d);
    r.push(0x65);
    r.push(0x73);
    r.push(0x73);
    r.push(0x61);
    r.push(0x67);
    r.push(0x65);
    r.push(0x3a);
    r.push(0x0a);
    r.push(0x33);
    r.push(0x32);
    proof {
        assert(r@ =~= eth_prefix_bytes());
    }
    r
}

impl LockInfo {
    /// Signs a 32-byte transaction hash with this account's scheme and key.
    pub fn sign(&self, data: &Vec<u8>) -> (r: Result<Vec<u8>>)
        requires
            self.secret_key@.len() == 32,
            data@.len() == 32,
        ensures
            match r {
                Ok(sig) => sig@ == recoverable_sig_of(
                    self.secret_key@,
                    signing_digest(self.id, data@),
                ) && sig@.len() == 65 && secp_key_valid(self.secret_key@),
                Err(e) => e is Crypto && !secp_key_valid(self.secret_key@),
            },
    {
        self.id.sign(&self.secret_key, data)
    }
}

// ---------------------------------------------------------------------------
// Witnessing a whole transaction.
// ---------------------------------------------------------------------------

/// The witness bytes owed to an account for a transaction hash: its
/// recoverable signature, carried in the lock slot of a serialized witness.
pub open spec fn witness_for(id: LockScriptId, sk: Seq<u8>, txh: Seq<u8>) -> Seq<u8> {
    witness_args_ser(Some(recoverable_sig_of(sk, signing_digest(id, txh))))
}

/// Every owner hash names a managed account whose key material is valid:
/// exactly the condition under which signing the whole batch succeeds.
pub open spec fn all_owners_signable(
    accts: Seq<crate::accounts::AccountEntry>,
    hashes: Seq<Vec<u8>>,
) -> bool {
    forall|i: int|
        0 <= i < hashes.len() ==> crate::builder::has_account(accts, (#[trigger] hashes[i])@)
            && secp_key_valid(
            crate::builder::account_at(accts, (hashes[i])@).info.secret_key@,
        )
}

/// Each witness slot carries the signature of the account attributed to the
/// owner list's hash at that slot, over the given transaction hash.
pub open spec fn witnesses_signed(
    accts: Seq<crate::accounts::AccountEntry>,
    hashes: Seq<Vec<u8>>,
    ws: Seq<Vec<u8>>,
    txh: Seq<u8>,
) -> bool {
    forall|i: int|
        0 <= i < hashes.len() ==> crate::builder::has_account(accts, (#[trigger] hashes[i])@) && (
        #[trigger] ws[i])@ == witness_for(
            crate::builder::account_at(accts, (hashes[i])@).info.id,
            crate::builder::account_at(accts, (hashes[i])@).info.secret_key@,
            txh,
        )
}

/// Builds one witness slot: looks up the owner account for the hash and
/// signs the transaction hash under its scheme.
fn witness_slot(accounts: &AccountMap, hash: &Vec<u8>, tx_hash: &Vec<u8>) -> (r: (Result<
    Vec<u8>,
>, Ghost<int>))
    requires
        accounts.wf(),
        tx_hash@.len() == 32,
    ensures
        match r.0 {
            Ok(w) => {
                &&& 0 <= r.1@ < accounts.entries_spec().len()
                &&& accounts.entries_spec()[r.1@].lock_hash@ == hash@
                &&& crate::builder::account_at(accounts.entries_spec(), hash@)
                    == accounts.entries_spec()[r.1@]
                &&& w@ == witness_for(
                    accounts.entries_spec()[r.1@].info.id,
                    accounts.entries_spec()[r.1@].info.secret_key@,
                    tx_hash@,
                )
            },
            Err(e) => {
                ||| (e is Config && !crate::builder::has_account(
                    accounts.entries_spec(),
                    hash@,
                ))
                ||| (e is Crypto && crate::builder::has_account(accounts.entries_spec(), hash@)
                    && !secp_key_valid(
                    crate::builder::account_at(
                        accounts.entries_spec(),
                        hash@,
                    ).info.secret_key@,
                ))
            },
        },
        r.0 is Ok ==> secp_key_valid(
            crate::builder::account_at(accounts.entries_spec(), hash@).info.secret_key@,
        ),
{
    let ghost accts = accounts.entries_spec();
    let entry = match accounts.find_by_hash(hash) {
        Some(e) => e,
        None => {
            proof {
                assert(!crate::builder::has_account(accts, hash@));
            }
            return (Err(Error::config("an owner account is missing".to_string())), Ghost(0));
        },
    };
    let ghost j = choose|j: int|
        0 <= j < accts.len() && entry == &accts[j] && entry.lock_hash@ == hash@;
    proof {
        assert(accts[j].wf());
        crate::builder::lemma_account_at(accts, j);
        assert(crate::builder::account_at(accts, hash@) == accts[j]);
    }
    let signature = match entry.info.sign(tx_hash) {
        Ok(s) => s,
        Err(e) => {
            return (Err(e), Ghost(0));
        },
    };
    proof {
        lemma_witness_fits(signature@);
    }
    match serialize_witness_args(&signature) {
        Ok(w) => (Ok(w), Ghost(j)),
        Err(e) => (Err(e), Ghost(0)),
    }
}

/// Signs the transaction for each distinct owner, in witness-slot order:
/// the transaction hash is the domain digest of the serialized raw
/// transaction, and each owner's placeholder witness is replaced by its
/// real recoverable signature.
pub fn sign_transaction(
    raw_tx: RawTransaction,
    lock_hashes: &Vec<Vec<u8>>,
    accounts: &AccountMap,
) -> (r: Result<SignedTransaction>)
    requires
        accounts.wf(),
    ensures
        ({
            let accts = accounts.entries_spec();
            let txh = blake2b_of(raw_tx_ser(raw_tx@));
            let good = raw_tx_fits(raw_tx@) && all_owners_signable(accts, lock_hashes@);
            match r {
                Ok(stx) => {
                    &&& good
                    &&& stx.raw@ == raw_tx@
                    &&& stx.witnesses@.len() == lock_hashes@.len()
                    &&& witnesses_signed(accts, lock_hashes@, stx.witnesses@, txh)
                },
                Err(e) => !good && (e is Config || e is Crypto || e is Runtime),
            }
        }),
{
    let ghost accts = accounts.entries_spec();
    let raw_ser = match serialize_raw_tx(&raw_tx) {
        Ok(b) => b,
        Err(e) => {
            return Err(e);
        },
    };
    let tx_hash = blake2b256(&raw_ser);
    let ghost txh = blake2b_of(raw_tx_ser(raw_tx@));
    let mut witnesses: Vec<Vec<u8>> = Vec::new();
    let ghost mut owner_idx: Seq<int> = Seq::empty();
    let mut i: usize = 0;
    while i < lock_hashes.len()
        invariant
            accounts.wf(),
            accts == accounts.entries_spec(),
            tx_hash@ == txh,
            tx_hash@.len() == 32,
            i <= lock_hashes@.len(),
            witnesses@.len() == i,
            owner_idx.len() == i,
            forall|t: int|
                0 <= t < i ==> 0 <= #[trigger] owner_idx[t] < accts.len() && (
                accts[owner_idx[t]]).lock_hash@ == (lock_hashes@[t])@
                    && crate::builder::account_at(accts, (lock_hashes@[t])@)
                    == accts[owner_idx[t]] && secp_key_valid(
                    accts[owner_idx[t]].info.secret_key@,
                ) && (witnesses@[t])@ == witness_for(
                    accts[owner_idx[t]].info.id,
                    accts[owner_idx[t]].info.secret_key@,
                    txh,
                ),
        decreases lock_hashes@.len() - i,
    {
        let (wres, slot_owner) = witness_slot(accounts, &lock_hashes[i], &tx_hash);
        let witness = match wres {
            Ok(w) => w,
            Err(e) => {
                proof {
                    assert(!all_owners_signable(accts, lock_hashes@)) by {
                        if all_owners_signable(accts, lock_hashes@) {
                            assert(crate::builder::has_account(
                                accts,
                                (lock_hashes@[i as int])@,
                            ) && secp_key_valid(
                                crate::builder::account_at(
                                    accts,
                                    (lock_hashes@[i as int])@,
                                ).info.secret_key@,
                            ));
                        }
                    }
                }
                return Err(e);
            },
        };
        witnesses.push(witness);
        proof {
            owner_idx = owner_idx.push(slot_owner@);
        }
        i = i + 1;
    }
    proof {
        assert(witnesses_signed(accts, lock_hashes@, witnesses@, txh)) by {
            assert forall|t: int|
                0 <= t < lock_hashes@.len() implies crate::builder::has_account(
                accts,
                ((#[trigger] lock_hashes@[t]))@,
            ) && ((witnesses@[t]))@ == witness_for(
                crate::builder::account_at(accts, (lock_hashes@[t])@).info.id,
                crate::builder::account_at(accts, (lock_hashes@[t])@).info.secret_key@,
                txh,
            ) by {
                let j = owner_idx[t];
                assert(0 <= j < accts.len() && (accts[j]).lock_hash@ == (lock_hashes@[t])@);
                assert(crate::builder::has_account(accts, (lock_hashes@[t])@));
                assert(crate::builder::account_at(accts, (lock_hashes@[t])@) == accts[j]);
            }
        }
        assert(all_owners_signable(accts, lock_hashes@)) by {
            assert forall|t: int|
                0 <= t < lock_hashes@.len() implies crate::builder::has_account(
                accts,
                ((#[trigger] lock_hashes@[t]))@,
            ) && secp_key_valid(
                crate::builder::account_at(accts, (lock_hashes@[t])@).info.secret_key@,
            ) by {
                let j = owner_idx[t];
                assert(0 <= j < accts.len() && (accts[j]).lock_hash@ == (lock_hashes@[t])@);
                assert(crate::builder::has_account(accts, (lock_hashes@[t])@));
                assert(crate::builder::account_at(accts, (lock_hashes@[t])@) == accts[j]);
            }
        }
    }
    let stx = SignedTransaction { raw: raw_tx, witnesses };
    Ok(stx)
}

} // verus!
