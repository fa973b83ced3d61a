use cellbench::accounts::{AccountEntry, AccountMap, LockInfo};
use cellbench::builder::{calculate_outputs_count, construct_raw_transaction, prepare_inputs, LockDepsDict};
use cellbench::chain_sync::{apply_block, check_chain, sync_window, BlockData, TxData};
use cellbench::engine::{after_submission, should_idle};
use cellbench::errors::Error;
use cellbench::initcfg::lock_generator;
use cellbench::ledger::CellLedger;
use cellbench::molecule::serialize_script;
use cellbench::records::{BlockMeta, CellInfo, CellOutput, InputInfo, LockScriptId, OutPoint, Script, ScriptHashType};
use cellbench::selector::{fetch_more_inputs, FetchInputsResult};
use cellbench::signer::{blake2b256, sign_transaction};

fn h(b: u8) -> Vec<u8> {
    vec![b; 32]
}

fn cell(tx: u8, index: u32, capacity: u64, owner: u8) -> (OutPoint, CellInfo) {
    (OutPoint::new(h(tx), index), CellInfo::new(capacity, h(owner)))
}

// A managed account over a fixed secret key, with its real derived script
// and attribution hash.
fn account(id: LockScriptId, key_byte: u8) -> AccountEntry {
    let sk = vec![key_byte; 32];
    let args = id.generate_args(&sk).unwrap();
    let script = Script { code_hash: h(0x42), hash_type: ScriptHashType::Type, args };
    let ser = serialize_script(&script).unwrap();
    let lock_hash = blake2b256(&ser);
    AccountEntry { lock_hash, info: LockInfo::new(id, script, sk) }
}

#[test]
fn spend_cell_on_absent_out_point_fails_and_changes_nothing() {
    let mut ledger = CellLedger::new();
    let (op, info) = cell(1, 0, 100, 7);
    ledger.add_cell(op, info);
    let missing = OutPoint::new(h(9), 3);
    let err = ledger.spend_cell(&missing).unwrap_err();
    assert!(matches!(err, Error::Storage(_)));
    assert_eq!(ledger.load_cells().len(), 1);
}

#[test]
fn remove_cell_twice_is_a_noop_the_second_time() {
    let mut ledger = CellLedger::new();
    let (op, info) = cell(1, 0, 100, 7);
    ledger.add_cell(op, info);
    let target = OutPoint::new(h(1), 0);
    ledger.rm_cell(&target);
    assert_eq!(ledger.load_cells().len(), 0);
    ledger.rm_cell(&target);
    assert_eq!(ledger.load_cells().len(), 0);
}

#[test]
fn spend_cell_moves_to_pending() {
    let mut ledger = CellLedger::new();
    let (op, info) = cell(1, 0, 100, 7);
    ledger.add_cell(op, info);
    ledger.spend_cell(&OutPoint::new(h(1), 0)).unwrap();
    assert_eq!(ledger.load_cells().len(), 0);
    // Removing clears the pending entry too; a second spend now fails.
    assert!(ledger.spend_cell(&OutPoint::new(h(1), 0)).is_err());
}

#[test]
fn checkpoint_mismatch_aborts_startup() {
    let start = BlockMeta { number: 5, hash: h(0xaa) };
    let good = Some(BlockMeta { number: 5, hash: h(0xaa) });
    let bad = Some(BlockMeta { number: 5, hash: h(0xbb) });
    assert!(check_chain(&start, &good).is_ok());
    assert!(matches!(check_chain(&start, &bad), Err(Error::Runtime(_))));
    assert!(matches!(check_chain(&start, &None), Err(Error::Runtime(_))));
}

#[test]
fn sync_window_skips_when_tip_is_close() {
    assert_eq!(sync_window(10, 5, 15), None);
    assert_eq!(sync_window(10, 5, 14), None);
    assert_eq!(sync_window(10, 5, 16), Some((10, 11)));
}

#[test]
fn apply_block_adds_owned_outputs_and_removes_spent_inputs() {
    let mut ledger = CellLedger::new();
    let mut accounts = AccountMap::new();
    let acct = account(LockScriptId::Secp256K1Blake160, 1);
    let script = acct.info.script.duplicate();
    accounts.insert(acct);

    // A previously tracked cell that this block consumes.
    let (op, info) = cell(0x01, 0, 500, 7);
    ledger.add_cell(op, info);

    let foreign = Script { code_hash: h(0x42), hash_type: ScriptHashType::Data, args: vec![1] };
    let block = BlockData {
        transactions: vec![TxData {
            hash: h(0x02),
            outputs: vec![
                CellOutput { capacity: 700, lock: script },
                CellOutput { capacity: 900, lock: foreign },
            ],
            inputs: vec![OutPoint::new(h(0x01), 0)],
        }],
    };
    apply_block(&mut ledger, &accounts, &block, 33);
    let cells = ledger.load_cells();
    // The owned output was added under (block tx hash, 0); the foreign one
    // was not; the consumed out-point is gone.
    assert_eq!(cells.len(), 1);
    assert_eq!(cells[0].out_point.tx_hash, h(0x02));
    assert_eq!(cells[0].out_point.index, 0);
    assert_eq!(cells[0].cell_info.capacity, 700);
    assert_eq!(ledger.get_next_number(), Some(34));
}

#[test]
fn applying_the_same_block_twice_does_not_duplicate_records() {
    let mut ledger = CellLedger::new();
    let mut accounts = AccountMap::new();
    let acct = account(LockScriptId::Secp256K1Blake160, 1);
    let script = acct.info.script.duplicate();
    accounts.insert(acct);
    let block = BlockData {
        transactions: vec![TxData {
            hash: h(0x02),
            outputs: vec![CellOutput { capacity: 700, lock: script }],
            inputs: vec![],
        }],
    };
    apply_block(&mut ledger, &accounts, &block, 33);
    let block2 = BlockData {
        transactions: vec![TxData {
            hash: h(0x02),
            outputs: vec![CellOutput {
                capacity: 700,
                lock: accounts.get(0).info.script.duplicate(),
            }],
            inputs: vec![],
        }],
    };
    apply_block(&mut ledger, &accounts, &block2, 33);
    assert_eq!(ledger.load_cells().len(), 1);
}

#[test]
fn selector_accumulates_until_threshold_and_target() {
    let cells = vec![
        InputInfo::new(OutPoint::new(h(1), 0), CellInfo::new(3_0000_0000, h(7))),
        InputInfo::new(OutPoint::new(h(1), 1), CellInfo::new(3_0000_0000, h(7))),
        InputInfo::new(OutPoint::new(h(1), 2), CellInfo::new(3_0000_0000, h(7))),
    ];
    let mut pos = 0usize;
    let mut batch: Vec<InputInfo> = Vec::new();
    // Threshold is (1 + 1) * 10^8 = 2 * 10^8; target size two inputs.
    let r1 = fetch_more_inputs(&cells, &mut pos, &mut batch, 10, 1, 2).unwrap();
    assert_eq!(r1, FetchInputsResult::Next);
    let r2 = fetch_more_inputs(&cells, &mut pos, &mut batch, 10, 1, 2).unwrap();
    assert_eq!(r2, FetchInputsResult::Enough);
    assert_eq!(batch.len(), 2);
    // Exhausting the snapshot with an empty batch signals "lacking".
    let mut pos2 = 3usize;
    let mut empty: Vec<InputInfo> = Vec::new();
    let r3 = fetch_more_inputs(&cells, &mut pos2, &mut empty, 10, 1, 2).unwrap();
    assert_eq!(r3, FetchInputsResult::Lack);
}

#[test]
fn prepare_inputs_orders_leaders_first() {
    let mut batch = vec![
        InputInfo::new(OutPoint::new(h(1), 0), CellInfo::new(10, h(0xbb))),
        InputInfo::new(OutPoint::new(h(1), 1), CellInfo::new(20, h(0xaa))),
        InputInfo::new(OutPoint::new(h(1), 2), CellInfo::new(30, h(0xbb))),
    ];
    let (lock_hashes, inputs) = prepare_inputs(&mut batch);
    assert!(batch.is_empty());
    assert_eq!(lock_hashes, vec![h(0xaa), h(0xbb)]);
    assert_eq!(inputs.len(), 3);
    assert_eq!(inputs[0].cell_info.lock_hash, h(0xaa));
    assert_eq!(inputs[1].cell_info.lock_hash, h(0xbb));
    assert_eq!(inputs[2].cell_info.lock_hash, h(0xbb));
}

#[test]
fn outputs_count_is_clamped() {
    assert_eq!(calculate_outputs_count(10, 600_0000_0000, 5_0000_0000, 100), 10);
    assert_eq!(calculate_outputs_count(200, 600_0000_0000, 5_0000_0000, 100), 119);
    assert_eq!(calculate_outputs_count(10, 4_0000_0000, 5_0000_0000, 100), 1);
}

fn build_world() -> (AccountMap, LockDepsDict) {
    let mut accounts = AccountMap::new();
    accounts.insert(account(LockScriptId::Secp256K1Blake160, 1));
    accounts.insert(account(LockScriptId::PwLockK1Acpl, 2));
    let mut deps = LockDepsDict::new();
    deps.insert(
        LockScriptId::Secp256K1Blake160,
        vec![cellbench::records::CellDep {
            out_point: OutPoint::new(h(0x51), 0),
            dep_type: cellbench::records::DepType::DepGroup,
        }],
    );
    deps.insert(
        LockScriptId::PwLockK1Acpl,
        vec![cellbench::records::CellDep {
            out_point: OutPoint::new(h(0x52), 0),
            dep_type: cellbench::records::DepType::Code,
        }],
    );
    (accounts, deps)
}

#[test]
fn builder_conserves_capacity_and_sorts_outputs() {
    let (accounts, deps) = build_world();
    let generator = lock_generator(&accounts, 1, 1).unwrap();
    // One spendable cell of 600 whole units owned by the first account.
    let owner = accounts.get(0).lock_hash.clone();
    let batch = vec![InputInfo::new(
        OutPoint::new(h(0x61), 0),
        CellInfo::new(600_0000_0000, owner),
    )];
    let tx = construct_raw_transaction(&batch, &accounts, &generator, &deps, 10, 5, 100).unwrap();
    assert_eq!(tx.inputs.len(), 1);
    // floor((60000000000 - 100) / 500000000) = 119, clamped to 10.
    assert_eq!(tx.outputs.len(), 10);
    let sum: u64 = tx.outputs.iter().map(|o| o.capacity).sum();
    assert_eq!(sum + 100, 600_0000_0000);
    assert_eq!(tx.outputs[0].capacity, 600_0000_0000 - 100 - 9 * 5_0000_0000);
    for o in tx.outputs.iter().skip(1) {
        assert_eq!(o.capacity, 5_0000_0000);
    }
    let keys: Vec<Vec<u8>> = tx.outputs.iter().skip(1).map(|o| serialize_script(&o.lock).unwrap()).collect();
    for w in keys.windows(2) {
        assert!(w[0] <= w[1]);
    }
    assert_eq!(tx.cell_deps.len(), 1);
    assert_eq!(tx.cell_deps[0].out_point.tx_hash, h(0x51));
}

#[test]
fn builder_rejects_fee_above_total() {
    let (accounts, deps) = build_world();
    let generator = lock_generator(&accounts, 1, 1).unwrap();
    let owner = accounts.get(0).lock_hash.clone();
    let batch = vec![InputInfo::new(OutPoint::new(h(0x61), 0), CellInfo::new(50, owner))];
    let r = construct_raw_transaction(&batch, &accounts, &generator, &deps, 10, 5, 100);
    assert!(r.is_err());
}

#[test]
fn builder_rejects_unknown_owner() {
    let (accounts, deps) = build_world();
    let generator = lock_generator(&accounts, 1, 1).unwrap();
    let batch = vec![InputInfo::new(OutPoint::new(h(0x61), 0), CellInfo::new(1000, h(0x77)))];
    let r = construct_raw_transaction(&batch, &accounts, &generator, &deps, 10, 5, 100);
    assert!(matches!(r, Err(Error::Runtime(_))));
}

#[test]
fn signer_fills_one_witness_per_owner() {
    let (accounts, deps) = build_world();
    let generator = lock_generator(&accounts, 1, 1).unwrap();
    let owner_a = accounts.get(0).lock_hash.clone();
    let owner_b = accounts.get(1).lock_hash.clone();
    let mut batch = vec![
        InputInfo::new(OutPoint::new(h(0x61), 0), CellInfo::new(600_0000_0000, owner_a)),
        InputInfo::new(OutPoint::new(h(0x62), 0), CellInfo::new(600_0000_0000, owner_b)),
    ];
    let (lock_hashes, inputs) = prepare_inputs(&mut batch);
    let tx = construct_raw_transaction(&inputs, &accounts, &generator, &deps, 10, 5, 100).unwrap();
    let stx = sign_transaction(tx, &lock_hashes, &accounts).unwrap();
    assert_eq!(stx.witnesses.len(), 2);
    for w in &stx.witnesses {
        // A witness carries a 65-byte signature in a table of three fields:
        // 16 header bytes + 4 length bytes + 65 signature bytes.
        assert_eq!(w.len(), 85);
        assert_ne!(&w[20..85], &[0u8; 65][..]);
    }
    assert_ne!(stx.witnesses[0], stx.witnesses[1]);
}

#[test]
fn after_submission_marks_inputs_pending() {
    let mut ledger = CellLedger::new();
    let (op, info) = cell(1, 0, 100, 7);
    ledger.add_cell(op, info);
    let inputs = vec![InputInfo::new(OutPoint::new(h(1), 0), CellInfo::new(100, h(7)))];
    after_submission(&mut ledger, &inputs).unwrap();
    assert_eq!(ledger.load_cells().len(), 0);
    // A second submission of the same inputs fails: they are pending now.
    assert!(after_submission(&mut ledger, &inputs).is_err());
}

#[test]
fn idle_only_when_skipped_and_nothing_built() {
    assert!(should_idle(true, 0));
    assert!(!should_idle(true, 2));
    assert!(!should_idle(false, 0));
}

#[test]
fn generator_rejects_all_zero_weights() {
    let (accounts, _) = build_world();
    let r = lock_generator(&accounts, 0, 0);
    assert!(matches!(r, Err(Error::Runtime(_))));
    assert!(lock_generator(&accounts, 0, 3).is_ok());
}

#[test]
fn metadata_accounts_builds_one_entry_per_account() {
    let deps = vec![cellbench::records::CellDep {
        out_point: OutPoint::new(h(0x51), 0),
        dep_type: cellbench::records::DepType::DepGroup,
    }];
    let metadata = cellbench::records::MetaData {
        start_block: BlockMeta { number: 0, hash: h(0) },
        lock_scripts: vec![(
            LockScriptId::Secp256K1Blake160,
            cellbench::records::LockScriptConfig {
                code_hash: h(0x42),
                hash_type: ScriptHashType::Type,
                cell_deps: deps,
            },
        )],
        accounts: vec![cellbench::records::Account {
            secret_key: vec![1u8; 32],
            lock_id: LockScriptId::Secp256K1Blake160,
        }],
    };
    let map = metadata.accounts().unwrap();
    assert_eq!(map.len(), 1);
    let expected = account(LockScriptId::Secp256K1Blake160, 1);
    assert_eq!(map.get(0).lock_hash, expected.lock_hash);
    assert_eq!(map.get(0).info.secret_key, vec![1u8; 32]);
    let dict = metadata.lock_deps_dict();
    let row = dict.deps_for(LockScriptId::Secp256K1Blake160).unwrap();
    assert_eq!(row.len(), 1);
    assert_eq!(row[0].out_point.tx_hash, h(0x51));
    assert!(dict.deps_for(LockScriptId::PwLockK1Acpl).is_none());
}
