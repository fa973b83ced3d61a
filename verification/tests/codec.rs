use cellbench::bytesutil::{u32_from_le, u32_to_le, u64_from_be, u64_from_le, u64_to_be, u64_to_le};
use cellbench::molecule::{serialize_cell_dep, serialize_cell_input, serialize_raw_tx, serialize_script, serialize_witness_args};
use cellbench::records::{CellDep, CellInfo, CellOutput, DepType, OutPoint, RawTransaction, Script, ScriptHashType};
use cellbench::signer::{blake2b256, keccak256};

use ckb_types::packed;
use ckb_types::prelude::{Builder, Entity, Pack, PackVec};

fn h(b: u8) -> Vec<u8> {
    vec![b; 32]
}

#[test]
fn integer_packing_round_trips() {
    let n: u64 = 0x0123_4567_89ab_cdef;
    assert_eq!(u64_to_le(n), n.to_le_bytes().to_vec());
    assert_eq!(u64_to_be(n), n.to_be_bytes().to_vec());
    assert_eq!(u64_from_le(&u64_to_le(n)), n);
    assert_eq!(u64_from_be(&u64_to_be(n)), n);
    let m: u32 = 0xdead_beef;
    assert_eq!(u32_to_le(m), m.to_le_bytes().to_vec());
    assert_eq!(u32_from_le(&u32_to_le(m)), m);
}

#[test]
fn cell_record_round_trip() {
    let info = CellInfo::new(600_0000_0000, h(0xab));
    let bytes = info.to_vec();
    assert_eq!(bytes.len(), 40);
    assert_eq!(&bytes[0..8], &600_0000_0000u64.to_le_bytes());
    assert_eq!(&bytes[8..40], &h(0xab)[..]);
    let back = CellInfo::from_slice(&bytes);
    assert_eq!(back.capacity, info.capacity);
    assert_eq!(back.lock_hash, info.lock_hash);
}

#[test]
fn out_point_key_layout() {
    let op = OutPoint::new(h(0x11), 7);
    let key = op.pack();
    let packed_op = packed::OutPoint::new_builder()
        .tx_hash(packed::Byte32::from_slice(&h(0x11)).unwrap())
        .index(<u32 as Pack<packed::Uint32>>::pack(&7u32))
        .build();
    assert_eq!(key, packed_op.as_slice().to_vec());
}

fn sample_script(args: Vec<u8>) -> Script {
    Script { code_hash: h(0x42), hash_type: ScriptHashType::Type, args }
}

fn packed_script(args: &[u8]) -> packed::Script {
    packed::Script::new_builder()
        .code_hash(packed::Byte32::from_slice(&h(0x42)).unwrap())
        .hash_type(packed::Byte::new(1))
        .args(args.pack())
        .build()
}

#[test]
fn script_serialization_matches_chain_format() {
    let args = vec![1u8, 2, 3, 4, 5];
    let ours = serialize_script(&sample_script(args.clone())).unwrap();
    assert_eq!(ours, packed_script(&args).as_slice().to_vec());
}

#[test]
fn witness_args_serialization_matches_chain_format() {
    let sig = vec![0u8; 65];
    let ours = serialize_witness_args(&sig).unwrap();
    let theirs = packed::WitnessArgs::new_builder()
        .lock(Some(ckb_types::bytes::Bytes::from(sig)).pack())
        .build();
    assert_eq!(ours, theirs.as_slice().to_vec());
}

#[test]
fn raw_transaction_serialization_and_hash_match_chain_format() {
    let dep = CellDep { out_point: OutPoint::new(h(0x21), 0), dep_type: DepType::DepGroup };
    let input = OutPoint::new(h(0x31), 2);
    let output = CellOutput { capacity: 123_0000_0000, lock: sample_script(vec![9u8; 20]) };
    let ours_ser = serialize_cell_dep(&dep);
    let tx = RawTransaction {
        cell_deps: vec![dep],
        inputs: vec![input],
        outputs: vec![output],
    };
    let ours = serialize_raw_tx(&tx).unwrap();

    let packed_dep = packed::CellDep::new_builder()
        .out_point(
            packed::OutPoint::new_builder()
                .tx_hash(packed::Byte32::from_slice(&h(0x21)).unwrap())
                .index(<u32 as Pack<packed::Uint32>>::pack(&0u32))
                .build(),
        )
        .dep_type(packed::Byte::new(1))
        .build();
    assert_eq!(ours_ser, packed_dep.as_slice().to_vec());
    let packed_input = packed::CellInput::new_builder()
        .previous_output(
            packed::OutPoint::new_builder()
                .tx_hash(packed::Byte32::from_slice(&h(0x31)).unwrap())
                .index(<u32 as Pack<packed::Uint32>>::pack(&2u32))
                .build(),
        )
        .build();
    assert_eq!(
        serialize_cell_input(&OutPoint::new(h(0x31), 2)),
        packed_input.as_slice().to_vec()
    );
    let packed_output = packed::CellOutput::new_builder()
        .capacity(ckb_types::core::Capacity::shannons(123_0000_0000).pack())
        .lock(packed_script(&vec![9u8; 20]))
        .build();
    let packed_raw = packed::RawTransaction::new_builder()
        .cell_deps(vec![packed_dep].pack())
        .inputs(vec![packed_input].pack())
        .outputs(vec![packed_output].pack())
        .outputs_data(vec![<[u8] as Pack<packed::Bytes>>::pack(&[][..])].pack())
        .build();
    assert_eq!(ours, packed_raw.as_slice().to_vec());

    let packed_tx = packed::Transaction::new_builder().raw(packed_raw).build();
    let expected_hash = packed_tx.calc_tx_hash();
    assert_eq!(blake2b256(&ours), expected_hash.as_slice().to_vec());
}

#[test]
fn blake2b_matches_chain_hash() {
    assert_eq!(blake2b256(&Vec::new()), ckb_hash::blake2b_256(&[]).to_vec());
    let data = b"ckb".to_vec();
    assert_eq!(blake2b256(&data), ckb_hash::blake2b_256(&data).to_vec());
}

#[test]
fn keccak_matches_known_vector() {
    let empty = keccak256(&Vec::new());
    assert_eq!(
        empty,
        vec![
            0xc5, 0xd2, 0x46, 0x01, 0x86, 0xf7, 0x23, 0x3c, 0x92, 0x7e, 0x7d, 0xb2, 0xdc, 0xc7,
            0x03, 0xc0, 0xe5, 0x00, 0xb6, 0x53, 0xca, 0x82, 0x27, 0x3b, 0x7b, 0xfa, 0xd8, 0x04,
            0x5d, 0x85, 0xa4, 0x70,
        ]
    );
}
