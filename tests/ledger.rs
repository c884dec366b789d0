use sidechain_types::{
    concat_hashes, decode_outpoint, root_matches, Hashable, Header, OutPoint, Output,
    Transaction,
};

fn regular(addr: u8, value: u64) -> Output {
    Output::Regular { address: [addr; 20], value }
}

fn withdrawal(addr: u8, main: u8, value: u64, fee: u64) -> Output {
    Output::Withdrawal { address: [addr; 20], main_address: [main; 20], value, fee }
}

fn tx(inputs: Vec<OutPoint>, outputs: Vec<Output>) -> Transaction {
    Transaction { inputs, outputs }
}

#[test]
fn total_value_of_regular_is_value() {
    assert_eq!(regular(1, 5000).total_value(), 5000);
    assert_eq!(regular(1, 0).total_value(), 0);
    assert_eq!(regular(1, u64::MAX).total_value(), u64::MAX);
}

#[test]
fn total_value_of_withdrawal_adds_fee() {
    assert_eq!(withdrawal(1, 2, 700, 30).total_value(), 730);
    assert_eq!(withdrawal(1, 2, u64::MAX - 1, 1).total_value(), u64::MAX);
}

#[test]
fn address_ignores_variant() {
    assert_eq!(regular(9, 1).address(), [9u8; 20]);
    assert_eq!(withdrawal(4, 5, 1, 1).address(), [4u8; 20]);
}

#[test]
fn value_out_sums_outputs() {
    let t = tx(vec![], vec![regular(1, 100), withdrawal(2, 3, 50, 5), regular(4, 1)]);
    assert_eq!(t.value_out(), 156);
    assert_eq!(tx(vec![], vec![]).value_out(), 0);
}

#[test]
fn value_out_ignores_output_order() {
    let a = tx(vec![], vec![regular(1, 100), withdrawal(2, 3, 50, 5), regular(4, 1)]);
    let b = tx(vec![], vec![regular(4, 1), regular(1, 100), withdrawal(2, 3, 50, 5)]);
    assert_eq!(a.value_out(), b.value_out());
    assert_ne!(a.hash(), b.hash());
}

#[test]
fn outpoint_encoding_matches_bincode() {
    let p = OutPoint::Regular { transaction_number: 0x0102030405060708, output_number: 9 };
    assert_eq!(p.encode(), bincode::serialize(&(0u32, 0x0102030405060708u64, 9u8)).unwrap());
    let p = OutPoint::Coinbase { block_number: u32::MAX, output_number: 255 };
    assert_eq!(p.encode(), bincode::serialize(&(1u32, u32::MAX, 255u8)).unwrap());
    let p = OutPoint::Deposit { sequence_number: 7 };
    assert_eq!(p.encode(), bincode::serialize(&(2u32, 7u64)).unwrap());
}

#[test]
fn output_encoding_matches_bincode() {
    let o = regular(3, 5000);
    assert_eq!(o.encode(), bincode::serialize(&(0u32, [3u8; 20], 5000u64)).unwrap());
    let o = withdrawal(3, 4, 10, 2);
    assert_eq!(
        o.encode(),
        bincode::serialize(&(1u32, [3u8; 20], [4u8; 20], 10u64, 2u64)).unwrap()
    );
}

#[test]
fn transaction_and_slice_encoding_match_bincode() {
    let inputs = vec![OutPoint::Deposit { sequence_number: 1 }];
    let outputs = vec![regular(1, 2)];
    let t = tx(inputs, outputs);
    let expected = bincode::serialize(&(
        vec![(2u32, 1u64)],
        vec![(0u32, [1u8; 20], 2u64)],
    ))
    .unwrap();
    assert_eq!(t.encode(), expected);
    let coinbase = vec![regular(1, 2), regular(2, 3)];
    let expected =
        bincode::serialize(&vec![(0u32, [1u8; 20], 2u64), (0u32, [2u8; 20], 3u64)]).unwrap();
    assert_eq!(coinbase.as_slice().encode(), expected);
}

#[test]
fn header_encoding_is_its_two_hashes() {
    let h = Header { prev_side_block_hash: [1; 32], merkle_root: [2; 32] };
    let mut expected = vec![1u8; 32];
    expected.extend_from_slice(&[2u8; 32]);
    assert_eq!(h.encode(), expected);
}

#[test]
fn hash_is_blake3_of_encoding() {
    let p = OutPoint::Coinbase { block_number: 12, output_number: 1 };
    let expected: [u8; 32] = blake3::hash(&p.encode()).into();
    assert_eq!(p.hash(), expected);
    assert_ne!(p.hash().to_vec(), p.encode());
}

#[test]
fn hash_is_deterministic_and_separates_values() {
    let t = tx(vec![OutPoint::Deposit { sequence_number: 3 }], vec![regular(1, 10)]);
    assert_eq!(t.hash(), t.hash());
    let u = tx(vec![OutPoint::Deposit { sequence_number: 3 }], vec![regular(1, 11)]);
    assert_ne!(t.hash(), u.hash());
}

#[test]
fn outpoints_sharing_a_numeral_differ() {
    let d = OutPoint::Deposit { sequence_number: 7 };
    let r = OutPoint::Regular { transaction_number: 7, output_number: 0 };
    assert_ne!(d, r);
    assert_ne!(d.hash(), r.hash());
}

#[test]
fn outpoint_round_trips() {
    let cases = vec![
        OutPoint::Regular { transaction_number: 0, output_number: 255 },
        OutPoint::Regular { transaction_number: u64::MAX, output_number: 0 },
        OutPoint::Coinbase { block_number: u32::MAX, output_number: 255 },
        OutPoint::Coinbase { block_number: 0, output_number: 0 },
        OutPoint::Deposit { sequence_number: 0 },
        OutPoint::Deposit { sequence_number: u64::MAX },
    ];
    for p in cases {
        assert_eq!(decode_outpoint(&p.encode()), Some(p.clone()));
        let mut longer = p.encode();
        longer.push(0xaa);
        assert_eq!(decode_outpoint(&longer), Some(p));
    }
}

#[test]
fn outpoint_decoding_rejects_bad_bytes() {
    assert_eq!(decode_outpoint(&[]), None);
    assert_eq!(decode_outpoint(&[0, 0, 0]), None);
    assert_eq!(decode_outpoint(&[3, 0, 0, 0, 1, 2, 3, 4, 5, 6, 7, 8, 9]), None);
    assert_eq!(decode_outpoint(&[0, 0, 0, 0, 1, 2, 3, 4, 5, 6, 7, 8]), None);
    assert_eq!(decode_outpoint(&[1, 0, 0, 0, 1, 2, 3, 4]), None);
    assert_eq!(decode_outpoint(&[2, 0, 0, 0, 1, 2, 3, 4, 5, 6, 7]), None);
}

#[test]
fn merkle_root_hashes_coinbase_hash_then_transaction_hashes() {
    let coinbase = vec![regular(0xa, 5000)];
    let t = tx(vec![OutPoint::Deposit { sequence_number: 1 }], vec![regular(0xb, 100)]);
    let mut preimage = coinbase.as_slice().hash().to_vec();
    preimage.extend_from_slice(&t.hash());
    let expected: [u8; 32] = blake3::hash(&preimage).into();
    assert_eq!(Header::compute_merkle_root(&coinbase, &[t]), expected);
}

#[test]
fn block_with_appended_transaction_changes_root() {
    let coinbase = vec![regular(0xa, 5000)];
    let r1 = Header::compute_merkle_root(&coinbase, &[]);
    let txs = vec![tx(vec![], vec![regular(0xb, 100)])];
    let r2 = Header::compute_merkle_root(&coinbase, &txs);
    assert_ne!(r1, r2);
    assert_eq!(r2, Header::compute_merkle_root(&coinbase, &txs));
}

#[test]
fn merkle_root_depends_on_transaction_order() {
    let coinbase = vec![regular(0xa, 5000)];
    let t1 = tx(vec![], vec![regular(1, 1)]);
    let t2 = tx(vec![], vec![regular(2, 2)]);
    let a = Header::compute_merkle_root(&coinbase, &[t1.clone(), t2.clone()]);
    let b = Header::compute_merkle_root(&coinbase, &[t2, t1]);
    assert_ne!(a, b);
}

#[test]
fn merkle_root_depends_on_coinbase_order() {
    let a = Header::compute_merkle_root(&[regular(1, 1), regular(2, 2)], &[]);
    let b = Header::compute_merkle_root(&[regular(2, 2), regular(1, 1)], &[]);
    assert_ne!(a, b);
}

#[test]
fn validate_block_accepts_its_own_root() {
    let coinbase = vec![regular(0xa, 5000)];
    let txs = vec![tx(vec![OutPoint::Deposit { sequence_number: 7 }], vec![regular(0xb, 100)])];
    let root = Header::compute_merkle_root(&coinbase, &txs);
    let header = Header { prev_side_block_hash: [0; 32], merkle_root: root };
    assert!(header.validate_block(&coinbase, &txs));
    assert!(root_matches(&header, &root));
}

#[test]
fn validate_block_rejects_changed_contents() {
    let coinbase = vec![regular(0xa, 5000)];
    let txs = vec![tx(vec![OutPoint::Deposit { sequence_number: 7 }], vec![regular(0xb, 100)])];
    let root = Header::compute_merkle_root(&coinbase, &txs);
    let header = Header { prev_side_block_hash: [0; 32], merkle_root: root };
    let changed = vec![tx(vec![OutPoint::Deposit { sequence_number: 7 }], vec![regular(0xb, 101)])];
    assert!(!header.validate_block(&coinbase, &changed));
    assert!(!header.validate_block(&[regular(0xa, 5001)], &txs));
    assert!(!header.validate_block(&coinbase, &[]));
    let mut other = root;
    other[31] ^= 1;
    let header = Header { prev_side_block_hash: [0; 32], merkle_root: other };
    assert!(!header.validate_block(&coinbase, &txs));
    assert!(!root_matches(&header, &root));
}

#[test]
fn concat_hashes_joins_without_separators() {
    let joined = concat_hashes(&[1; 32], &[[2; 32], [3; 32]]);
    assert_eq!(joined.len(), 96);
    assert_eq!(&joined[0..32], &[1u8; 32]);
    assert_eq!(&joined[32..64], &[2u8; 32]);
    assert_eq!(&joined[64..96], &[3u8; 32]);
    assert_eq!(concat_hashes(&[5; 32], &[]), vec![5u8; 32]);
}

#[test]
fn outpoint_renders_tagged_text() {
    let p = OutPoint::Regular { transaction_number: 12, output_number: 3 };
    assert_eq!(p.to_string(), "r:12:3");
    let p = OutPoint::Coinbase { block_number: u32::MAX, output_number: 255 };
    assert_eq!(p.to_string(), "c:4294967295:255");
    assert_eq!(OutPoint::Deposit { sequence_number: 0 }.to_string(), "d:0");
    assert_eq!(OutPoint::Deposit { sequence_number: u64::MAX }.to_string(), "d:18446744073709551615");
}

#[test]
fn regular_output_renders_address_and_amount() {
    let o = regular(7, 5000);
    let address = bs58::encode(&[7u8; 20]).with_check().into_string();
    let amount = bitcoin::Amount::from_sat(5000).to_string();
    assert_eq!(o.to_string(), format!("{address}: {amount}"));
    assert!(o.to_string().ends_with(" BTC"));
    assert!(!o.to_string().starts_with("0707"));
}
