use accumulator::codec::{decode_list, encode_list, DecodeError};
use accumulator::epoch_sedes::EpochSede;
use accumulator::merkle::merkle_list_root;
use accumulator::primitives::{le_bytes_32, H256, U256};
use ssz::{Decode, Encode};
use ssz_types::typenum::{U1, U16, U2, U4};
use ssz_types::VariableList;
use tree_hash::TreeHash;

fn chunk(seed: u8) -> H256 {
    let mut bytes = [0u8; 32];
    for (i, b) in bytes.iter_mut().enumerate() {
        *b = seed.wrapping_mul(31).wrapping_add(i as u8);
    }
    H256(bytes)
}

fn record(seed: u8) -> EpochSede {
    EpochSede::new(U256::from_u64(seed as u64 * 1_000_003 + 5), chunk(seed))
}

fn reference(roots: &[H256]) -> Vec<ethereum_types::H256> {
    roots.iter().map(|h| ethereum_types::H256(h.0)).collect()
}

#[test]
fn epoch_lists_come_back_from_their_bytes() {
    for count in [0usize, 1, 2, 3, 100, 2047, 2048] {
        let list: Vec<EpochSede> = (0..count).map(|i| record(i as u8)).collect();
        let bytes = encode_list(&list, 2048);
        assert_eq!(bytes.len(), 64 * count);
        assert_eq!(decode_list::<EpochSede>(&bytes, 2048), Ok(list));
    }
}

#[test]
fn master_lists_come_back_from_their_bytes() {
    for count in [0usize, 1, 2, 3, 100, 5000] {
        let list: Vec<H256> = (0..count).map(|i| chunk(i as u8)).collect();
        let bytes = encode_list(&list, 16777216);
        assert_eq!(bytes.len(), 32 * count);
        assert_eq!(decode_list::<H256>(&bytes, 16777216), Ok(list));
    }
}

#[test]
fn a_summary_is_its_hash_then_its_difficulty_least_byte_first() {
    let summary = EpochSede::new(U256::from_u64(0x0102), H256([0x11; 32]));
    let mut expected = vec![0x11u8; 32];
    expected.extend([0x02, 0x01]);
    expected.extend([0u8; 30]);
    assert_eq!(encode_list(&vec![summary], 2048), expected);
}

#[test]
fn a_list_has_no_length_in_front() {
    assert_eq!(encode_list::<H256>(&vec![], 4), Vec::<u8>::new());
    assert_eq!(encode_list(&vec![H256([9; 32])], 4), vec![9u8; 32]);
    let mut two = vec![9u8; 32];
    two.extend([3u8; 32]);
    assert_eq!(encode_list(&vec![H256([9; 32]), H256([3; 32])], 4), two);
}

#[test]
fn encoding_keeps_no_more_than_the_list_may_hold() {
    let list: Vec<H256> = (0..7).map(|i| chunk(i as u8)).collect();
    assert_eq!(encode_list(&list, 4), encode_list(&list[..4].to_vec(), 4));
    assert_eq!(encode_list(&list, 0), Vec::<u8>::new());
}

#[test]
fn little_endian_bytes_of_a_number() {
    let mut expected = [0u8; 32];
    assert_eq!(le_bytes_32(0), expected);
    expected[0] = 0x0a;
    expected[1] = 0x10;
    assert_eq!(le_bytes_32(4106), expected);
    let mut all = [0u8; 32];
    for b in all.iter_mut().take(8) {
        *b = 0xff;
    }
    assert_eq!(le_bytes_32(u64::MAX), all);
    assert_eq!(U256::from_u64(4106).0, expected);
    assert_eq!(
        U256::from_u64(0xdead_beef_0123_4567).0.to_vec(),
        ethereum_types::U256::from(0xdead_beef_0123_4567u64).as_ssz_bytes()
    );
}

#[test]
fn decoding_agrees_with_the_crates() {
    for len in 0..200usize {
        let bytes: Vec<u8> = (0..len).map(|i| (i * 7 + 1) as u8).collect();
        let ours = decode_list::<H256>(&bytes, 4);
        let theirs = <VariableList<ethereum_types::H256, U4>>::from_ssz_bytes(&bytes);
        match (ours, theirs) {
            (Ok(a), Ok(b)) => assert_eq!(reference(&a), b.to_vec()),
            (
                Err(DecodeError::InvalidByteLength { len, expected }),
                Err(ssz::DecodeError::InvalidByteLength { len: l, expected: e }),
            ) => assert_eq!((len, expected), (l, e)),
            (Err(DecodeError::ListTooLong { items, max }), Err(ssz::DecodeError::BytesInvalid(m))) => {
                assert_eq!(
                    m,
                    format!("VariableList of {} items exceeds maximum of {}", items, max)
                )
            }
            (a, b) => panic!("{} bytes: {:?} against {:?}", len, a, b),
        }
    }
}

#[test]
fn a_cut_item_is_an_invalid_byte_length() {
    assert_eq!(
        decode_list::<H256>(&vec![0u8; 31], 4),
        Err(DecodeError::InvalidByteLength { len: 31, expected: 32 })
    );
    assert_eq!(
        decode_list::<EpochSede>(&vec![0u8; 64 + 32], 4),
        Err(DecodeError::InvalidByteLength { len: 32, expected: 64 })
    );
}

#[test]
fn too_many_items_is_a_list_too_long() {
    assert_eq!(
        decode_list::<H256>(&vec![0u8; 32 * 5], 4),
        Err(DecodeError::ListTooLong { items: 5, max: 4 })
    );
    assert_eq!(
        decode_list::<H256>(&vec![0u8; 32 * 5 + 1], 4),
        Err(DecodeError::ListTooLong { items: 5, max: 4 })
    );
    assert_eq!(
        decode_list::<H256>(&vec![0u8; 32], 0),
        Err(DecodeError::ListTooLong { items: 1, max: 0 })
    );
    assert_eq!(decode_list::<H256>(&vec![0u8; 32 * 4], 4).map(|l| l.len()), Ok(4));
}

#[test]
fn list_roots_are_those_of_the_crates() {
    for count in 0..=1usize {
        let leaves: Vec<H256> = (0..count).map(|i| chunk(i as u8)).collect();
        let list: VariableList<ethereum_types::H256, U1> = VariableList::from(reference(&leaves));
        assert_eq!(merkle_list_root(&leaves, 0).0, list.tree_hash_root().0);
    }
    for count in 0..=2usize {
        let leaves: Vec<H256> = (0..count).map(|i| chunk(i as u8)).collect();
        let list: VariableList<ethereum_types::H256, U2> = VariableList::from(reference(&leaves));
        assert_eq!(merkle_list_root(&leaves, 1).0, list.tree_hash_root().0);
    }
    for count in 0..=4usize {
        let leaves: Vec<H256> = (0..count).map(|i| chunk(i as u8)).collect();
        let list: VariableList<ethereum_types::H256, U4> = VariableList::from(reference(&leaves));
        assert_eq!(merkle_list_root(&leaves, 2).0, list.tree_hash_root().0);
    }
    for count in 0..=16usize {
        let leaves: Vec<H256> = (0..count).map(|i| chunk(i as u8)).collect();
        let list: VariableList<ethereum_types::H256, U16> = VariableList::from(reference(&leaves));
        assert_eq!(merkle_list_root(&leaves, 4).0, list.tree_hash_root().0);
    }
}

#[test]
fn the_tree_is_as_wide_as_the_list_may_grow() {
    let leaves: Vec<H256> = (0..2).map(|i| chunk(i as u8)).collect();
    assert_ne!(merkle_list_root(&leaves, 1), merkle_list_root(&leaves, 2));
    assert_ne!(merkle_list_root(&leaves, 2), merkle_list_root(&leaves, 11));
}

#[test]
fn a_zero_leaf_is_not_a_missing_leaf() {
    let one = vec![chunk(1)];
    let padded = vec![chunk(1), H256::zero()];
    assert_ne!(merkle_list_root(&one, 3), merkle_list_root(&padded, 3));
}

#[test]
fn values_compare_by_their_bytes() {
    assert_eq!(H256::zero(), H256([0u8; 32]));
    assert_ne!(H256::zero(), chunk(1));
    assert_eq!(U256::zero(), U256::from_u64(0));
    assert_ne!(U256::from_u64(1), U256::from_u64(256));
    assert_eq!(record(3), record(3));
    assert_ne!(record(3), record(4));
    assert_ne!(
        EpochSede::new(U256::from_u64(1), chunk(1)),
        EpochSede::new(U256::from_u64(2), chunk(1))
    );
}
