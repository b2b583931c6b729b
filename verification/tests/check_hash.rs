use accumulator::accumulator_storage::AccumulatorFileStorage;
use accumulator::accumulator_trie::{AccumulatorTrie, AccumulatorTrieTrait};
use accumulator::check_hash::check_hashes;
use accumulator::codec::DecodeError;
use accumulator::epoch_sedes::EpochSede;
use accumulator::primitives::{H256, U256};
use accumulator::trie::{Trie, TrieTrait};

fn empty_engine() -> AccumulatorTrie<Trie> {
    let storage = AccumulatorFileStorage::new(String::from("master"), String::from("epoch"));
    AccumulatorTrie::new(Trie::new(storage))
}

fn epoch(seed: u8, count: usize) -> Vec<EpochSede> {
    (0..count)
        .map(|i| EpochSede::new(U256::from_u64(i as u64 + seed as u64), H256([seed; 32])))
        .collect()
}

fn engine_with(epochs: &[Vec<EpochSede>]) -> AccumulatorTrie<Trie> {
    let mut engine = empty_engine();
    let mut master: Vec<H256> = Vec::new();
    for (i, list) in epochs.iter().enumerate() {
        let number = i + 1;
        engine.get_epoch_accumulator_by_epoch_number(&number).unwrap();
        assert!(engine.store_epoch_accumulator_by_epoch_number(&number, list));
        master.push(engine.get_tree_root_hash(list));
    }
    engine.get_master_accumulator().unwrap();
    assert!(engine.store_master_accumulator(&master));
    engine
}

#[test]
fn an_empty_master_accumulator_matches() {
    let mut engine = empty_engine();
    let check = check_hashes(&mut engine).unwrap();
    assert!(check.is_all_hash_matched());
    assert_eq!(check.epoch_lengths, Vec::<usize>::new());
}

#[test]
fn every_epoch_is_looked_at_in_order() {
    let mut engine = engine_with(&[epoch(1, 5), epoch(2, 0), epoch(3, 17)]);
    let check = check_hashes(&mut engine).unwrap();
    assert!(check.is_all_hash_matched());
    assert_eq!(check.mismatch, None);
    assert_eq!(check.epoch_lengths, vec![5, 0, 17]);
}

#[test]
fn the_check_stops_at_the_first_mismatch() {
    let mut engine = engine_with(&[epoch(1, 5), epoch(2, 4), epoch(3, 17), epoch(4, 1)]);
    assert!(engine.store_epoch_accumulator_by_epoch_number(&2, &epoch(9, 4)));
    assert!(engine.store_epoch_accumulator_by_epoch_number(&4, &epoch(9, 1)));

    let check = check_hashes(&mut engine).unwrap();
    assert!(!check.is_all_hash_matched());
    assert_eq!(check.mismatch, Some(2));
    assert_eq!(check.epoch_lengths, vec![5, 4]);
}

#[test]
fn an_epoch_of_another_length_is_a_mismatch() {
    let mut engine = engine_with(&[epoch(1, 5)]);
    assert!(engine.store_epoch_accumulator_by_epoch_number(&1, &epoch(1, 4)));
    let check = check_hashes(&mut engine).unwrap();
    assert_eq!(check.mismatch, Some(1));
    assert_eq!(check.epoch_lengths, vec![4]);
}

#[test]
fn a_missing_epoch_is_an_empty_one() {
    let mut engine = empty_engine();
    let root_of_nothing = engine.get_tree_root_hash(&vec![]);
    engine.get_master_accumulator().unwrap();
    assert!(engine.store_master_accumulator(&vec![root_of_nothing, H256::zero()]));

    let check = check_hashes(&mut engine).unwrap();
    assert_eq!(check.mismatch, Some(2));
    assert_eq!(check.epoch_lengths, vec![0, 0]);
}

#[test]
fn a_malformed_blob_ends_the_check() {
    let mut engine = engine_with(&[epoch(1, 5), epoch(2, 4)]);
    assert!(engine.trie.update_epoch_accumulator_encoded(&2, &vec![0u8; 100]));
    match check_hashes(&mut engine) {
        Err(e) => assert_eq!(e, DecodeError::InvalidByteLength { len: 36, expected: 64 }),
        Ok(check) => panic!("{:?}", check),
    }

    let mut engine = engine_with(&[epoch(1, 5)]);
    assert!(engine.trie.update_master_accumulator_encoded(&vec![0u8; 5]));
    match check_hashes(&mut engine) {
        Err(e) => assert_eq!(e, DecodeError::InvalidByteLength { len: 5, expected: 32 }),
        Ok(check) => panic!("{:?}", check),
    }
}

#[test]
fn the_check_changes_no_content() {
    let mut engine = engine_with(&[epoch(1, 5), epoch(2, 4)]);
    let master = engine.trie.get_master_accumulator_encoded();
    let first = engine.trie.get_epoch_accumulator_encoded(&1);
    let second = engine.trie.get_epoch_accumulator_encoded(&2);

    check_hashes(&mut engine).unwrap();

    assert_eq!(engine.trie.get_master_accumulator_encoded(), master);
    assert_eq!(engine.trie.get_epoch_accumulator_encoded(&1), first);
    assert_eq!(engine.trie.get_epoch_accumulator_encoded(&2), second);
}
