use accumulator::accumulator_storage::AccumulatorFileStorage;
use accumulator::accumulator_trie::{AccumulatorTrie, AccumulatorTrieTrait};
use accumulator::block::{Block, BlockError};
use accumulator::check_hash::check_hashes;
use accumulator::codec::DecodeError;
use accumulator::epoch_sedes::EpochSede;
use accumulator::primitives::{H256, U256};
use accumulator::trie::{Trie, TrieTrait};
use accumulator::updater::{
    get_starting_block_number, pause_after_fetch, BlockReport, StartupError, UpdateError,
    UpdateLoop,
};

fn empty_engine() -> AccumulatorTrie<Trie> {
    let storage = AccumulatorFileStorage::new(String::from("master"), String::from("epoch"));
    AccumulatorTrie::new(Trie::new(storage))
}

fn start(engine: AccumulatorTrie<Trie>, configured_start: u32) -> UpdateLoop<Trie> {
    match UpdateLoop::start(engine, configured_start) {
        Ok(state) => state,
        Err(e) => panic!("the loop did not start: {:?}", e),
    }
}

fn start_error(engine: AccumulatorTrie<Trie>, configured_start: u32) -> StartupError {
    match UpdateLoop::start(engine, configured_start) {
        Ok(_) => panic!("the loop started"),
        Err(e) => e,
    }
}

fn hash_text(byte: u8) -> String {
    let mut text = String::from("0x");
    for _ in 0..32 {
        text.push_str(&format!("{:02x}", byte));
    }
    text
}

fn block(block_number: u32, byte: u8, total_difficulty: u64) -> Block {
    Block {
        block_number,
        block_hash: hash_text(byte),
        total_difficulty: total_difficulty.to_string(),
    }
}

fn rec(byte: u8, total_difficulty: u64) -> EpochSede {
    EpochSede::new(U256::from_u64(total_difficulty), H256([byte; 32]))
}

fn agree(state: &UpdateLoop<Trie>) {
    assert_eq!(state.master_accumulator.len(), state.epoch_number);
    assert_eq!(
        state.master_accumulator[state.epoch_number - 1],
        state
            .accumulator_trie
            .get_tree_root_hash(&state.current_epoch_accumulator)
    );
    assert!(state.current_epoch_accumulator.len() <= 2048);
}

#[test]
fn test_for_with_test_data() {
    let mut blocks: Vec<Block> = vec![];
    blocks.push(Block {
        block_number: 1234,
        block_hash: "0x12345".to_string(),
        total_difficulty: "1234553".to_string(),
    });
    blocks.push(Block {
        block_number: 12355,
        block_hash: "0x1232145".to_string(),
        total_difficulty: "1342334553".to_string(),
    });

    let blocks_options: Option<Vec<Block>> = Some(blocks);
    let mut i = 0;

    if let None = blocks_options {
        assert!(false);
    }

    for block in blocks_options.unwrap().iter() {
        println!("{:?}", block);
        i = i + 1;
    }

    assert_eq!(2, i);
}

#[test]
fn resume_point_counts_the_blocks_in_the_accumulator() {
    assert_eq!(get_starting_block_number(&1, &3, &2048, &10), 1 + (3 - 1) * 2048 + 10);
    assert_eq!(get_starting_block_number(&1, &3, &2048, &10), 4107);
    assert_eq!(get_starting_block_number(&1, &1, &2048, &0), 1);
    assert_eq!(get_starting_block_number(&0, &1, &2048, &2048), 2048);
    assert_eq!(get_starting_block_number(&500, &2, &2048, &0), 2548);
}

#[test]
fn resume_point_without_an_epoch_is_the_configured_start() {
    assert_eq!(get_starting_block_number(&77, &0, &2048, &10), 77);
    assert_eq!(get_starting_block_number(&u32::MAX, &0, &2048, &2048), u32::MAX);
}

#[test]
fn a_fresh_store_starts_epoch_one() {
    let state = start(empty_engine(), 46);

    assert_eq!(state.epoch_number, 1);
    assert_eq!(state.master_accumulator, vec![]);
    assert_eq!(state.current_epoch_accumulator, vec![]);
    assert_eq!(state.starting_block_number, 46);
    assert_eq!(state.next_request(), (46, 500));
    let files = &state.accumulator_trie.trie.accumulator_storage.files;
    assert!(files.contains("master/master_accumulator.txt"));
    assert!(files.contains("epoch/epoch_accumulator_1.txt"));
}

#[test]
fn three_blocks_end_to_end() {
    let mut state = start(empty_engine(), 1);

    let blocks = vec![block(1, 0xaa, 100), block(2, 0xbb, 150), block(3, 0xcc, 90)];
    for (i, b) in blocks.iter().enumerate() {
        let report = state.process_block(b);
        assert_eq!(
            report,
            Ok(BlockReport {
                epoch_number: 1,
                new_epoch: false,
                store_epoch_result: true,
                store_master_result: true,
            })
        );
        assert_eq!(state.current_epoch_accumulator.len(), i + 1);
        assert_eq!(state.starting_block_number, b.block_number + 1);
        agree(&state);
    }

    let expected = vec![rec(0xaa, 100), rec(0xbb, 150), rec(0xcc, 90)];
    let mut engine = state.accumulator_trie;
    assert_eq!(
        engine.get_epoch_accumulator_by_epoch_number(&1),
        Ok(expected.clone())
    );
    let root = engine.get_tree_root_hash(&expected);
    assert_eq!(engine.get_master_accumulator(), Ok(vec![root]));

    let check = check_hashes(&mut engine).unwrap();
    assert!(check.is_all_hash_matched());
    assert_eq!(check.mismatch, None);
    assert_eq!(check.epoch_lengths, vec![3]);

    let resumed = start(engine, 1);
    assert_eq!(resumed.epoch_number, 1);
    assert_eq!(resumed.current_epoch_accumulator, expected);
    assert_eq!(resumed.master_accumulator, vec![root]);
    assert_eq!(resumed.starting_block_number, 4);
}

#[test]
fn a_flipped_bit_stops_the_start() {
    let mut state = start(empty_engine(), 1);
    for b in [block(1, 0xaa, 100), block(2, 0xbb, 150), block(3, 0xcc, 90)].iter() {
        state.process_block(b).unwrap();
    }
    let mut engine = state.accumulator_trie;

    let mut blob = engine.trie.get_epoch_accumulator_encoded(&1);
    assert_eq!(blob.len(), 3 * 64);
    blob[70] ^= 0x01;
    assert!(engine.trie.update_epoch_accumulator_encoded(&1, &blob));

    let check = check_hashes(&mut engine).unwrap();
    assert!(!check.is_all_hash_matched());
    assert_eq!(check.mismatch, Some(1));

    assert_eq!(start_error(engine, 1), StartupError::HashMismatch);
}

#[test]
fn every_single_flipped_bit_of_a_record_stops_the_start() {
    let mut state = start(empty_engine(), 1);
    state.process_block(&block(1, 0xaa, 100)).unwrap();
    let mut engine = state.accumulator_trie;
    let blob = engine.trie.get_epoch_accumulator_encoded(&1);

    for at in [0usize, 1, 31, 32, 33, 63] {
        for bit in 0..8 {
            let mut other = blob.clone();
            other[at] ^= 1 << bit;
            assert!(engine.trie.update_epoch_accumulator_encoded(&1, &other));
            match UpdateLoop::start(AccumulatorTrie::new(Trie::new(copy(&mut engine))), 1) {
                Err(StartupError::HashMismatch) => {}
                Err(e) => panic!("byte {} bit {}: {:?}", at, bit, e),
                Ok(_) => panic!("byte {} bit {}: the loop started", at, bit),
            }
        }
    }
}

fn copy(engine: &mut AccumulatorTrie<Trie>) -> AccumulatorFileStorage {
    let master = engine.trie.get_master_accumulator_encoded();
    let mut storage = AccumulatorFileStorage::new(String::from("master"), String::from("epoch"));
    storage.create_new_master_accumulator_file("master_accumulator.txt");
    assert!(storage.write_master_accumulator("master_accumulator.txt", &master));
    for n in 1..=(master.len() / 32) {
        let name = engine.trie.get_file_name_from_epoch_number(&n);
        let blob = engine.trie.get_epoch_accumulator_encoded(&n);
        storage.create_new_epoch_accumulator_file(&name);
        assert!(storage.write_epoch_accumulator(&name, &blob));
    }
    storage
}

#[test]
fn a_torn_master_write_stops_the_start() {
    let mut state = start(empty_engine(), 1);
    state.process_block(&block(1, 0xaa, 100)).unwrap();
    let mut engine = state.accumulator_trie;
    let master = engine.trie.get_master_accumulator_encoded();

    let mut state = start(engine, 1);
    state.process_block(&block(2, 0xbb, 150)).unwrap();
    let mut engine = state.accumulator_trie;
    assert!(engine.trie.update_master_accumulator_encoded(&master));

    assert_eq!(start_error(engine, 1), StartupError::HashMismatch);
}

#[test]
fn the_last_root_is_that_of_the_epoch_after_every_block() {
    let mut state = start(empty_engine(), 10);

    for i in 0..150u32 {
        let report = state
            .process_block(&block(10 + i, (i % 251) as u8, 1000 + i as u64))
            .unwrap();
        assert_eq!(report.epoch_number, 1);
        assert_eq!(report.new_epoch, false);
        assert!(report.store_epoch_result && report.store_master_result);
        agree(&state);
        assert_eq!(state.master_accumulator.len(), 1);
        assert_eq!(state.current_epoch_accumulator.len(), i as usize + 1);
        assert_eq!(state.starting_block_number, 11 + i);
    }
}

#[test]
fn the_block_after_a_full_epoch_starts_the_next() {
    let mut state = full_epoch_state();
    assert_eq!(state.epoch_number, 1);
    assert_eq!(state.master_accumulator.len(), 1);
    assert_eq!(state.current_epoch_accumulator.len(), 2048);
    agree(&state);
    let sealed_root = state.master_accumulator[0];
    let sealed = state.current_epoch_accumulator.clone();

    let report = state.process_block(&block(2058, 0x77, 5000)).unwrap();
    assert_eq!(
        report,
        BlockReport {
            epoch_number: 2,
            new_epoch: true,
            store_epoch_result: true,
            store_master_result: true,
        }
    );
    assert_eq!(state.epoch_number, 2);
    assert_eq!(state.current_epoch_accumulator, vec![rec(0x77, 5000)]);
    assert_eq!(state.master_accumulator.len(), 2);
    assert_eq!(state.master_accumulator[0], sealed_root);
    assert_eq!(state.starting_block_number, 2059);
    agree(&state);

    let report = state.process_block(&block(2059, 0x78, 5001)).unwrap();
    assert_eq!(report.epoch_number, 2);
    assert_eq!(report.new_epoch, false);
    assert_eq!(state.master_accumulator.len(), 2);
    assert_eq!(state.master_accumulator[0], sealed_root);
    agree(&state);

    let mut engine = state.accumulator_trie;
    assert_eq!(engine.get_epoch_accumulator_by_epoch_number(&1), Ok(sealed));
    assert_eq!(
        engine.get_epoch_accumulator_by_epoch_number(&2),
        Ok(vec![rec(0x77, 5000), rec(0x78, 5001)])
    );
    let check = check_hashes(&mut engine).unwrap();
    assert_eq!(check.mismatch, None);
    assert_eq!(check.epoch_lengths, vec![2048, 2]);

    let resumed = start(engine, 10);
    assert_eq!(resumed.epoch_number, 2);
    assert_eq!(resumed.starting_block_number, 10 + 2048 + 2);
    assert_eq!(resumed.current_epoch_accumulator.len(), 2);
}

#[test]
fn the_last_block_of_an_epoch_fills_it() {
    let mut engine = empty_engine();
    let nearly: Vec<EpochSede> = (0..2047u32).map(|i| rec((i % 251) as u8, i as u64)).collect();
    let root = engine.get_tree_root_hash(&nearly);
    engine.get_master_accumulator().unwrap();
    engine.get_epoch_accumulator_by_epoch_number(&1).unwrap();
    assert!(engine.store_epoch_accumulator_by_epoch_number(&1, &nearly));
    assert!(engine.store_master_accumulator(&vec![root]));
    let mut state = start(engine, 0);
    assert_eq!(state.starting_block_number, 2047);

    let report = state.process_block(&block(2047, 0x55, 9)).unwrap();
    assert_eq!(report.epoch_number, 1);
    assert_eq!(report.new_epoch, false);
    assert_eq!(state.epoch_number, 1);
    assert_eq!(state.current_epoch_accumulator.len(), 2048);
    assert_eq!(state.master_accumulator.len(), 1);
    assert_ne!(state.master_accumulator[0], root);
    agree(&state);
    assert!(!state
        .accumulator_trie
        .trie
        .accumulator_storage
        .files
        .contains("epoch/epoch_accumulator_2.txt"));
}

#[test]
fn a_block_without_a_summary_changes_nothing() {
    let mut state = start(empty_engine(), 1);
    state.process_block(&block(1, 0xaa, 100)).unwrap();
    let master = state.master_accumulator.clone();

    let mut bad = block(2, 0xbb, 150);
    bad.total_difficulty = String::from("15o");
    assert_eq!(
        state.process_block(&bad),
        Err(UpdateError::Block(BlockError::InvalidTotalDifficulty))
    );
    let mut bad = block(2, 0xbb, 150);
    bad.block_hash = String::from("0xzz");
    assert_eq!(
        state.process_block(&bad),
        Err(UpdateError::Block(BlockError::InvalidBlockHash))
    );
    let mut bad = block(2, 0xbb, 150);
    bad.block_hash = String::from("0x12345");
    assert_eq!(
        state.process_block(&bad),
        Err(UpdateError::Block(BlockError::BlockHashLength { len: 3 }))
    );

    assert_eq!(state.master_accumulator, master);
    assert_eq!(state.current_epoch_accumulator, vec![rec(0xaa, 100)]);
    assert_eq!(state.epoch_number, 1);
    assert_eq!(state.starting_block_number, 2);
    agree(&state);
}

#[test]
fn the_last_block_number_has_no_successor() {
    let mut state = start(empty_engine(), 1);
    assert_eq!(
        state.process_block(&block(u32::MAX, 0xaa, 100)),
        Err(UpdateError::BlockNumberOverflow)
    );
    assert_eq!(state.master_accumulator, vec![]);
    assert_eq!(state.starting_block_number, 1);

    assert!(state.process_block(&block(u32::MAX - 1, 0xaa, 100)).is_ok());
    assert_eq!(state.starting_block_number, u32::MAX);
}

fn full_epoch_state() -> UpdateLoop<Trie> {
    let mut engine = empty_engine();
    let full: Vec<EpochSede> = (0..2048u32).map(|i| rec((i % 251) as u8, i as u64)).collect();
    let root = engine.get_tree_root_hash(&full);
    engine.get_master_accumulator().unwrap();
    engine.get_epoch_accumulator_by_epoch_number(&1).unwrap();
    assert!(engine.store_epoch_accumulator_by_epoch_number(&1, &full));
    assert!(engine.store_master_accumulator(&vec![root]));
    let state = start(engine, 0);
    assert_eq!(state.starting_block_number, 2048);
    assert_eq!(state.current_epoch_accumulator.len(), 2048);
    state
}

#[test]
fn a_malformed_next_epoch_is_not_started() {
    let mut state = full_epoch_state();
    let trie = &mut state.accumulator_trie.trie;
    trie.get_epoch_accumulator_encoded(&2);
    assert!(trie.update_epoch_accumulator_encoded(&2, &vec![1, 2, 3]));

    assert_eq!(
        state.process_block(&block(2048, 0x01, 1)),
        Err(UpdateError::Decode(DecodeError::InvalidByteLength { len: 3, expected: 64 }))
    );
    assert_eq!(state.epoch_number, 1);
    assert_eq!(state.master_accumulator.len(), 1);
    assert_eq!(state.current_epoch_accumulator.len(), 2048);
    assert_eq!(state.starting_block_number, 2048);
    agree(&state);
}

#[test]
fn the_last_epoch_number_has_no_successor() {
    let full = full_epoch_state();
    let mut state = UpdateLoop {
        accumulator_trie: full.accumulator_trie,
        master_accumulator: full.master_accumulator,
        epoch_number: usize::MAX,
        current_epoch_accumulator: full.current_epoch_accumulator,
        starting_block_number: 5,
    };
    assert_eq!(
        state.process_block(&block(5, 0x01, 1)),
        Err(UpdateError::EpochNumberOverflow)
    );
    assert_eq!(state.epoch_number, usize::MAX);
    assert_eq!(state.current_epoch_accumulator.len(), 2048);
}

#[test]
fn a_refused_store_is_reported() {
    let state = start(empty_engine(), 1);
    let mut renamed = Trie::new(state.accumulator_trie.trie.accumulator_storage);
    renamed.file_name = String::from("another_name.txt");
    let mut state = UpdateLoop {
        accumulator_trie: AccumulatorTrie::new(renamed),
        master_accumulator: state.master_accumulator,
        epoch_number: state.epoch_number,
        current_epoch_accumulator: state.current_epoch_accumulator,
        starting_block_number: state.starting_block_number,
    };

    assert_eq!(
        state.process_block(&block(1, 0xaa, 100)),
        Ok(BlockReport {
            epoch_number: 1,
            new_epoch: false,
            store_epoch_result: true,
            store_master_result: false,
        })
    );
    assert_eq!(state.master_accumulator.len(), 1);
    agree(&state);
}

#[test]
fn a_malformed_master_stops_the_start() {
    let mut engine = empty_engine();
    engine.trie.get_master_accumulator_encoded();
    assert!(engine.trie.update_master_accumulator_encoded(&vec![0u8; 40]));
    assert_eq!(
        start_error(engine, 1),
        StartupError::Decode(DecodeError::InvalidByteLength { len: 8, expected: 32 })
    );
}

#[test]
fn a_malformed_epoch_stops_the_start() {
    let mut engine = empty_engine();
    engine.trie.get_epoch_accumulator_encoded(&1);
    assert!(engine.trie.update_epoch_accumulator_encoded(&1, &vec![0u8; 10]));
    assert_eq!(
        start_error(engine, 1),
        StartupError::Decode(DecodeError::InvalidByteLength { len: 10, expected: 64 })
    );

    let mut engine = empty_engine();
    engine.trie.get_master_accumulator_encoded();
    assert!(engine.trie.update_master_accumulator_encoded(&vec![0u8; 64]));
    engine.trie.get_epoch_accumulator_encoded(&2);
    assert!(engine.trie.update_epoch_accumulator_encoded(&2, &vec![0u8; 2049 * 64]));
    assert_eq!(
        start_error(engine, 1),
        StartupError::Decode(DecodeError::ListTooLong { items: 2049, max: 2048 })
    );
}

#[test]
fn a_root_without_its_epoch_stops_the_start() {
    let mut engine = empty_engine();
    engine.trie.get_master_accumulator_encoded();
    assert!(engine.trie.update_master_accumulator_encoded(&vec![0u8; 32]));
    assert_eq!(start_error(engine, 1), StartupError::HashMismatch);
}

#[test]
fn a_resume_point_past_the_last_block_number_stops_the_start() {
    let mut state = start(empty_engine(), 1);
    state.process_block(&block(1, 0xaa, 100)).unwrap();
    let mut engine = state.accumulator_trie;
    let storage = copy(&mut engine);

    assert_eq!(start(engine, u32::MAX - 1).starting_block_number, u32::MAX);
    assert_eq!(
        start_error(AccumulatorTrie::new(Trie::new(storage)), u32::MAX),
        StartupError::BlockNumberOverflow
    );
}

#[test]
fn the_loop_waits_longer_without_blocks() {
    assert_eq!(pause_after_fetch(false), 5000);
    assert_eq!(pause_after_fetch(true), 500);
}
