use faultycoin::data::{
    Block, BlockAttributes, BlockHash, Timestamp, Transaction, VerifiedTransaction, WalletId,
};
use faultycoin::miner::{miner_routine, Miner, MinerAnswer, MinerEnd, MinerPhase};
use faultycoin::mining_service::{MiningInfo, MiningRound, MiningService, MiningServiceConfig};

fn hash(first: u8, last: u8) -> BlockHash {
    let mut bytes = [0u8; 64];
    bytes[0] = first;
    bytes[63] = last;
    BlockHash { bytes }
}

fn tx(amount: u64) -> VerifiedTransaction {
    VerifiedTransaction {
        transaction: Transaction {
            amount,
            fee: 1,
            comment: "".to_string(),
            sender: WalletId::of_genesis(),
            receiver: WalletId::Key("QUJD".to_string()),
            signature: "c2ln".to_string(),
        },
    }
}

fn info() -> MiningInfo {
    MiningInfo {
        block_index: 5,
        prev_hash: hash(1, 2),
        max_hash: hash(9, 9),
        transactions: vec![tx(1), tx(2)],
    }
}

fn service(thread_count: usize, max_tx_per_block: usize) -> MiningService {
    let public_key = WalletId::Key("TUlORQ==".to_string());
    MiningService::new(MiningServiceConfig { thread_count, max_tx_per_block, public_key }, 100)
}

fn expected(timestamp: Timestamp, transactions: Vec<Transaction>) -> Block {
    Block {
        attrs: BlockAttributes {
            index: 5,
            timestamp,
            reward: 100,
            nonce: 0,
            issuer: WalletId::Key("TUlORQ==".to_string()),
            max_hash: hash(9, 9),
            prev_hash: hash(1, 2),
        },
        transactions,
    }
}

#[test]
fn default_configuration_mines_nothing() {
    let config = MiningServiceConfig::default();
    assert_eq!(config.thread_count, 0);
    assert_eq!(config.max_tx_per_block, 0);
    assert_eq!(config.public_key, WalletId::Genesis);
    let service = MiningService::new(config, 100);
    assert_eq!(service.start_miners(&info()), vec![]);
}

#[test]
fn block_is_made_from_the_mining_info() {
    let at = Timestamp { secs: 1_600_000_000, nanos: 17 };
    assert_eq!(
        service(1, 2).make_block_at(&info(), at),
        expected(at, vec![tx(1).transaction, tx(2).transaction])
    );
}

#[test]
fn block_holds_no_more_transactions_than_configured() {
    let at = Timestamp { secs: 1, nanos: 0 };
    assert_eq!(service(1, 1).make_block_at(&info(), at), expected(at, vec![tx(1).transaction]));
    assert_eq!(service(1, 0).make_block_at(&info(), at), expected(at, vec![]));
    assert_eq!(
        service(1, 9).make_block_at(&info(), at),
        expected(at, vec![tx(1).transaction, tx(2).transaction])
    );
}

#[test]
fn block_carries_the_present_time() {
    let before = chrono::Utc::now();
    let block = service(1, 0).make_block_to_mine(&info());
    let after = chrono::Utc::now();
    let at = block.attrs.timestamp;
    assert!(at.nanos < 1_000_000_000);
    assert!((before.timestamp(), before.timestamp_subsec_nanos()) <= (at.secs, at.nanos));
    assert!((at.secs, at.nanos) <= (after.timestamp(), after.timestamp_subsec_nanos()));
    assert_eq!(block, expected(at, vec![]));
}

#[test]
fn every_miner_gets_the_block() {
    let blocks = service(3, 2).start_miners(&info());
    assert_eq!(blocks.len(), 3);
    for block in blocks {
        let at = block.attrs.timestamp;
        assert_eq!(block, expected(at, vec![tx(1).transaction, tx(2).transaction]));
    }
}

#[test]
fn hashes_are_ordered_by_their_first_difference() {
    assert!(hash(9, 9).at_most(&hash(9, 9)));
    assert!(hash(9, 8).at_most(&hash(9, 9)));
    assert!(!hash(9, 10).at_most(&hash(9, 9)));
    assert!(hash(8, 255).at_most(&hash(9, 0)));
    assert!(!hash(10, 0).at_most(&hash(9, 255)));
}

#[test]
fn new_mining_info_ends_the_round_and_opens_another() {
    let service = service(2, 1);
    let mut first = MiningRound::new();
    let (mut second, blocks) = service.next_round(&mut first, &info());
    assert!(!first.work_needed());
    assert!(!first.claim());
    assert!(second.work_needed());
    assert_eq!(blocks.len(), 2);
    for block in blocks {
        let at = block.attrs.timestamp;
        assert!(at.nanos < 1_000_000_000);
        assert_eq!(block, expected(at, vec![tx(1).transaction]));
    }
    let (third, _) = service.next_round(&mut second, &info());
    assert!(!second.claim());
    assert!(third.work_needed());
}

fn start() -> Block {
    service(1, 0).make_block_at(&info(), Timestamp { secs: 1, nanos: 0 })
}

fn start_with(nonce: u64) -> Block {
    let mut block = start();
    block.attrs.nonce = nonce;
    block
}

#[test]
fn miner_tries_the_next_nonce() {
    let mut miner = Miner::new(start());
    for _ in 0..2 {
        assert_eq!(miner.phase(), MinerPhase::Ask);
        miner.answer(MinerAnswer::Work(true));
        assert_eq!(miner.phase(), MinerPhase::Hash);
        miner.answer(MinerAnswer::Hash(hash(9, 10)));
    }
    assert_eq!(*miner.block(), start_with(2));
    miner.answer(MinerAnswer::Work(true));
    miner.answer(MinerAnswer::Hash(hash(9, 9)));
    assert_eq!(miner.phase(), MinerPhase::Claim);
    miner.answer(MinerAnswer::Claim(true));
    assert_eq!(miner.phase(), MinerPhase::Found);
    assert_eq!(*miner.block(), start_with(2));
}

#[test]
fn miner_stops_without_work_or_claim() {
    let mut miner = Miner::new(start());
    miner.answer(MinerAnswer::Work(false));
    assert_eq!(miner.phase(), MinerPhase::Stopped);
    let mut miner = Miner::new(start());
    miner.answer(MinerAnswer::Work(true));
    miner.answer(MinerAnswer::Hash(hash(0, 0)));
    miner.answer(MinerAnswer::Claim(false));
    assert_eq!(miner.phase(), MinerPhase::Stopped);
    let mut miner = Miner::new(start_with(u64::MAX));
    miner.answer(MinerAnswer::Work(true));
    miner.answer(MinerAnswer::Hash(hash(255, 0)));
    assert_eq!(miner.phase(), MinerPhase::Exhausted);
}

#[test]
fn miner_ignores_what_it_did_not_ask_for() {
    let mut miner = Miner::new(start());
    miner.answer(MinerAnswer::Claim(true));
    miner.answer(MinerAnswer::Hash(hash(0, 0)));
    assert_eq!(miner.phase(), MinerPhase::Ask);
    assert_eq!(*miner.block(), start());
}

/// Two miners that both hold a block that meets its target when they claim the round.
#[test]
fn one_block_per_round() {
    let mut round = MiningRound::new();
    let mut miners = vec![Miner::new(start()), Miner::new(start_with(7))];
    for miner in &mut miners {
        miner.answer(MinerAnswer::Work(round.work_needed()));
        miner.answer(MinerAnswer::Hash(hash(0, 0)));
    }
    for miner in &mut miners {
        miner.answer(MinerAnswer::Claim(round.claim()));
    }
    assert_eq!(miners[0].phase(), MinerPhase::Found);
    assert_eq!(miners[1].phase(), MinerPhase::Stopped);
    assert!(!round.work_needed());
    assert!(!round.claim());
    round.cancel();
    assert!(!round.claim());
}

#[test]
fn cancelled_round_grants_no_claim() {
    let mut round = MiningRound::new();
    round.cancel();
    assert!(!round.work_needed());
    assert!(!round.claim());
}

fn hash_of(block: &Block) -> BlockHash {
    hash(40 - (block.attrs.nonce % 40) as u8, 0)
}

#[test]
fn mining_finds_the_first_nonce() {
    let round = std::cell::RefCell::new(MiningRound::new());
    let asked = std::cell::RefCell::new(Vec::new());
    let end = miner_routine(
        start_with(3),
        hash_of,
        |nonce| {
            asked.borrow_mut().push(nonce);
            round.borrow().work_needed()
        },
        |block: &Block| {
            assert_eq!(*block, start_with(31));
            round.borrow_mut().claim()
        },
    );
    assert_eq!(end, MinerEnd::Found(start_with(31)));
    assert_eq!(asked.into_inner(), (3..=31).collect::<Vec<u64>>());
    assert!(!round.borrow().work_needed());
}

#[test]
fn hash_equal_to_the_target_counts() {
    let end = miner_routine(start(), |_: &Block| hash(9, 9), |_| true, |_: &Block| true);
    assert_eq!(end, MinerEnd::Found(start()));
}

#[test]
fn mining_stops_when_no_work_is_needed() {
    let hashed = std::cell::Cell::new(0);
    let end = miner_routine(
        start(),
        |block: &Block| {
            hashed.set(hashed.get() + 1);
            hash_of(block)
        },
        |nonce| nonce < 5,
        |_: &Block| panic!("claimed without a block"),
    );
    assert_eq!(end, MinerEnd::Stopped);
    assert_eq!(hashed.get(), 5);
}

#[test]
fn block_of_a_slower_miner_is_not_handed_in() {
    assert_eq!(miner_routine(start(), hash_of, |_| true, |_: &Block| false), MinerEnd::Stopped);
}

#[test]
fn mining_ends_with_the_last_nonce() {
    let tried = std::cell::Cell::new(0);
    let end = miner_routine(
        start_with(u64::MAX - 3),
        |_: &Block| {
            tried.set(tried.get() + 1);
            hash(255, 255)
        },
        |_| true,
        |_: &Block| true,
    );
    assert_eq!(end, MinerEnd::Exhausted);
    assert_eq!(tried.get(), 4);
}
