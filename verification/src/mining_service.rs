//! The block to mine, and the rounds in which it is mined.
use vstd::prelude::*;

use crate::data::{
    Block, BlockAttributes, BlockHash, BlockView, Timestamp, Transaction, VerifiedTransaction,
    WalletId,
};

verus! {

/// What to mine on: the place of the next block, the target its hash has to meet, and the
/// transactions it may hold.
#[derive(Debug, PartialEq, Eq)]
pub struct MiningInfo {
    pub block_index: u64,
    pub prev_hash: BlockHash,
    pub max_hash: BlockHash,
    pub transactions: Vec<VerifiedTransaction>,
}

pub struct MiningInfoView {
    pub block_index: u64,
    pub prev_hash: BlockHash,
    pub max_hash: BlockHash,
    pub transactions: Seq<VerifiedTransaction>,
}

impl View for MiningInfo {
    type V = MiningInfoView;

    open spec fn view(&self) -> MiningInfoView {
        MiningInfoView {
            block_index: self.block_index,
            prev_hash: self.prev_hash,
            max_hash: self.max_hash,
            transactions: self.transactions@,
        }
    }
}

impl Clone for MiningInfo {
    fn clone(&self) -> (r: Self)
        ensures
            r@ == self@,
            r.block_index == self.block_index,
            r.prev_hash == self.prev_hash,
            r.max_hash == self.max_hash,
            r.transactions@ == self.transactions@,
    {
        let r = MiningInfo {
            block_index: self.block_index,
            prev_hash: self.prev_hash,
            max_hash: self.max_hash,
            transactions: self.transactions.clone(),
        };
        assert(r.transactions@ =~= self.transactions@);
        r
    }
}

#[derive(Debug, PartialEq, Eq)]
pub struct MiningServiceConfig {
    /// How many miners search at a time.
    pub thread_count: usize,
    /// How many transactions a block holds at most.
    pub max_tx_per_block: usize,
    /// Who is paid for a block.
    pub public_key: WalletId,
}

impl Default for MiningServiceConfig {
    fn default() -> (r: Self)
        ensures
            r.thread_count == 0,
            r.max_tx_per_block == 0,
            r.public_key == WalletId::Genesis,
    {
        MiningServiceConfig {
            thread_count: 0,
            max_tx_per_block: 0,
            public_key: WalletId::of_genesis(),
        }
    }
}

/// The first `limit` transactions, or all if there are no more than that, without the mark
/// that they were verified.
pub open spec fn block_transactions(
    transactions: Seq<VerifiedTransaction>,
    limit: nat,
) -> Seq<Transaction> {
    let count = if transactions.len() <= limit {
        transactions.len()
    } else {
        limit
    };
    Seq::new(count, |i: int| transactions[i].transaction)
}

/// Calls `chrono::Utc::now`, the present moment by the system clock, as the seconds since the
/// Unix epoch and the nanoseconds past the second. Which moment it is rests on the clock; the
/// nanoseconds stay below a whole second. The call panics on a clock that is set before the
/// epoch, or further from it than dates reach.
#[verifier::external_body]
fn utc_now() -> (r: Timestamp)
    ensures
        r.nanos < 1_000_000_000,
{
    let now = chrono::Utc::now();
    Timestamp { secs: now.timestamp(), nanos: now.timestamp_subsec_nanos() }
}

/// `moment` is one that a reading of the system clock gives, by [`utc_now`].
pub closed spec fn is_clock_reading(moment: Timestamp) -> bool {
    call_ensures(utc_now, (), moment)
}

/// What is held to be a reading of the clock is what [`utc_now`] returned and nothing else.
proof fn law_only_the_clock_gives_readings(moment: Timestamp)
    ensures
        is_clock_reading(moment) <==> call_ensures(utc_now, (), moment),
        is_clock_reading(moment) ==> moment.nanos < 1_000_000_000,
{
}

/// Reads `clock` once.
fn read<F: Fn() -> Timestamp>(clock: F) -> (moment: Timestamp)
    requires
        call_requires(clock, ()),
    ensures
        call_ensures(clock, (), moment),
{
    clock()
}

pub struct MiningService {
    config: MiningServiceConfig,
    max_reward: u64,
}

impl MiningService {
    pub closed spec fn config(&self) -> MiningServiceConfig {
        self.config
    }

    /// What the issuer of a block is paid.
    pub closed spec fn max_reward(&self) -> u64 {
        self.max_reward
    }

    /// The block to mine on `info`, made at `timestamp`.
    pub open spec fn block_on(&self, info: MiningInfoView, timestamp: Timestamp) -> BlockView {
        BlockView {
            attrs: BlockAttributes {
                index: info.block_index,
                timestamp,
                reward: self.max_reward(),
                nonce: 0,
                issuer: self.config().public_key,
                max_hash: info.max_hash,
                prev_hash: info.prev_hash,
            },
            transactions: block_transactions(
                info.transactions,
                self.config().max_tx_per_block as nat,
            ),
        }
    }

    /// A service that mines blocks with the reward `max_reward`.
    pub fn new(config: MiningServiceConfig, max_reward: u64) -> (r: Self)
        ensures
            r.config() == config,
            r.max_reward() == max_reward,
    {
        MiningService { config, max_reward }
    }

    /// `blocks` are those that the miners of a round on `info` start from: one for each miner,
    /// each made at a moment of its own.
    pub open spec fn are_blocks_on(&self, blocks: Seq<Block>, info: MiningInfoView) -> bool {
        &&& blocks.len() == self.config().thread_count
        &&& forall|i: int|
            0 <= i < blocks.len() ==> {
                &&& (#[trigger] blocks[i])@ == self.block_on(info, blocks[i].attrs.timestamp)
                &&& blocks[i].attrs.timestamp.nanos < 1_000_000_000
                &&& is_clock_reading(blocks[i].attrs.timestamp)
            }
    }

    /// Ends the round `old_round` and opens one on `mining_info`, with the blocks that its miners
    /// start from. Panics if the system clock is set before the Unix epoch.
    pub fn next_round(&self, old_round: &mut MiningRound, mining_info: &MiningInfo) -> (r: (
        MiningRound,
        Vec<Block>,
    ))
        ensures
            !final(old_round).is_open(),
            r.0.is_open(),
            self.are_blocks_on(r.1@, mining_info@),
            r.1@.len() == self.config().thread_count,
            forall|i: int|
                0 <= i < r.1@.len() ==> {
                    let block = #[trigger] r.1@[i];
                    &&& block.attrs.index == mining_info.block_index
                    &&& block.attrs.prev_hash == mining_info.prev_hash
                    &&& block.attrs.max_hash == mining_info.max_hash
                    &&& block.attrs.reward == self.max_reward()
                    &&& block.attrs.issuer == self.config().public_key
                    &&& block.attrs.nonce == 0
                    &&& is_clock_reading(block.attrs.timestamp)
                    &&& block.transactions@.len() == if mining_info.transactions@.len()
                        < self.config().max_tx_per_block {
                        mining_info.transactions@.len()
                    } else {
                        self.config().max_tx_per_block as nat
                    }
                    &&& forall|k: int|
                        0 <= k < block.transactions@.len() ==> #[trigger] block.transactions@[k]
                            == mining_info.transactions@[k].transaction
                },
    {
        old_round.cancel();
        (MiningRound::new(), self.start_miners(mining_info))
    }

    /// The blocks that the miners of a round start from, one for each miner. Panics if the
    /// system clock is set before the Unix epoch.
    pub fn start_miners(&self, mining_info: &MiningInfo) -> (blocks: Vec<Block>)
        ensures
            self.are_blocks_on(blocks@, mining_info@),
            blocks@.len() == self.config().thread_count,
            forall|i: int|
                0 <= i < blocks@.len() ==> {
                    let block = #[trigger] blocks@[i];
                    &&& block.attrs.index == mining_info.block_index
                    &&& block.attrs.prev_hash == mining_info.prev_hash
                    &&& block.attrs.max_hash == mining_info.max_hash
                    &&& block.attrs.reward == self.max_reward()
                    &&& block.attrs.issuer == self.config().public_key
                    &&& block.attrs.nonce == 0
                    &&& is_clock_reading(block.attrs.timestamp)
                    &&& block.transactions@.len() == if mining_info.transactions@.len()
                        < self.config().max_tx_per_block {
                        mining_info.transactions@.len()
                    } else {
                        self.config().max_tx_per_block as nat
                    }
                    &&& forall|k: int|
                        0 <= k < block.transactions@.len() ==> #[trigger] block.transactions@[k]
                            == mining_info.transactions@[k].transaction
                },
    {
        let mut blocks: Vec<Block> = Vec::new();
        let mut i: usize = 0;
        while i < self.config.thread_count
            invariant
                i <= self.config.thread_count,
                blocks@.len() == i,
                forall|j: int|
                    0 <= j < i ==> {
                        &&& (#[trigger] blocks@[j])@ == self.block_on(
                            mining_info@,
                            blocks@[j].attrs.timestamp,
                        )
                        &&& blocks@[j].attrs.timestamp.nanos < 1_000_000_000
                        &&& is_clock_reading(blocks@[j].attrs.timestamp)
                    },
            decreases self.config.thread_count - i,
        {
            blocks.push(self.make_block_to_mine(mining_info));
            i = i + 1;
        }
        blocks
    }

    /// The block to mine on `mining_info`, made now. Panics if the system clock is set before
    /// the Unix epoch.
    pub fn make_block_to_mine(&self, mining_info: &MiningInfo) -> (block: Block)
        ensures
            block@ == self.block_on(mining_info@, block.attrs.timestamp),
            block.attrs.timestamp.nanos < 1_000_000_000,
            block.attrs.index == mining_info.block_index,
            block.attrs.prev_hash == mining_info.prev_hash,
            block.attrs.max_hash == mining_info.max_hash,
            block.attrs.reward == self.max_reward(),
            block.attrs.issuer == self.config().public_key,
            block.attrs.nonce == 0,
            is_clock_reading(block.attrs.timestamp),
            block.transactions@.len() == if mining_info.transactions@.len()
                < self.config().max_tx_per_block {
                mining_info.transactions@.len()
            } else {
                self.config().max_tx_per_block as nat
            },
            forall|k: int|
                0 <= k < block.transactions@.len() ==> #[trigger] block.transactions@[k]
                    == mining_info.transactions@[k].transaction,
    {
        let now = read(utc_now);
        proof {
            law_only_the_clock_gives_readings(now);
        }
        self.make_block_at(mining_info, now)
    }

    /// The block to mine on `mining_info`, made at `timestamp`.
    pub fn make_block_at(&self, mining_info: &MiningInfo, timestamp: Timestamp) -> (block: Block)
        ensures
            block@ == self.block_on(mining_info@, timestamp),
            block.attrs.index == mining_info.block_index,
            block.attrs.prev_hash == mining_info.prev_hash,
            block.attrs.max_hash == mining_info.max_hash,
            block.attrs.reward == self.max_reward(),
            block.attrs.issuer == self.config().public_key,
            block.attrs.nonce == 0,
            block.attrs.timestamp == timestamp,
            block.transactions@.len() == if mining_info.transactions@.len()
                < self.config().max_tx_per_block {
                mining_info.transactions@.len()
            } else {
                self.config().max_tx_per_block as nat
            },
            forall|k: int|
                0 <= k < block.transactions@.len() ==> #[trigger] block.transactions@[k]
                    == mining_info.transactions@[k].transaction,
    {
        let ghost offered = mining_info.transactions@;
        let limit: usize = self.config.max_tx_per_block;
        let mut transactions: Vec<Transaction> = Vec::new();
        let mut i: usize = 0;
        while i < mining_info.transactions.len() && i < limit
            invariant
                offered == mining_info.transactions@,
                i <= offered.len(),
                i <= limit,
                transactions@ =~= Seq::new(i as nat, |j: int| offered[j].transaction),
            decreases limit - i,
        {
            transactions.push(mining_info.transactions[i].transaction.clone());
            i = i + 1;
        }
        Block {
            attrs: BlockAttributes {
                index: mining_info.block_index,
                timestamp,
                reward: self.max_reward,
                nonce: 0,
                issuer: self.config.public_key.clone(),
                max_hash: mining_info.max_hash,
                prev_hash: mining_info.prev_hash,
            },
            transactions,
        }
    }
}

/// The block to mine stands at the place that the mining info names, with the target set for it
/// there; it pays the configured key the reward, starts from the first nonce, bears the moment
/// at which it was made, and holds the first of the transactions offered, as many as there are
/// but no more than configured.
pub proof fn law_block_is_made_for_its_mining_info(
    service: MiningService,
    info: MiningInfoView,
    timestamp: Timestamp,
)
    ensures
        ({
            let block = service.block_on(info, timestamp);
            let limit = service.config().max_tx_per_block;
            &&& block.attrs.index == info.block_index
            &&& block.attrs.prev_hash == info.prev_hash
            &&& block.attrs.max_hash == info.max_hash
            &&& block.attrs.reward == service.max_reward()
            &&& block.attrs.issuer == service.config().public_key
            &&& block.attrs.nonce == 0
            &&& block.attrs.timestamp == timestamp
            &&& block.transactions.len() <= limit && block.transactions.len()
                <= info.transactions.len()
            &&& block.transactions.len() == limit || block.transactions.len()
                == info.transactions.len()
            &&& forall|i: int|
                0 <= i < block.transactions.len() ==> #[trigger] block.transactions[i]
                    == info.transactions[i].transaction
        }),
{
}

/// Each miner of a round starts from a block that bears a moment which the clock gave; and since
/// a service holds nothing but its settings, and a round nothing but whether it is open, neither
/// can have kept such a moment from before.
pub proof fn law_miners_start_from_the_present(
    service: MiningService,
    same: MiningService,
    round: MiningRound,
    alike: MiningRound,
    blocks: Seq<Block>,
    info: MiningInfoView,
)
    requires
        service.are_blocks_on(blocks, info),
    ensures
        blocks.len() == service.config().thread_count,
        forall|i: int|
            0 <= i < blocks.len() ==> is_clock_reading((#[trigger] blocks[i]).attrs.timestamp),
        service.config() == same.config() && service.max_reward() == same.max_reward() ==> service
            == same,
        round.is_open() == alike.is_open() ==> round == alike,
{
}

/// The view of a mining info shows all of it.
pub proof fn law_mining_info_view_shows_everything(info: MiningInfo)
    ensures
        info@.block_index == info.block_index,
        info@.prev_hash == info.prev_hash,
        info@.max_hash == info.max_hash,
        info@.transactions == info.transactions@,
{
}

/// A call on a round of mining.
pub enum RoundCall {
    /// [`MiningRound::work_needed`].
    Ask,
    /// [`MiningRound::cancel`].
    Cancel,
    /// [`MiningRound::claim`].
    Claim,
}

/// Whether a round is open after `call`, if `open` tells whether it was before: to ask leaves
/// it as it is, and either of the other calls ends it.
pub open spec fn round_after(open: bool, call: RoundCall) -> bool {
    open && call is Ask
}

/// Whether `call` is a claim that is granted: it has to find the round open.
pub open spec fn is_granted(open: bool, call: RoundCall) -> bool {
    open && call is Claim
}

/// One round of mining: all miners of a round share it, and the first to find a block ends it.
pub struct MiningRound {
    work_needed: bool,
}

impl MiningRound {
    pub closed spec fn is_open(&self) -> bool {
        self.work_needed
    }

    /// A round in which no block has been found.
    pub fn new() -> (r: Self)
        ensures
            r.is_open(),
    {
        MiningRound { work_needed: true }
    }

    /// Whether the miners of the round have to go on.
    pub fn work_needed(&self) -> (r: bool)
        ensures
            r == self.is_open(),
    {
        self.work_needed
    }

    /// Ends the round, as when there is something else to mine.
    pub fn cancel(&mut self)
        ensures
            !final(self).is_open(),
            final(self).is_open() == round_after(old(self).is_open(), RoundCall::Cancel),
    {
        self.work_needed = false;
    }

    /// Ends the round and tells whether this call ended it.
    pub fn claim(&mut self) -> (r: bool)
        ensures
            r == old(self).is_open(),
            !final(self).is_open(),
            r == is_granted(old(self).is_open(), RoundCall::Claim),
            final(self).is_open() == round_after(old(self).is_open(), RoundCall::Claim),
    {
        let needed = self.work_needed;
        self.work_needed = false;
        needed
    }
}

/// Whether a new round is open after `calls`.
pub open spec fn round_after_all(calls: Seq<RoundCall>) -> bool
    decreases calls.len(),
{
    if calls.len() == 0 {
        true
    } else {
        round_after(round_after_all(calls.drop_last()), calls.last())
    }
}

/// How many claims among `calls` on a new round are granted.
pub open spec fn granted_claims(calls: Seq<RoundCall>) -> nat
    decreases calls.len(),
{
    if calls.len() == 0 {
        0
    } else {
        granted_claims(calls.drop_last()) + if is_granted(
            round_after_all(calls.drop_last()),
            calls.last(),
        ) {
            1nat
        } else {
            0nat
        }
    }
}

/// None of `calls` does more than ask.
pub open spec fn are_asks(calls: Seq<RoundCall>) -> bool {
    forall|i: int| 0 <= i < calls.len() ==> (#[trigger] calls[i]) is Ask
}

/// Call `i` is a claim, and the calls before it only ask.
pub open spec fn is_first_claim(calls: Seq<RoundCall>, i: int) -> bool {
    0 <= i < calls.len() && calls[i] is Claim && are_asks(calls.take(i))
}

/// At most one claim on a round is granted. It is the first call that does more than ask, and
/// from that call on, whatever it is, the round has ended.
pub proof fn law_one_claim_is_granted(calls: Seq<RoundCall>)
    ensures
        round_after_all(calls) == are_asks(calls),
        granted_claims(calls) <= 1,
        granted_claims(calls) == 1 <==> exists|i: int| is_first_claim(calls, i),
    decreases calls.len(),
{
    if calls.len() > 0 {
        let before = calls.drop_last();
        let last = calls.len() - 1;
        law_one_claim_is_granted(before);
        assert(calls.take(last) =~= before);
        assert(forall|i: int| 0 <= i < last ==> #[trigger] before[i] == calls[i]);
        assert(are_asks(calls) == (are_asks(before) && calls.last() is Ask)) by {
            if are_asks(before) && calls.last() is Ask {
                assert forall|i: int| 0 <= i < calls.len() implies (#[trigger] calls[i]) is Ask by {
                    if i < last {
                        assert(before[i] is Ask);
                    }
                }
            }
            if are_asks(calls) {
                assert forall|i: int| 0 <= i < last implies (#[trigger] before[i]) is Ask by {
                    assert(calls[i] is Ask);
                }
                assert(calls[last] is Ask);
            }
        }
        assert forall|i: int| 0 <= i < last implies #[trigger] is_first_claim(calls, i)
            == is_first_claim(before, i) by {
            assert(calls.take(i) =~= before.take(i));
        }
        if granted_claims(calls) == 1 {
            if granted_claims(before) == 1 {
                let i = choose|i: int| is_first_claim(before, i);
                assert(is_first_claim(calls, i));
            } else {
                assert(is_first_claim(calls, last));
            }
        }
        if exists|i: int| is_first_claim(calls, i) {
            let i = choose|i: int| is_first_claim(calls, i);
            if i < last {
                assert(is_first_claim(before, i));
            }
        }
        if exists|i: int| is_first_claim(before, i) {
            let i = choose|i: int| is_first_claim(before, i);
            assert(before[i] is Claim);
        }
    }
}

} // verus!
