//! What holds of the services taken together, and of the miners that work at the same time.
use vstd::prelude::*;

use crate::data::{number, BlockAttributes, BlockHash, BlockView, Timestamp};
use crate::gossip_service::{ForestSnapshot, MAX_OFFERED_TRANSACTIONS};
use crate::miner::{
    is_mined, law_target_is_the_greatest_hash, miner_after, new_miner, with_nonce, MinerAnswer,
    MinerPhase, MinerView,
};
use crate::mining_service::{is_granted, round_after, MiningInfoView, MiningService, RoundCall};

verus! {

/// A block that is mined on what the gossip service offers stands on top of the head of the
/// forest, has to meet the target that the forest sets for it, starts from the first nonce,
/// pays the configured key, and holds the first pending transactions: as many as there are, as
/// are offered, or as a block may hold, whichever is least.
pub proof fn law_mined_block_extends_the_head(
    service: MiningService,
    forest: ForestSnapshot,
    timestamp: Timestamp,
)
    requires
        forest.can_grow(),
    ensures
        ({
            let block = service.block_on(forest.mining_info(forest.offered()), timestamp);
            let pending = forest.pending_transactions@;
            &&& block.attrs.index == forest.head.block.attrs.index + 1
            &&& block.attrs.prev_hash == forest.head.hash
            &&& block.attrs.max_hash == forest.next_max_hash
            &&& block.attrs.nonce == 0
            &&& block.attrs.reward == service.max_reward()
            &&& block.attrs.issuer == service.config().public_key
            &&& block.transactions.len() <= service.config().max_tx_per_block
            &&& block.transactions.len() <= MAX_OFFERED_TRANSACTIONS
            &&& block.transactions.len() == pending.len() || block.transactions.len()
                == MAX_OFFERED_TRANSACTIONS || block.transactions.len()
                == service.config().max_tx_per_block
            &&& forall|i: int|
                0 <= i < block.transactions.len() ==> i < pending.len() && (
                #[trigger] block.transactions[i]) == pending[i].transaction
        }),
{
}

/// The miners of one round, and whether the round is open.
pub struct RoundView {
    pub open: bool,
    pub miners: Seq<MinerView>,
}

/// One step of what happens in a round: miner `i` asks the round whether work is needed,
/// computes the hash of its block, or claims the round, as [`crate::miner::miner_routine`] does;
/// or the round is cancelled. The steps of different miners come in any order.
pub enum Turn {
    Ask(int),
    Hash(int),
    Claim(int),
    Cancel,
}

/// A new round with a miner on each of `blocks`.
pub open spec fn new_round(blocks: Seq<BlockView>) -> RoundView {
    RoundView { open: true, miners: blocks.map_values(|block: BlockView| new_miner(block)) }
}

/// Miner `i` is there and about to do what `phase` says.
pub open spec fn is_due(round: RoundView, i: int, phase: MinerPhase) -> bool {
    0 <= i < round.miners.len() && round.miners[i].phase == phase
}

/// The round after `turn`, if `hash` gives the hashes of blocks. A miner whose turn it is not
/// does nothing.
pub open spec fn after_turn(
    hash: spec_fn(BlockView) -> BlockHash,
    round: RoundView,
    turn: Turn,
) -> RoundView {
    match turn {
        Turn::Ask(i) => if is_due(round, i, MinerPhase::Ask) {
            RoundView {
                open: round_after(round.open, RoundCall::Ask),
                miners: round.miners.update(
                    i,
                    miner_after(round.miners[i], MinerAnswer::Work(round.open)),
                ),
            }
        } else {
            round
        },
        Turn::Hash(i) => if is_due(round, i, MinerPhase::Hash) {
            RoundView {
                miners: round.miners.update(
                    i,
                    miner_after(
                        round.miners[i],
                        MinerAnswer::Hash(hash(round.miners[i].block)),
                    ),
                ),
                ..round
            }
        } else {
            round
        },
        Turn::Claim(i) => if is_due(round, i, MinerPhase::Claim) {
            RoundView {
                open: round_after(round.open, RoundCall::Claim),
                miners: round.miners.update(
                    i,
                    miner_after(
                        round.miners[i],
                        MinerAnswer::Claim(is_granted(round.open, RoundCall::Claim)),
                    ),
                ),
            }
        } else {
            round
        },
        Turn::Cancel => RoundView { open: round_after(round.open, RoundCall::Cancel), ..round },
    }
}

/// A new round with a miner on each of `blocks`, after `turns`.
pub open spec fn after_turns(
    hash: spec_fn(BlockView) -> BlockHash,
    blocks: Seq<BlockView>,
    turns: Seq<Turn>,
) -> RoundView
    decreases turns.len(),
{
    if turns.len() == 0 {
        new_round(blocks)
    } else {
        after_turn(hash, after_turns(hash, blocks, turns.drop_last()), turns.last())
    }
}

/// However the steps of the miners of one round interleave: at most one of them ends with a
/// block to hand in; that block is the one it started from, with a nonce that meets the target:
/// read as a number, its hash is at most the greatest that it allows; none with a greater hash is
/// ever claimed; and once a miner has ended for another reason than that it ran out of nonces, the round is
/// over.
pub proof fn law_one_block_per_round(
    hash: spec_fn(BlockView) -> BlockHash,
    blocks: Seq<BlockView>,
    turns: Seq<Turn>,
)
    ensures
        ({
            let round = after_turns(hash, blocks, turns);
            &&& round.miners.len() == blocks.len()
            &&& forall|i: int, j: int|
                #![trigger round.miners[i], round.miners[j]]
                0 <= i < blocks.len() && 0 <= j < blocks.len() && round.miners[i].phase is Found
                    && round.miners[j].phase is Found ==> i == j
            &&& forall|i: int|
                0 <= i < blocks.len() ==> {
                    let miner = #[trigger] round.miners[i];
                    &&& miner.block == with_nonce(blocks[i], miner.block.attrs.nonce)
                    &&& miner.phase is Found || miner.phase is Claim ==> is_mined(
                        miner.block,
                        hash(miner.block),
                    )
                    &&& miner.phase is Found || miner.phase is Claim ==> number(
                        hash(miner.block).bytes@,
                    ) <= number(miner.block.attrs.max_hash.bytes@)
                    &&& miner.block.attrs == (BlockAttributes {
                        nonce: miner.block.attrs.nonce,
                        ..blocks[i].attrs
                    })
                    &&& miner.block.transactions == blocks[i].transactions
                    &&& miner.phase is Found || miner.phase is Stopped ==> !round.open
                }
        }),
    decreases turns.len(),
{
    if turns.len() > 0 {
        law_one_block_per_round(hash, blocks, turns.drop_last());
    }
    let round = after_turns(hash, blocks, turns);
    assert forall|i: int| 0 <= i < round.miners.len() implies {
        let miner = #[trigger] round.miners[i];
        is_mined(miner.block, hash(miner.block)) ==> number(hash(miner.block).bytes@) <= number(
            miner.block.attrs.max_hash.bytes@,
        )
    } by {
        let block = round.miners[i].block;
        law_target_is_the_greatest_hash(block, hash(block));
    }
}

/// A round that is over stays so.
pub proof fn law_ended_round_stays_ended(
    hash: spec_fn(BlockView) -> BlockHash,
    blocks: Seq<BlockView>,
    turns: Seq<Turn>,
    k: int,
)
    requires
        0 <= k <= turns.len(),
        !after_turns(hash, blocks, turns.take(k)).open,
    ensures
        !after_turns(hash, blocks, turns).open,
    decreases turns.len(),
{
    if k == turns.len() {
        assert(turns.take(k) =~= turns);
    } else {
        assert(turns.drop_last().take(k) =~= turns.take(k));
        law_ended_round_stays_ended(hash, blocks, turns.drop_last(), k);
    }
}

/// A miner comes to hand a block in only by a claim of its own that finds the round open and
/// ends it.
pub proof fn law_only_the_miner_that_ends_the_round_hands_in(
    hash: spec_fn(BlockView) -> BlockHash,
    round: RoundView,
    turn: Turn,
    i: int,
)
    requires
        0 <= i < round.miners.len(),
        !(round.miners[i].phase is Found),
        after_turn(hash, round, turn).miners[i].phase is Found,
    ensures
        turn == Turn::Claim(i),
        round.open,
        !after_turn(hash, round, turn).open,
{
}

/// What happens in a round with one miner: the next step of the miner, while it has one.
pub open spec fn lone_step(
    hash: spec_fn(BlockView) -> BlockHash,
    round: RoundView,
) -> RoundView {
    match round.miners[0].phase {
        MinerPhase::Ask => after_turn(hash, round, Turn::Ask(0)),
        MinerPhase::Hash => after_turn(hash, round, Turn::Hash(0)),
        MinerPhase::Claim => after_turn(hash, round, Turn::Claim(0)),
        _ => round,
    }
}

/// A new round with one miner, on `block`, after `steps` steps.
pub open spec fn alone(
    hash: spec_fn(BlockView) -> BlockHash,
    block: BlockView,
    steps: nat,
) -> RoundView
    decreases steps,
{
    if steps == 0 {
        new_round(seq![block])
    } else {
        lone_step(hash, alone(hash, block, (steps - 1) as nat))
    }
}

proof fn lemma_alone_counts(
    hash: spec_fn(BlockView) -> BlockHash,
    block: BlockView,
    nonce: u64,
    tried: nat,
)
    requires
        block.attrs.nonce + tried <= nonce,
        forall|n: u64|
            block.attrs.nonce <= n < nonce ==> !is_mined(
                #[trigger] with_nonce(block, n),
                hash(with_nonce(block, n)),
            ),
    ensures
        alone(hash, block, 2 * tried) == (RoundView {
            open: true,
            miners: seq![new_miner(with_nonce(block, (block.attrs.nonce + tried) as u64))],
        }),
    decreases tried,
{
    let here = alone(hash, block, 2 * tried);
    if tried == 0 {
        assert(here.miners =~= seq![new_miner(with_nonce(block, block.attrs.nonce))]);
    } else {
        let before = (tried - 1) as nat;
        lemma_alone_counts(hash, block, nonce, before);
        let last = with_nonce(block, (block.attrs.nonce + before) as u64);
        let asked = alone(hash, block, (2 * before + 1) as nat);
        assert(asked == lone_step(hash, alone(hash, block, 2 * before)));
        assert(asked.miners =~= seq![MinerView { block: last, phase: MinerPhase::Hash }]);
        assert(here == lone_step(hash, asked));
        assert(here.miners =~= seq![
            new_miner(with_nonce(block, (block.attrs.nonce + tried) as u64)),
        ]);
    }
}

/// In a round that nobody else ends, a miner finds the least nonce, from that of its block on,
/// that meets the target: it ends with the block as it started, but for that nonce, to hand in,
/// and the round is over.
pub proof fn law_lone_miner_finds_the_least_nonce(
    hash: spec_fn(BlockView) -> BlockHash,
    block: BlockView,
    nonce: u64,
)
    requires
        block.attrs.nonce <= nonce,
        is_mined(with_nonce(block, nonce), hash(with_nonce(block, nonce))),
        forall|n: u64|
            block.attrs.nonce <= n < nonce ==> !is_mined(
                #[trigger] with_nonce(block, n),
                hash(with_nonce(block, n)),
            ),
    ensures
        alone(hash, block, (2 * (nonce - block.attrs.nonce) + 3) as nat) == (RoundView {
            open: false,
            miners: seq![
                MinerView { block: with_nonce(block, nonce), phase: MinerPhase::Found },
            ],
        }),
{
    let tried = (nonce - block.attrs.nonce) as nat;
    lemma_alone_counts(hash, block, nonce, tried);
    let found = with_nonce(block, nonce);
    let asked = alone(hash, block, 2 * tried + 1);
    assert(asked == lone_step(hash, alone(hash, block, 2 * tried)));
    assert(asked.miners =~= seq![MinerView { block: found, phase: MinerPhase::Hash }]);
    let hashed = alone(hash, block, 2 * tried + 2);
    assert(hashed == lone_step(hash, asked));
    assert(hashed.miners =~= seq![MinerView { block: found, phase: MinerPhase::Claim }]);
    let ended = alone(hash, block, 2 * tried + 3);
    assert(ended == lone_step(hash, hashed));
    assert(ended.miners =~= seq![MinerView { block: found, phase: MinerPhase::Found }]);
}

/// A block that was handed in, and the round in which it was found.
pub struct SentBlock {
    pub round: int,
    pub block: BlockView,
}

/// The mining service: the rounds so far, one for each mining info that it received, and the
/// blocks that it sent.
pub struct ServiceView {
    pub rounds: Seq<RoundView>,
    pub sent: Seq<SentBlock>,
}

/// One step of what happens in the mining service: a mining info comes in, and blocks are made
/// on it at these moments; or something happens in a round, be it the present one or not.
pub enum ServiceTurn {
    Info { info: MiningInfoView, timestamps: Seq<Timestamp> },
    Round { round: int, turn: Turn },
}

/// The block that `turn` causes to be handed in, if any: that of a miner whose claim is granted.
pub open spec fn handed_in(round: RoundView, turn: Turn) -> Option<BlockView> {
    match turn {
        Turn::Claim(i) => if is_due(round, i, MinerPhase::Claim) && is_granted(
            round.open,
            RoundCall::Claim,
        ) {
            Some(round.miners[i].block)
        } else {
            None
        },
        _ => None,
    }
}

/// The blocks on `info`, one for each of `timestamps`.
pub open spec fn blocks_on(
    service: MiningService,
    info: MiningInfoView,
    timestamps: Seq<Timestamp>,
) -> Seq<BlockView> {
    timestamps.map_values(|timestamp: Timestamp| service.block_on(info, timestamp))
}

/// The mining service after `turn`. A mining info ends the present round and opens a new one.
pub open spec fn service_after(
    service: MiningService,
    hash: spec_fn(BlockView) -> BlockHash,
    state: ServiceView,
    turn: ServiceTurn,
) -> ServiceView {
    match turn {
        ServiceTurn::Info { info, timestamps } => {
            let ended = if state.rounds.len() == 0 {
                state.rounds
            } else {
                state.rounds.update(
                    state.rounds.len() - 1,
                    after_turn(hash, state.rounds.last(), Turn::Cancel),
                )
            };
            ServiceView {
                rounds: ended.push(new_round(blocks_on(service, info, timestamps))),
                ..state
            }
        },
        ServiceTurn::Round { round, turn } => if 0 <= round < state.rounds.len() {
            ServiceView {
                rounds: state.rounds.update(round, after_turn(hash, state.rounds[round], turn)),
                sent: match handed_in(state.rounds[round], turn) {
                    Some(block) => state.sent.push(SentBlock { round, block }),
                    None => state.sent,
                },
            }
        } else {
            state
        },
    }
}

/// The mining service after `turns`, from the start on.
pub open spec fn service_run(
    service: MiningService,
    hash: spec_fn(BlockView) -> BlockHash,
    turns: Seq<ServiceTurn>,
) -> ServiceView
    decreases turns.len(),
{
    if turns.len() == 0 {
        ServiceView { rounds: Seq::empty(), sent: Seq::empty() }
    } else {
        service_after(service, hash, service_run(service, hash, turns.drop_last()), turns.last())
    }
}

/// The mining infos that came in, in order.
pub open spec fn infos(turns: Seq<ServiceTurn>) -> Seq<MiningInfoView>
    decreases turns.len(),
{
    if turns.len() == 0 {
        Seq::empty()
    } else {
        match turns.last() {
            ServiceTurn::Info { info, .. } => infos(turns.drop_last()).push(info),
            _ => infos(turns.drop_last()),
        }
    }
}

/// `block` is one that the service made on `info`, with any nonce.
pub open spec fn is_made_on(
    service: MiningService,
    info: MiningInfoView,
    block: BlockView,
) -> bool {
    block == with_nonce(service.block_on(info, block.attrs.timestamp), block.attrs.nonce)
}

/// Everything that [`law_one_block_per_mining_info`] rests on.
spec fn service_inv(
    service: MiningService,
    hash: spec_fn(BlockView) -> BlockHash,
    state: ServiceView,
    infos: Seq<MiningInfoView>,
) -> bool {
    &&& state.rounds.len() == infos.len()
    &&& forall|k: int, i: int|
        #![trigger state.rounds[k].miners[i]]
        0 <= k < infos.len() && 0 <= i < state.rounds[k].miners.len() ==> {
            let miner = state.rounds[k].miners[i];
            &&& is_made_on(service, infos[k], miner.block)
            &&& miner.phase is Claim ==> is_mined(miner.block, hash(miner.block))
        }
    &&& forall|t: int|
        #![trigger state.sent[t]]
        0 <= t < state.sent.len() ==> {
            &&& 0 <= state.sent[t].round < infos.len()
            &&& !state.rounds[state.sent[t].round].open
            &&& is_made_on(service, infos[state.sent[t].round], state.sent[t].block)
            &&& is_mined(state.sent[t].block, hash(state.sent[t].block))
        }
    &&& forall|t: int, u: int|
        #![trigger state.sent[t], state.sent[u]]
        0 <= t < u < state.sent.len() ==> state.sent[t].round != state.sent[u].round
}

proof fn lemma_service_inv(
    service: MiningService,
    hash: spec_fn(BlockView) -> BlockHash,
    turns: Seq<ServiceTurn>,
)
    ensures
        service_inv(service, hash, service_run(service, hash, turns), infos(turns)),
    decreases turns.len(),
{
    if turns.len() > 0 {
        let before = service_run(service, hash, turns.drop_last());
        let after = service_run(service, hash, turns);
        lemma_service_inv(service, hash, turns.drop_last());
        let known = infos(turns.drop_last());
        match turns.last() {
            ServiceTurn::Info { info, timestamps } => {
                assert forall|k: int, i: int|
                    #![trigger after.rounds[k].miners[i]]
                    0 <= k < infos(turns).len() && 0 <= i
                        < after.rounds[k].miners.len() implies {
                    let miner = after.rounds[k].miners[i];
                    &&& is_made_on(service, infos(turns)[k], miner.block)
                    &&& miner.phase is Claim ==> is_mined(miner.block, hash(miner.block))
                } by {
                    if k < known.len() {
                        assert(after.rounds[k].miners[i] == before.rounds[k].miners[i]);
                    }
                }
            },
            ServiceTurn::Round { round, turn } => {
                if 0 <= round < before.rounds.len() {
                    assert forall|k: int, i: int|
                        #![trigger after.rounds[k].miners[i]]
                        0 <= k < known.len() && 0 <= i < after.rounds[k].miners.len() implies {
                        let miner = after.rounds[k].miners[i];
                        &&& is_made_on(service, known[k], miner.block)
                        &&& miner.phase is Claim ==> is_mined(miner.block, hash(miner.block))
                    } by {
                        let miner = before.rounds[k].miners[i];
                        assert(is_made_on(service, known[k], miner.block));
                    }
                    if handed_in(before.rounds[round], turn) is Some {
                        let i = turn->Claim_0;
                        let miner = before.rounds[round].miners[i];
                        assert(is_made_on(service, known[round], miner.block));
                    }
                }
            },
        }
    }
}

/// At most one block comes of each mining info, however miners and mining infos interleave:
/// the service never sends more blocks than it has received mining infos, no two blocks belong
/// to the same one, and each stands where its mining info says, meets the target, and pays the
/// configured key the reward.
pub proof fn law_one_block_per_mining_info(
    service: MiningService,
    hash: spec_fn(BlockView) -> BlockHash,
    turns: Seq<ServiceTurn>,
)
    ensures
        ({
            let sent = service_run(service, hash, turns).sent;
            let known = infos(turns);
            &&& sent.len() <= known.len()
            &&& forall|t: int, u: int|
                #![trigger sent[t], sent[u]]
                0 <= t < u < sent.len() ==> sent[t].round != sent[u].round
            &&& forall|t: int|
                0 <= t < sent.len() ==> {
                    let block = (#[trigger] sent[t]).block;
                    let info = known[sent[t].round];
                    &&& 0 <= sent[t].round < known.len()
                    &&& is_made_on(service, info, block)
                    &&& block.attrs.index == info.block_index
                    &&& block.attrs.prev_hash == info.prev_hash
                    &&& block.attrs.max_hash == info.max_hash
                    &&& block.attrs.issuer == service.config().public_key
                    &&& block.attrs.reward == service.max_reward()
                    &&& is_mined(block, hash(block))
                    &&& number(hash(block).bytes@) <= number(block.attrs.max_hash.bytes@)
                    &&& block.transactions.len() <= service.config().max_tx_per_block
                    &&& block.transactions.len() == service.config().max_tx_per_block
                        || block.transactions.len() == info.transactions.len()
                    &&& forall|i: int|
                        0 <= i < block.transactions.len() ==> i < info.transactions.len() && (
                        #[trigger] block.transactions[i]) == info.transactions[i].transaction
                }
        }),
{
    lemma_service_inv(service, hash, turns);
    let sent = service_run(service, hash, turns).sent;
    assert forall|t: int| 0 <= t < sent.len() implies number(
        hash((#[trigger] sent[t]).block).bytes@,
    ) <= number(sent[t].block.attrs.max_hash.bytes@) by {
        law_target_is_the_greatest_hash(sent[t].block, hash(sent[t].block));
    }
    let count = infos(turns).len() as int;
    let used = sent.map_values(|block: SentBlock| block.round);
    assert forall|t: int, u: int| 0 <= t < used.len() && 0 <= u < used.len() && t != u implies used[t]
        != used[u] by {
        if t < u {
            assert(sent[t].round != sent[u].round);
        } else {
            assert(sent[u].round != sent[t].round);
        }
    }
    used.unique_seq_to_set();
    vstd::set_lib::lemma_int_range(0, count);
    assert(used.to_set().subset_of(vstd::set_lib::set_int_range(0, count))) by {
        assert forall|round: int| #[trigger] used.to_set().contains(round) implies 0 <= round
            < count by {
            let t = choose|t: int| 0 <= t < used.len() && used[t] == round;
            assert(sent[t].round == round);
        }
    }
    vstd::set_lib::lemma_len_subset(used.to_set(), vstd::set_lib::set_int_range(0, count));
}

} // verus!
