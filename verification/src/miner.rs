//! The search for a nonce with which a block meets its target.
use vstd::prelude::*;

use crate::data::{
    law_digests_are_ordered_as_numbers, lex_at_most, number, Block, BlockAttributes, BlockHash,
    BlockView,
};

verus! {

/// The hash meets the target of the block.
pub open spec fn is_mined(block: BlockView, hash: BlockHash) -> bool {
    lex_at_most(hash.bytes@, block.attrs.max_hash.bytes@)
}

/// A hash meets the target of a block exactly if, read as a number, it is at most the greatest
/// hash that the block allows, read as a number.
pub proof fn law_target_is_the_greatest_hash(block: BlockView, hash: BlockHash)
    ensures
        is_mined(block, hash) <==> number(hash.bytes@) <= number(block.attrs.max_hash.bytes@),
{
    law_digests_are_ordered_as_numbers(hash.bytes@, block.attrs.max_hash.bytes@);
}

/// The block with another nonce.
pub open spec fn with_nonce(block: BlockView, nonce: u64) -> BlockView {
    BlockView { attrs: BlockAttributes { nonce, ..block.attrs }, ..block }
}

/// To put another nonce into a block changes nothing else in it.
pub proof fn law_nonce_is_put_in_alone(block: BlockView, nonce: u64)
    ensures
        with_nonce(block, nonce).attrs.nonce == nonce,
        with_nonce(block, nonce).attrs.index == block.attrs.index,
        with_nonce(block, nonce).attrs.timestamp == block.attrs.timestamp,
        with_nonce(block, nonce).attrs.reward == block.attrs.reward,
        with_nonce(block, nonce).attrs.issuer == block.attrs.issuer,
        with_nonce(block, nonce).attrs.max_hash == block.attrs.max_hash,
        with_nonce(block, nonce).attrs.prev_hash == block.attrs.prev_hash,
        with_nonce(block, nonce).transactions == block.transactions,
{
}

/// What a miner is about to do, or how it ended.
#[derive(Clone, Copy, Debug, PartialEq, Eq)]
pub enum MinerPhase {
    /// Ask whether work is still needed.
    Ask,
    /// Compute the hash of the block.
    Hash,
    /// Claim the round for the block, which meets its target.
    Claim,
    /// It ended with the block, which is to be handed in.
    Found,
    /// It ended without a block to hand in: another miner was first, or the round was
    /// cancelled.
    Stopped,
    /// It ended without a block: no nonce is left to try.
    Exhausted,
}

/// What a miner was told.
#[derive(Clone, Copy, Debug, PartialEq, Eq)]
pub enum MinerAnswer {
    /// Whether work is needed.
    Work(bool),
    /// The hash of the block.
    Hash(BlockHash),
    /// Whether the claim was granted.
    Claim(bool),
}

/// A miner, by the block that it has come to and what it is about to do.
pub struct MinerView {
    pub block: BlockView,
    pub phase: MinerPhase,
}

/// A miner that has not done anything yet.
pub open spec fn new_miner(block: BlockView) -> MinerView {
    MinerView { block, phase: MinerPhase::Ask }
}

/// The miner once it was told `answer`. What it did not ask for changes nothing.
pub open spec fn miner_after(miner: MinerView, answer: MinerAnswer) -> MinerView {
    match (miner.phase, answer) {
        (MinerPhase::Ask, MinerAnswer::Work(needed)) => MinerView {
            phase: if needed {
                MinerPhase::Hash
            } else {
                MinerPhase::Stopped
            },
            ..miner
        },
        (MinerPhase::Hash, MinerAnswer::Hash(hash)) => if is_mined(miner.block, hash) {
            MinerView { phase: MinerPhase::Claim, ..miner }
        } else if miner.block.attrs.nonce == u64::MAX {
            MinerView { phase: MinerPhase::Exhausted, ..miner }
        } else {
            new_miner(with_nonce(miner.block, (miner.block.attrs.nonce + 1) as u64))
        },
        (MinerPhase::Claim, MinerAnswer::Claim(granted)) => MinerView {
            phase: if granted {
                MinerPhase::Found
            } else {
                MinerPhase::Stopped
            },
            ..miner
        },
        _ => miner,
    }
}

/// A miner goes from nonce to nonce: it works on only while work is needed, claims the round
/// exactly for a block whose hash, as a number, is at most its target, passes over any other
/// block by adding one to the nonce until there are none left, and has found its block exactly
/// if its claim is granted.
pub proof fn law_miner_passes_over_what_misses_the_target(miner: MinerView, answer: MinerAnswer)
    ensures
        ({
            let next = miner_after(miner, answer);
            let nonce = miner.block.attrs.nonce;
            match answer {
                MinerAnswer::Work(needed) => {
                    &&& next.block == miner.block
                    &&& miner.phase is Ask && needed ==> next.phase is Hash
                    &&& miner.phase is Ask && !needed ==> next.phase is Stopped
                    &&& !(miner.phase is Ask) ==> next.phase == miner.phase
                },
                MinerAnswer::Hash(hash) => {
                    let met = number(hash.bytes@) <= number(miner.block.attrs.max_hash.bytes@);
                    &&& miner.phase is Hash && met ==> next.phase is Claim && next.block
                        == miner.block
                    &&& miner.phase is Hash && !met && nonce == u64::MAX ==> next.phase is Exhausted
                        && next.block == miner.block
                    &&& miner.phase is Hash && !met && nonce < u64::MAX ==> {
                        &&& next.phase is Ask
                        &&& next.block.attrs == (BlockAttributes {
                            nonce: (nonce + 1) as u64,
                            ..miner.block.attrs
                        })
                        &&& next.block.transactions == miner.block.transactions
                    }
                    &&& !(miner.phase is Hash) ==> next == miner
                },
                MinerAnswer::Claim(granted) => {
                    &&& next.block == miner.block
                    &&& miner.phase is Claim && granted ==> next.phase is Found
                    &&& miner.phase is Claim && !granted ==> next.phase is Stopped
                    &&& !(miner.phase is Claim) ==> next.phase == miner.phase
                },
            }
        }),
        new_miner(miner.block).block == miner.block,
        new_miner(miner.block).phase is Ask,
{
    if let MinerAnswer::Hash(hash) = answer {
        law_target_is_the_greatest_hash(miner.block, hash);
    }
}

/// A miner at work on a block.
pub struct Miner {
    block: Block,
    phase: MinerPhase,
}

impl View for Miner {
    type V = MinerView;

    closed spec fn view(&self) -> MinerView {
        MinerView { block: self.block@, phase: self.phase }
    }
}

impl Miner {
    /// The block that the miner has come to.
    pub closed spec fn held(&self) -> Block {
        self.block
    }

    pub fn new(block: Block) -> (r: Self)
        ensures
            r@ == new_miner(block@),
            r@.phase is Ask,
            r.held() == block,
    {
        Miner { block, phase: MinerPhase::Ask }
    }

    pub fn phase(&self) -> (r: MinerPhase)
        ensures
            r == self@.phase,
    {
        self.phase
    }

    /// The block that the miner has come to.
    pub fn block(&self) -> (r: &Block)
        ensures
            *r == self.held(),
            r@ == self@.block,
    {
        &self.block
    }

    /// Tells the miner what it asked for.
    pub fn answer(&mut self, answer: MinerAnswer)
        ensures
            final(self)@ == miner_after(old(self)@, answer),
            answer !is Hash ==> final(self).held() == old(self).held(),
            !(old(self)@.phase is Hash) ==> final(self).held() == old(self).held(),
            old(self)@.phase is Ask ==> final(self)@.phase == match answer {
                MinerAnswer::Work(true) => MinerPhase::Hash,
                MinerAnswer::Work(false) => MinerPhase::Stopped,
                _ => MinerPhase::Ask,
            },
            old(self)@.phase is Claim ==> final(self)@.phase == match answer {
                MinerAnswer::Claim(true) => MinerPhase::Found,
                MinerAnswer::Claim(false) => MinerPhase::Stopped,
                _ => MinerPhase::Claim,
            },
            old(self)@.phase is Hash && !(answer is Hash) ==> final(self)@.phase is Hash,
            old(self)@.phase is Hash && answer is Hash ==> {
                let hash = number(answer->Hash_0.bytes@);
                let target = number(old(self).held().attrs.max_hash.bytes@);
                let nonce = old(self).held().attrs.nonce;
                &&& hash <= target ==> {
                    &&& final(self)@.phase is Claim
                    &&& final(self).held() == old(self).held()
                }
                &&& hash > target && nonce == u64::MAX ==> {
                    &&& final(self)@.phase is Exhausted
                    &&& final(self).held() == old(self).held()
                }
                &&& hash > target && nonce < u64::MAX ==> {
                    &&& final(self)@.phase is Ask
                    &&& final(self).held().attrs == (BlockAttributes {
                        nonce: (nonce + 1) as u64,
                        ..old(self).held().attrs
                    })
                    &&& final(self).held().transactions@ == old(self).held().transactions@
                }
            },
            old(self)@.phase is Found || old(self)@.phase is Stopped || old(self)@.phase is Exhausted
                ==> final(self)@.phase == old(self)@.phase,
    {
        match (self.phase, answer) {
            (MinerPhase::Ask, MinerAnswer::Work(needed)) => {
                self.phase = if needed {
                    MinerPhase::Hash
                } else {
                    MinerPhase::Stopped
                };
            },
            (MinerPhase::Hash, MinerAnswer::Hash(hash)) => {
                if hash.at_most(&self.block.attrs.max_hash) {
                    self.phase = MinerPhase::Claim;
                } else if self.block.attrs.nonce == u64::MAX {
                    self.phase = MinerPhase::Exhausted;
                } else {
                    self.block.attrs.nonce = self.block.attrs.nonce + 1;
                    self.phase = MinerPhase::Ask;
                }
            },
            (MinerPhase::Claim, MinerAnswer::Claim(granted)) => {
                self.phase = if granted {
                    MinerPhase::Found
                } else {
                    MinerPhase::Stopped
                };
            },
            _ => {},
        }
    }
}

/// A miner that started from `block` and was told `answers`.
pub open spec fn miner_run(block: BlockView, answers: Seq<MinerAnswer>) -> MinerView
    decreases answers.len(),
{
    if answers.len() == 0 {
        new_miner(block)
    } else {
        miner_after(miner_run(block, answers.drop_last()), answers.last())
    }
}

/// Mining changes nothing in a block but its nonce, which only grows.
pub proof fn law_mining_changes_the_nonce_alone(block: BlockView, answers: Seq<MinerAnswer>)
    ensures
        ({
            let found = miner_run(block, answers).block;
            &&& found == with_nonce(block, found.attrs.nonce)
            &&& block.attrs.nonce <= found.attrs.nonce
        }),
    decreases answers.len(),
{
    if answers.len() > 0 {
        law_mining_changes_the_nonce_alone(block, answers.drop_last());
    }
}

/// How the search for a nonce ended.
#[derive(Debug, PartialEq, Eq)]
pub enum MinerEnd {
    /// With this block, which meets its target and is to be handed in.
    Found(Block),
    /// Without a block to hand in: another miner was first, or the round was cancelled.
    Stopped,
    /// Without a block: no nonce is left to try.
    Exhausted,
}

/// The search of `miner` ended with `end`.
pub open spec fn is_end(miner: MinerView, end: MinerEnd) -> bool {
    match end {
        MinerEnd::Found(block) => miner == (MinerView {
            block: block@,
            phase: MinerPhase::Found,
        }),
        MinerEnd::Stopped => miner.phase == MinerPhase::Stopped,
        MinerEnd::Exhausted => miner.phase == MinerPhase::Exhausted,
    }
}

/// `compute_hash` may give `hash` for `block`.
pub open spec fn may_hash_to<H: Fn(&Block) -> BlockHash>(
    compute_hash: H,
    block: BlockView,
    hash: BlockHash,
) -> bool {
    exists|candidate: Block|
        candidate@ == block && #[trigger] call_ensures(compute_hash, (&candidate,), hash)
}

/// `claim` may answer `granted` to a claim for `block`.
pub open spec fn may_claim<C: FnOnce(&Block) -> bool>(
    claim: C,
    block: BlockView,
    granted: bool,
) -> bool {
    exists|candidate: Block|
        candidate@ == block && #[trigger] call_ensures(claim, (&candidate,), granted)
}

/// With `nonce`, `block` was found not to meet its target.
pub open spec fn is_missed<H: Fn(&Block) -> BlockHash>(
    compute_hash: H,
    block: BlockView,
    nonce: u64,
) -> bool {
    exists|hash: BlockHash|
        {
            &&& #[trigger] may_hash_to(compute_hash, with_nonce(block, nonce), hash)
            &&& !is_mined(with_nonce(block, nonce), hash)
        }
}

/// With `nonce`, `block` was found to meet its target.
pub open spec fn is_hit<H: Fn(&Block) -> BlockHash>(
    compute_hash: H,
    block: BlockView,
    nonce: u64,
) -> bool {
    exists|hash: BlockHash|
        {
            &&& #[trigger] may_hash_to(compute_hash, with_nonce(block, nonce), hash)
            &&& is_mined(with_nonce(block, nonce), hash)
        }
}

/// Every nonce of `block` from its own up to but not including `nonce` was tried in vain, and
/// before each of them work was said to be needed.
pub open spec fn is_searched<H: Fn(&Block) -> BlockHash, N: Fn(u64) -> bool>(
    compute_hash: H,
    work_needed: N,
    block: BlockView,
    nonce: int,
) -> bool {
    forall|n: u64|
        block.attrs.nonce <= n < nonce ==> {
            &&& #[trigger] is_missed(compute_hash, block, n)
            &&& call_ensures(work_needed, (n,), true)
        }
}

/// `answer` is one that a miner in the state `miner` asked for and may have got.
pub open spec fn may_answer<
    H: Fn(&Block) -> BlockHash,
    N: Fn(u64) -> bool,
    C: FnOnce(&Block) -> bool,
>(compute_hash: H, work_needed: N, claim: C, miner: MinerView, answer: MinerAnswer) -> bool {
    match answer {
        MinerAnswer::Work(needed) => {
            &&& miner.phase is Ask
            &&& call_ensures(work_needed, (miner.block.attrs.nonce,), needed)
        },
        MinerAnswer::Hash(hash) => {
            &&& miner.phase is Hash
            &&& may_hash_to(compute_hash, miner.block, hash)
        },
        MinerAnswer::Claim(granted) => {
            &&& miner.phase is Claim
            &&& may_claim(claim, miner.block, granted)
        },
    }
}

/// `answers` are what a miner that started from `block` asked for, one after the other, and
/// may have got.
pub open spec fn may_be_answered<
    H: Fn(&Block) -> BlockHash,
    N: Fn(u64) -> bool,
    C: FnOnce(&Block) -> bool,
>(
    compute_hash: H,
    work_needed: N,
    claim: C,
    block: BlockView,
    answers: Seq<MinerAnswer>,
) -> bool
    decreases answers.len(),
{
    answers.len() > 0 ==> {
        &&& may_be_answered(compute_hash, work_needed, claim, block, answers.drop_last())
        &&& may_answer(
            compute_hash,
            work_needed,
            claim,
            miner_run(block, answers.drop_last()),
            answers.last(),
        )
    }
}

/// How the search from `block` on may end: with the first nonce that meets the target, if work
/// was needed all the way and the claim was granted; without a block, where work was not needed
/// any more or the claim was not granted; or once every nonce has been tried.
pub open spec fn is_outcome<
    H: Fn(&Block) -> BlockHash,
    N: Fn(u64) -> bool,
    C: FnOnce(&Block) -> bool,
>(compute_hash: H, work_needed: N, claim: C, block: BlockView, end: MinerEnd) -> bool {
    match end {
        MinerEnd::Found(found) => {
            let nonce = found.attrs.nonce;
            &&& found@ == with_nonce(block, nonce)
            &&& block.attrs.nonce <= nonce
            &&& is_searched(compute_hash, work_needed, block, nonce as int)
            &&& call_ensures(work_needed, (nonce,), true)
            &&& is_hit(compute_hash, block, nonce)
            &&& call_ensures(claim, (&found,), true)
        },
        MinerEnd::Stopped => exists|nonce: u64|
            {
                &&& block.attrs.nonce <= nonce
                &&& #[trigger] is_searched(compute_hash, work_needed, block, nonce as int)
                &&& {
                    ||| call_ensures(work_needed, (nonce,), false)
                    ||| {
                        &&& call_ensures(work_needed, (nonce,), true)
                        &&& is_hit(compute_hash, block, nonce)
                        &&& may_claim(claim, with_nonce(block, nonce), false)
                    }
                }
            },
        MinerEnd::Exhausted => is_searched(
            compute_hash,
            work_needed,
            block,
            u64::MAX + 1,
        ),
    }
}

/// A search that nothing stops finds the least nonce that meets the target, if there is one:
/// `hash` gives the hashes, work is always needed, and the claim is granted.
pub proof fn law_unhindered_search_finds_the_least_nonce<
    H: Fn(&Block) -> BlockHash,
    N: Fn(u64) -> bool,
    C: FnOnce(&Block) -> bool,
>(
    compute_hash: H,
    work_needed: N,
    claim: C,
    block: BlockView,
    end: MinerEnd,
    hash: spec_fn(BlockView) -> BlockHash,
    nonce: u64,
)
    requires
        is_outcome(compute_hash, work_needed, claim, block, end),
        forall|b: Block, h: BlockHash| #[trigger]
            call_ensures(compute_hash, (&b,), h) ==> h == hash(b@),
        forall|n: u64| !#[trigger] call_ensures(work_needed, (n,), false),
        forall|b: Block| !#[trigger] call_ensures(claim, (&b,), false),
        block.attrs.nonce <= nonce,
        is_mined(with_nonce(block, nonce), hash(with_nonce(block, nonce))),
    ensures
        end is Found,
        ({
            let found = end->Found_0@;
            &&& found == with_nonce(block, found.attrs.nonce)
            &&& block.attrs.nonce <= found.attrs.nonce <= nonce
            &&& is_mined(found, hash(found))
            &&& forall|n: u64|
                block.attrs.nonce <= n < found.attrs.nonce ==> !is_mined(
                    #[trigger] with_nonce(block, n),
                    hash(with_nonce(block, n)),
                )
        }),
{
    assert forall|n: u64| #[trigger] is_missed(compute_hash, block, n) implies !is_mined(
        with_nonce(block, n),
        hash(with_nonce(block, n)),
    ) by {
        let h = choose|h: BlockHash| #[trigger]
            may_hash_to(compute_hash, with_nonce(block, n), h) && !is_mined(with_nonce(block, n), h);
        assert(h == hash(with_nonce(block, n)));
    }
    match end {
        MinerEnd::Found(found) => {
            let last = found.attrs.nonce;
            let h = choose|h: BlockHash| #[trigger]
                may_hash_to(compute_hash, with_nonce(block, last), h) && is_mined(
                    with_nonce(block, last),
                    h,
                );
            assert(h == hash(found@));
            if nonce < last {
                assert(is_missed(compute_hash, block, nonce));
            }
            assert forall|n: u64| block.attrs.nonce <= n < last implies !is_mined(
                #[trigger] with_nonce(block, n),
                hash(with_nonce(block, n)),
            ) by {
                assert(is_missed(compute_hash, block, n));
            }
        },
        MinerEnd::Stopped => {},
        MinerEnd::Exhausted => {
            assert(is_missed(compute_hash, block, nonce));
        },
    }
}

/// A nonce that was searched in vain has been tried: work was said to be needed, and the hash of
/// the block with that nonce was, as a number, greater than its target.
pub proof fn law_searched_nonce_was_above_the_target<
    H: Fn(&Block) -> BlockHash,
    N: Fn(u64) -> bool,
>(compute_hash: H, work_needed: N, block: BlockView, end: int, n: u64)
    requires
        is_searched(compute_hash, work_needed, block, end),
        block.attrs.nonce <= n < end,
    ensures
        ({
            &&& call_ensures(work_needed, (n,), true)
            &&& exists|tried: Block, hash: BlockHash|
                {
                    &&& #[trigger] call_ensures(compute_hash, (&tried,), hash)
                    &&& tried.attrs == (BlockAttributes { nonce: n, ..block.attrs })
                    &&& tried.transactions@ == block.transactions
                    &&& number(hash.bytes@) > number(block.attrs.max_hash.bytes@)
                }
        }),
{
    let here = with_nonce(block, n);
    assert(is_missed(compute_hash, block, n));
    let hash = choose|hash: BlockHash| #[trigger]
        may_hash_to(compute_hash, here, hash) && !is_mined(here, hash);
    let tried = choose|tried: Block|
        tried@ == here && #[trigger] call_ensures(compute_hash, (&tried,), hash);
    law_target_is_the_greatest_hash(here, hash);
    assert(call_ensures(compute_hash, (&tried,), hash));
}

/// A block that is found has been hashed, and its hash, as a number, is at most its target; it
/// is the block that the search started from but for the nonce; every nonce `n` before was tried
/// and gave a greater hash; work was needed all the way, and the claim for it was granted.
pub proof fn law_found_block_is_at_most_its_target<
    H: Fn(&Block) -> BlockHash,
    N: Fn(u64) -> bool,
    C: FnOnce(&Block) -> bool,
>(
    compute_hash: H,
    work_needed: N,
    claim: C,
    block: BlockView,
    found: Block,
    n: u64,
)
    requires
        is_outcome(compute_hash, work_needed, claim, block, MinerEnd::Found(found)),
    ensures
        found.attrs == (BlockAttributes { nonce: found.attrs.nonce, ..block.attrs }),
        found.transactions@ == block.transactions,
        block.attrs.nonce <= found.attrs.nonce,
        exists|hashed: Block, hash: BlockHash|
            {
                &&& #[trigger] call_ensures(compute_hash, (&hashed,), hash)
                &&& hashed.attrs == found.attrs
                &&& hashed.transactions@ == found.transactions@
                &&& number(hash.bytes@) <= number(found.attrs.max_hash.bytes@)
            },
        block.attrs.nonce <= n < found.attrs.nonce ==> {
            &&& call_ensures(work_needed, (n,), true)
            &&& exists|tried: Block, hash: BlockHash|
                {
                    &&& #[trigger] call_ensures(compute_hash, (&tried,), hash)
                    &&& tried.attrs == (BlockAttributes { nonce: n, ..block.attrs })
                    &&& tried.transactions@ == block.transactions
                    &&& number(hash.bytes@) > number(block.attrs.max_hash.bytes@)
                }
        },
        call_ensures(work_needed, (found.attrs.nonce,), true),
        call_ensures(claim, (&found,), true),
{
    let nonce = found.attrs.nonce;
    lemma_hit_by_numbers(compute_hash, block, nonce);
    if block.attrs.nonce <= n < nonce {
        law_searched_nonce_was_above_the_target(compute_hash, work_needed, block, nonce as int, n);
    }
}

/// A search that ends without a block ends so for one of three reasons, and has tried in vain
/// every nonce that came before: work was said not to be needed; or the hash, as a number, was
/// at most the target and the claim was refused; or there was no nonce left.
pub proof fn law_search_ends_for_a_reason<
    H: Fn(&Block) -> BlockHash,
    N: Fn(u64) -> bool,
    C: FnOnce(&Block) -> bool,
>(compute_hash: H, work_needed: N, claim: C, block: BlockView, end: MinerEnd, n: u64)
    requires
        is_outcome(compute_hash, work_needed, claim, block, end),
    ensures
        end is Stopped ==> exists|last: u64|
            {
                &&& block.attrs.nonce <= last
                &&& #[trigger] is_searched(compute_hash, work_needed, block, last as int)
                &&& {
                    ||| call_ensures(work_needed, (last,), false)
                    ||| {
                        &&& call_ensures(work_needed, (last,), true)
                        &&& exists|hashed: Block, hash: BlockHash|
                            {
                                &&& #[trigger] call_ensures(compute_hash, (&hashed,), hash)
                                &&& hashed.attrs == (BlockAttributes { nonce: last, ..block.attrs })
                                &&& hashed.transactions@ == block.transactions
                                &&& number(hash.bytes@) <= number(block.attrs.max_hash.bytes@)
                            }
                        &&& exists|claimed: Block|
                            {
                                &&& #[trigger] call_ensures(claim, (&claimed,), false)
                                &&& claimed.attrs == (BlockAttributes {
                                    nonce: last,
                                    ..block.attrs
                                })
                                &&& claimed.transactions@ == block.transactions
                            }
                    }
                }
            },
        end is Exhausted && block.attrs.nonce <= n ==> {
            &&& call_ensures(work_needed, (n,), true)
            &&& exists|tried: Block, hash: BlockHash|
                {
                    &&& #[trigger] call_ensures(compute_hash, (&tried,), hash)
                    &&& tried.attrs == (BlockAttributes { nonce: n, ..block.attrs })
                    &&& tried.transactions@ == block.transactions
                    &&& number(hash.bytes@) > number(block.attrs.max_hash.bytes@)
                }
        },
{
    if end is Stopped {
        let last = choose|nonce: u64|
            {
                &&& block.attrs.nonce <= nonce
                &&& #[trigger] is_searched(compute_hash, work_needed, block, nonce as int)
                &&& {
                    ||| call_ensures(work_needed, (nonce,), false)
                    ||| {
                        &&& call_ensures(work_needed, (nonce,), true)
                        &&& is_hit(compute_hash, block, nonce)
                        &&& may_claim(claim, with_nonce(block, nonce), false)
                    }
                }
            };
        if is_hit(compute_hash, block, last) {
            lemma_hit_by_numbers(compute_hash, block, last);
        }
    }
    if end is Exhausted && block.attrs.nonce <= n {
        law_searched_nonce_was_above_the_target(
            compute_hash,
            work_needed,
            block,
            u64::MAX + 1,
            n,
        );
    }
}

proof fn lemma_hit_by_numbers<H: Fn(&Block) -> BlockHash>(
    compute_hash: H,
    block: BlockView,
    nonce: u64,
)
    requires
        is_hit(compute_hash, block, nonce),
    ensures
        exists|hashed: Block, hash: BlockHash|
            {
                &&& #[trigger] call_ensures(compute_hash, (&hashed,), hash)
                &&& hashed.attrs == (BlockAttributes { nonce, ..block.attrs })
                &&& hashed.transactions@ == block.transactions
                &&& number(hash.bytes@) <= number(block.attrs.max_hash.bytes@)
            },
{
    let here = with_nonce(block, nonce);
    let hash = choose|hash: BlockHash| #[trigger]
        may_hash_to(compute_hash, here, hash) && is_mined(here, hash);
    let hashed = choose|hashed: Block|
        hashed@ == here && #[trigger] call_ensures(compute_hash, (&hashed,), hash);
    law_target_is_the_greatest_hash(here, hash);
    assert(call_ensures(compute_hash, (&hashed,), hash));
}

/// Searches for a nonce with which `block` meets its target, from its own nonce on, one after
/// the other. `work_needed` is asked before each nonce is tried, with that nonce, and ends the
/// search if it says no. `claim` is asked once, with the block that meets its target, and
/// tells whether that is to be handed in.
pub fn miner_routine<
    H: Fn(&Block) -> BlockHash,
    N: Fn(u64) -> bool,
    C: FnOnce(&Block) -> bool,
>(block: Block, compute_hash: H, work_needed: N, claim: C) -> (end: MinerEnd)
    requires
        forall|candidate: Block| call_requires(compute_hash, (&candidate,)),
        forall|n: u64| call_requires(work_needed, (n,)),
        forall|b: Block|
            b@ == with_nonce(block@, b.attrs.nonce) && is_hit(
                compute_hash,
                block@,
                b.attrs.nonce,
            ) ==> #[trigger] call_requires(claim, (&b,)),
    ensures
        is_outcome(compute_hash, work_needed, claim, block@, end),
        end matches MinerEnd::Found(found) ==> {
            &&& found.attrs == (BlockAttributes { nonce: found.attrs.nonce, ..block.attrs })
            &&& found.transactions@ == block.transactions@
            &&& block.attrs.nonce <= found.attrs.nonce
            &&& exists|hash: BlockHash|
                {
                    &&& #[trigger] call_ensures(compute_hash, (&found,), hash)
                    &&& number(hash.bytes@) <= number(found.attrs.max_hash.bytes@)
                }
            &&& call_ensures(work_needed, (found.attrs.nonce,), true)
            &&& call_ensures(claim, (&found,), true)
        },
        forall|n: u64|
            block.attrs.nonce <= n && (match end {
                MinerEnd::Found(found) => n < found.attrs.nonce,
                MinerEnd::Stopped => false,
                MinerEnd::Exhausted => true,
            }) ==> {
                &&& (#[trigger] with_nonce(block@, n)).attrs.nonce == n
                &&& call_ensures(work_needed, (n,), true)
                &&& exists|tried: Block, hash: BlockHash|
                    {
                        &&& #[trigger] call_ensures(compute_hash, (&tried,), hash)
                        &&& tried.attrs == (BlockAttributes { nonce: n, ..block.attrs })
                        &&& tried.transactions@ == block.transactions@
                        &&& number(hash.bytes@) > number(block.attrs.max_hash.bytes@)
                    }
            },
        exists|answers: Seq<MinerAnswer>|
            {
                &&& #[trigger] may_be_answered(compute_hash, work_needed, claim, block@, answers)
                &&& is_end(miner_run(block@, answers), end)
            },
{
    let ghost mut answers: Seq<MinerAnswer> = Seq::empty();
    let mut miner = Miner::new(block);
    loop
        invariant
            forall|candidate: Block| call_requires(compute_hash, (&candidate,)),
            forall|n: u64| call_requires(work_needed, (n,)),
            forall|b: Block|
                b@ == with_nonce(block@, b.attrs.nonce) && is_hit(
                    compute_hash,
                    block@,
                    b.attrs.nonce,
                ) ==> #[trigger] call_requires(claim, (&b,)),
            miner@ == new_miner(with_nonce(block@, miner@.block.attrs.nonce)),
            block.attrs.nonce <= miner@.block.attrs.nonce,
            is_searched(compute_hash, work_needed, block@, miner@.block.attrs.nonce as int),
            may_be_answered(compute_hash, work_needed, claim, block@, answers),
            miner@ == miner_run(block@, answers),
        decreases u64::MAX - miner@.block.attrs.nonce,
    {
        let nonce: u64 = miner.block.attrs.nonce;

        let needed = work_needed(nonce);
        let ghost asked = answers;
        miner.answer(MinerAnswer::Work(needed));
        proof {
            answers = asked.push(MinerAnswer::Work(needed));
            assert(answers.drop_last() =~= asked);
            assert(may_be_answered(compute_hash, work_needed, claim, block@, answers));
        }
        if !needed {
            return MinerEnd::Stopped;
        }

        let hash = compute_hash(&miner.block);
        let ghost asked = answers;
        assert(may_hash_to(compute_hash, with_nonce(block@, nonce), hash));
        proof {
            law_target_is_the_greatest_hash(miner@.block, hash);
        }
        miner.answer(MinerAnswer::Hash(hash));
        proof {
            answers = asked.push(MinerAnswer::Hash(hash));
            assert(answers.drop_last() =~= asked);
            assert(may_be_answered(compute_hash, work_needed, claim, block@, answers));
        }
        match miner.phase() {
            MinerPhase::Claim => {
                assert(is_hit(compute_hash, block@, nonce));
                let granted = claim(&miner.block);
                let ghost asked = answers;
                miner.answer(MinerAnswer::Claim(granted));
                proof {
                    answers = asked.push(MinerAnswer::Claim(granted));
                    assert(answers.drop_last() =~= asked);
                    assert(may_be_answered(compute_hash, work_needed, claim, block@, answers));
                }
                proof {
                    assert forall|n: u64|
                        block.attrs.nonce <= n < nonce as int implies {
                        &&& (#[trigger] with_nonce(block@, n)).attrs.nonce == n
                        &&& call_ensures(work_needed, (n,), true)
                        &&& exists|tried: Block, hash: BlockHash|
                            {
                                &&& #[trigger] call_ensures(compute_hash, (&tried,), hash)
                                &&& tried.attrs == (BlockAttributes { nonce: n, ..block.attrs })
                                &&& tried.transactions@ == block.transactions@
                                &&& number(hash.bytes@) > number(block.attrs.max_hash.bytes@)
                            }
                    } by {
                        law_searched_nonce_was_above_the_target(
                            compute_hash,
                            work_needed,
                            block@,
                            nonce as int,
                            n,
                        );
                    }
                }
                return if granted {
                    MinerEnd::Found(miner.block)
                } else {
                    MinerEnd::Stopped
                };
            },
            MinerPhase::Exhausted => {
                assert(is_missed(compute_hash, block@, nonce));
                assert(is_searched(compute_hash, work_needed, block@, u64::MAX + 1));
                proof {
                    assert forall|n: u64|
                        block.attrs.nonce <= n < u64::MAX + 1 implies {
                        &&& (#[trigger] with_nonce(block@, n)).attrs.nonce == n
                        &&& call_ensures(work_needed, (n,), true)
                        &&& exists|tried: Block, hash: BlockHash|
                            {
                                &&& #[trigger] call_ensures(compute_hash, (&tried,), hash)
                                &&& tried.attrs == (BlockAttributes { nonce: n, ..block.attrs })
                                &&& tried.transactions@ == block.transactions@
                                &&& number(hash.bytes@) > number(block.attrs.max_hash.bytes@)
                            }
                    } by {
                        law_searched_nonce_was_above_the_target(
                            compute_hash,
                            work_needed,
                            block@,
                            u64::MAX + 1,
                            n,
                        );
                    }
                }
                return MinerEnd::Exhausted;
            },
            _ => {
                assert(is_missed(compute_hash, block@, nonce));
            },
        }
    }
}

} // verus!
