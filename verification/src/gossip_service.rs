//! Spreading blocks and transactions among peers.
//!
//! The service keeps the set of connected sessions. What it knows of the block forest it is
//! told: [`GossipService::handle_peer_event`] says what the forest has to be asked or given,
//! and the method that fits turns the forest's answer into commands to peers.
use std::collections::HashSet;
use vstd::prelude::*;

use crate::data::{
    BlockHash, Interval, VerifiedBlock, VerifiedBlockView, VerifiedPeerMessage,
    VerifiedPeerMessageView, VerifiedTransaction,
};
use crate::mining_service::{MiningInfo, MiningInfoView};
use crate::peer_service::{
    PeerCommand, PeerCommandKind, PeerCommandKindView, PeerCommandView, PeerEvent, PeerEventKind,
    SessionId,
};

verus! {

broadcast use vstd::std_specs::hash::group_hash_axioms;

/// How many pending transactions are offered to the miners at most.
pub const MAX_OFFERED_TRANSACTIONS: usize = 2;

/// How often unknown blocks are asked for; never, if the interval is zero.
#[derive(Clone, Copy, Debug, PartialEq, Eq)]
pub struct GossipServiceConfig {
    pub eager_requests_interval: Interval,
}

impl Default for GossipServiceConfig {
    fn default() -> (r: Self)
        ensures
            r.eager_requests_interval.total_nanos() == 0,
            r.eager_requests_interval == (Interval { secs: 0, nanos: 0 }),
    {
        GossipServiceConfig { eager_requests_interval: Interval::default() }
    }
}

/// What a block forest holds at some moment: the block at the end of its best chain, the
/// target for a block on top of it, and the transactions that are in no block yet.
#[derive(Debug, PartialEq, Eq)]
pub struct ForestSnapshot {
    pub head: VerifiedBlock,
    pub next_max_hash: BlockHash,
    pub pending_transactions: Vec<VerifiedTransaction>,
}

impl ForestSnapshot {
    /// The index of a block on top of the head can be written down.
    pub open spec fn can_grow(&self) -> bool {
        self.head.block.attrs.index < u64::MAX
    }

    /// What to mine on top of the head, with `transactions`.
    pub open spec fn mining_info(
        &self,
        transactions: Seq<VerifiedTransaction>,
    ) -> MiningInfoView {
        MiningInfoView {
            block_index: (self.head.block.attrs.index + 1) as u64,
            prev_hash: self.head.hash,
            max_hash: self.next_max_hash,
            transactions,
        }
    }

    /// The pending transactions that are offered to the miners: the first ones.
    pub open spec fn offered(&self) -> Seq<VerifiedTransaction> {
        let pending = self.pending_transactions@;
        if pending.len() <= MAX_OFFERED_TRANSACTIONS {
            pending
        } else {
            pending.take(MAX_OFFERED_TRANSACTIONS as int)
        }
    }
}

/// What has to be asked of the block forest, or given to it, before a peer event is dealt with.
#[derive(Debug, PartialEq, Eq)]
pub enum GossipAction {
    /// Nothing.
    Idle,
    /// Read the forest; [`GossipService::send_snapshot`] takes what was read.
    Snapshot { session_id: SessionId },
    /// Look for the block with this hash; [`GossipService::send_block`] takes what was found.
    FindBlock { session_id: SessionId, block_hash: BlockHash },
    /// Add the block and, if it was added, look for the block with hash `parent`;
    /// [`GossipService::receive_block`] takes the outcome.
    AddBlock { session_id: SessionId, block: Box<VerifiedBlock>, parent: BlockHash },
    /// Add the transaction and, if it was added, read the forest;
    /// [`GossipService::receive_tx`] takes the outcome.
    AddTransaction { session_id: SessionId, tx: Box<VerifiedTransaction> },
}

/// What became of a block that was given to the forest.
#[derive(Clone, Copy, Debug, PartialEq, Eq)]
pub enum BlockOutcome {
    Refused,
    /// It was added; `parent_known` tells whether the forest then held its parent.
    Added { parent_known: bool },
}

/// What became of a transaction that was given to the forest.
#[derive(Debug, PartialEq, Eq)]
pub enum TransactionOutcome {
    Refused,
    /// It was added, and the forest then held this.
    Added { forest: ForestSnapshot },
}

/// What is to be sent to the peers and to the miners.
#[derive(Debug, PartialEq, Eq)]
pub struct GossipOutput {
    pub commands: Vec<PeerCommand>,
    pub mining_info: Option<MiningInfo>,
}

/// The commands of a list, each by its view.
pub open spec fn command_views(commands: Seq<PeerCommand>) -> Seq<PeerCommandView> {
    commands.map_values(|command: PeerCommand| command@)
}

/// The sessions that a list of commands addresses, in its order.
pub open spec fn addressees(commands: Seq<PeerCommandView>) -> Seq<SessionId> {
    commands.map_values(|command: PeerCommandView| command.session_id)
}

/// The command to send `message` on session `session_id`.
pub open spec fn send_to(
    session_id: SessionId,
    message: VerifiedPeerMessageView,
) -> PeerCommandView {
    PeerCommandView { session_id, command_kind: PeerCommandKindView::SendMessage(message) }
}

/// `commands` sends `message` once to each session of `recipients` and does nothing else.
pub open spec fn delivers(
    commands: Seq<PeerCommandView>,
    message: VerifiedPeerMessageView,
    recipients: Set<SessionId>,
) -> bool {
    &&& addressees(commands).no_duplicates()
    &&& addressees(commands).to_set() == recipients
    &&& forall|i: int|
        0 <= i < commands.len() ==> (#[trigger] commands[i]).command_kind
            == PeerCommandKindView::SendMessage(message)
}

/// `commands` asks each session of `recipients` for each block of `hashes`, one block after
/// the other.
pub open spec fn requests_each(
    commands: Seq<PeerCommandView>,
    hashes: Seq<BlockHash>,
    recipients: Set<SessionId>,
) -> bool
    decreases hashes.len(),
{
    if hashes.len() == 0 {
        commands.len() == 0
    } else {
        let split = commands.len() - recipients.len();
        &&& split >= 0
        &&& requests_each(commands.take(split), hashes.drop_last(), recipients)
        &&& delivers(
            commands.skip(split),
            VerifiedPeerMessageView::Request { block_hash: hashes.last() },
            recipients,
        )
    }
}

/// `commands` is the answer to `block` from session `from`: nothing if it was refused; else
/// the block goes to every other session, and if its parent is missing, `from` is then asked
/// for the parent.
pub open spec fn relays_block(
    commands: Seq<PeerCommandView>,
    sessions: Set<SessionId>,
    from: SessionId,
    block: VerifiedBlockView,
    outcome: BlockOutcome,
) -> bool {
    match outcome {
        BlockOutcome::Refused => commands.len() == 0,
        BlockOutcome::Added { parent_known } => {
            let others = sessions.remove(from);
            let split = others.len() as int;
            &&& split <= commands.len()
            &&& delivers(commands.take(split), VerifiedPeerMessageView::Block(block), others)
            &&& commands.skip(split) == if parent_known {
                Seq::<PeerCommandView>::empty()
            } else {
                seq![
                    send_to(
                        from,
                        VerifiedPeerMessageView::Request { block_hash: block.block.attrs.prev_hash },
                    ),
                ]
            }
        },
    }
}

/// The connected sessions once `event` has been seen.
pub open spec fn sessions_after(sessions: Set<SessionId>, event: PeerEvent) -> Set<SessionId> {
    match event.event_kind {
        PeerEventKind::Connected => sessions.insert(event.session_id),
        PeerEventKind::Disconnected => sessions.remove(event.session_id),
        PeerEventKind::NewMessage(_) => sessions,
    }
}

/// What `event` requires of the block forest.
pub open spec fn action_for(event: PeerEvent) -> GossipAction {
    let session_id = event.session_id;
    match event.event_kind {
        PeerEventKind::Connected => GossipAction::Snapshot { session_id },
        PeerEventKind::Disconnected => GossipAction::Idle,
        PeerEventKind::NewMessage(VerifiedPeerMessage::Request { block_hash }) => {
            GossipAction::FindBlock { session_id, block_hash }
        },
        PeerEventKind::NewMessage(VerifiedPeerMessage::Block(block)) => {
            GossipAction::AddBlock { session_id, block, parent: block.block.attrs.prev_hash }
        },
        PeerEventKind::NewMessage(VerifiedPeerMessage::Transaction(tx)) => {
            GossipAction::AddTransaction { session_id, tx }
        },
    }
}

/// A list that sends one message to each session of a list without repetitions delivers the
/// message to those sessions.
proof fn lemma_delivers(
    commands: Seq<PeerCommandView>,
    message: VerifiedPeerMessageView,
    list: Seq<SessionId>,
)
    requires
        list.no_duplicates(),
        commands.len() == list.len(),
        forall|i: int|
            0 <= i < commands.len() ==> #[trigger] commands[i] == send_to(list[i], message),
    ensures
        delivers(commands, message, list.to_set()),
        list.to_set().len() == commands.len(),
{
    assert(addressees(commands) =~= list);
    list.unique_seq_to_set();
}

pub struct GossipService {
    config: GossipServiceConfig,
    current_sessions: HashSet<SessionId>,
}

impl GossipService {
    /// The sessions that are connected.
    pub closed spec fn sessions(&self) -> Set<SessionId> {
        self.current_sessions@
    }

    pub closed spec fn config(&self) -> GossipServiceConfig {
        self.config
    }

    /// A service without sessions.
    pub fn new(config: GossipServiceConfig) -> (r: Self)
        ensures
            r.config() == config,
            r.sessions() == Set::<SessionId>::empty(),
    {
        GossipService { config, current_sessions: HashSet::new() }
    }

    /// How long to wait from one round of [`Self::request_unknown_blocks`] to the next, if
    /// there are to be any.
    pub fn ticker_interval(&self) -> (r: Option<Interval>)
        ensures
            r == if self.config().eager_requests_interval.total_nanos() == 0 {
                None::<Interval>
            } else {
                Some(self.config().eager_requests_interval)
            },
            r is None <==> self.config().eager_requests_interval.secs == 0
                && self.config().eager_requests_interval.nanos == 0,
            r is Some ==> r->0 == self.config().eager_requests_interval,
    {
        if self.config.eager_requests_interval.is_zero() {
            None
        } else {
            Some(self.config.eager_requests_interval)
        }
    }

    /// What to mine when the service starts: an empty block on top of the head.
    pub fn send_head(&self, forest: &ForestSnapshot) -> (r: MiningInfo)
        requires
            forest.can_grow(),
        ensures
            r@ == forest.mining_info(Seq::empty()),
            r.block_index == forest.head.block.attrs.index + 1,
            r.prev_hash == forest.head.hash,
            r.max_hash == forest.next_max_hash,
            r.transactions@.len() == 0,
    {
        let r = MiningInfo {
            block_index: forest.head.block.attrs.index + 1,
            prev_hash: forest.head.hash,
            max_hash: forest.next_max_hash,
            transactions: Vec::new(),
        };
        assert(r.transactions@ =~= Seq::empty());
        r
    }

    /// Asks every peer for every block that the forest misses.
    pub fn request_unknown_blocks(&self, unknown: &Vec<BlockHash>) -> (commands: Vec<PeerCommand>)
        ensures
            requests_each(command_views(commands@), unknown@, self.sessions()),
            commands@.len() == unknown@.len() * self.sessions().len(),
            forall|i: int|
                0 <= i < commands@.len() ==> {
                    &&& self.sessions().contains((#[trigger] commands@[i]).session_id)
                    &&& commands@[i].command_kind matches PeerCommandKind::SendMessage(
                        VerifiedPeerMessage::Request { block_hash },
                    ) && unknown@.contains(block_hash)
                },
            forall|k: int, id: SessionId|
                #![trigger unknown@[k], self.sessions().contains(id)]
                0 <= k < unknown@.len() && self.sessions().contains(id) ==> commands@.contains(
                    PeerCommand {
                        session_id: id,
                        command_kind: PeerCommandKind::SendMessage(
                            VerifiedPeerMessage::Request { block_hash: unknown@[k] },
                        ),
                    },
                ),
            unknown@.no_duplicates() ==> commands@.no_duplicates(),
    {
        let list = self.session_list();
        proof {
            list@.unique_seq_to_set();
        }
        let mut commands: Vec<PeerCommand> = Vec::new();
        assert(command_views(commands@) =~= Seq::empty());
        assert(unknown@.take(0) =~= Seq::empty());
        let mut i: usize = 0;
        while i < unknown.len()
            invariant
                i <= unknown.len(),
                list@.no_duplicates(),
                list@.to_set() == self.sessions(),
                list@.len() == self.sessions().len(),
                requests_each(command_views(commands@), unknown@.take(i as int), self.sessions()),
            decreases unknown.len() - i,
        {
            let message = VerifiedPeerMessage::Request { block_hash: unknown[i] };
            let mut round = send_to_all(&list, &message);
            let ghost before = command_views(commands@);
            let ghost added = command_views(round@);
            commands.append(&mut round);
            proof {
                let all = command_views(commands@);
                let hashes = unknown@.take(i + 1);
                lemma_delivers(added, message@, list@);
                assert(all =~= before + added);
                assert(all.take(before.len() as int) =~= before);
                assert(all.skip(before.len() as int) =~= added);
                assert(hashes.drop_last() =~= unknown@.take(i as int));
                assert(hashes.last() == unknown@[i as int]);
            }
            i = i + 1;
        }
        assert(unknown@.take(i as int) =~= unknown@);
        proof {
            law_requests_by_their_parts(commands@, unknown@, self.sessions());
        }
        commands
    }

    /// Takes note of a peer event and says what it requires of the block forest.
    pub fn handle_peer_event(&mut self, event: PeerEvent) -> (action: GossipAction)
        ensures
            final(self).sessions() == sessions_after(old(self).sessions(), event),
            final(self).config() == old(self).config(),
            action == action_for(event),
            forall|id: SessionId| #[trigger]
                final(self).sessions().contains(id) <==> if id == event.session_id
                    && event.event_kind is Connected {
                    true
                } else if id == event.session_id && event.event_kind is Disconnected {
                    false
                } else {
                    old(self).sessions().contains(id)
                },
            event.event_kind is Connected ==> action == (GossipAction::Snapshot {
                session_id: event.session_id,
            }),
            event.event_kind is Disconnected <==> action is Idle,
            event.event_kind matches PeerEventKind::NewMessage(
                VerifiedPeerMessage::Request { block_hash },
            ) ==> action == (GossipAction::FindBlock { session_id: event.session_id, block_hash }),
            event.event_kind matches PeerEventKind::NewMessage(VerifiedPeerMessage::Block(block))
                ==> action == (GossipAction::AddBlock {
                session_id: event.session_id,
                block,
                parent: block.block.attrs.prev_hash,
            }),
            event.event_kind matches PeerEventKind::NewMessage(VerifiedPeerMessage::Transaction(tx))
                ==> action == (GossipAction::AddTransaction { session_id: event.session_id, tx }),
    {
        let session_id: SessionId = event.session_id;
        match event.event_kind {
            PeerEventKind::Connected => {
                self.current_sessions.insert(session_id);
                GossipAction::Snapshot { session_id }
            },
            PeerEventKind::NewMessage(message) => match message {
                VerifiedPeerMessage::Request { block_hash } => {
                    GossipAction::FindBlock { session_id, block_hash }
                },
                VerifiedPeerMessage::Block(block) => {
                    let parent = block.block.attrs.prev_hash;
                    GossipAction::AddBlock { session_id, block, parent }
                },
                VerifiedPeerMessage::Transaction(tx) => {
                    GossipAction::AddTransaction { session_id, tx }
                },
            },
            PeerEventKind::Disconnected => {
                self.current_sessions.remove(&session_id);
                GossipAction::Idle
            },
        }
    }

    /// Greets a session: the head of the forest, then every pending transaction.
    pub fn send_snapshot(&self, session_id: SessionId, forest: &ForestSnapshot) -> (commands: Vec<
        PeerCommand,
    >)
        ensures
            command_views(commands@) == seq![
                send_to(session_id, VerifiedPeerMessageView::Block(forest.head@)),
            ] + forest.pending_transactions@.map_values(
                |tx: VerifiedTransaction|
                    send_to(session_id, VerifiedPeerMessageView::Transaction(tx)),
            ),
            commands@.len() == forest.pending_transactions@.len() + 1,
            forall|i: int|
                0 <= i < commands@.len() ==> (#[trigger] commands@[i]).session_id == session_id,
            commands@[0].command_kind matches PeerCommandKind::SendMessage(
                VerifiedPeerMessage::Block(sent),
            ) && sent.hash == forest.head.hash && sent.block.attrs == forest.head.block.attrs
                && sent.block.transactions@ == forest.head.block.transactions@,
            forall|i: int|
                1 <= i < commands@.len() ==> ((#[trigger] commands@[i]).command_kind matches
                PeerCommandKind::SendMessage(VerifiedPeerMessage::Transaction(sent)) && *sent
                    == forest.pending_transactions@[i - 1]),
    {
        let ghost greeting = |tx: VerifiedTransaction|
            send_to(session_id, VerifiedPeerMessageView::Transaction(tx));
        let ghost pending = forest.pending_transactions@;
        let mut commands: Vec<PeerCommand> = Vec::new();
        commands.push(
            PeerCommand {
                session_id,
                command_kind: PeerCommandKind::SendMessage(
                    VerifiedPeerMessage::Block(Box::new(forest.head.clone())),
                ),
            },
        );
        let mut i: usize = 0;
        while i < forest.pending_transactions.len()
            invariant
                i <= pending.len(),
                pending == forest.pending_transactions@,
                greeting == |tx: VerifiedTransaction|
                    send_to(session_id, VerifiedPeerMessageView::Transaction(tx)),
                command_views(commands@) =~= seq![
                    send_to(session_id, VerifiedPeerMessageView::Block(forest.head@)),
                ] + pending.take(i as int).map_values(greeting),
            decreases pending.len() - i,
        {
            let ghost before = commands@;
            commands.push(
                PeerCommand {
                    session_id,
                    command_kind: PeerCommandKind::SendMessage(
                        VerifiedPeerMessage::Transaction(
                            Box::new(forest.pending_transactions[i].clone()),
                        ),
                    ),
                },
            );
            proof {
                let tx = pending[i as int];
                assert(pending.take(i + 1).map_values(greeting) =~= pending.take(
                    i as int,
                ).map_values(greeting).push(greeting(tx)));
                assert(command_views(commands@) =~= command_views(before).push(greeting(tx)));
            }
            i = i + 1;
        }
        assert(pending.take(i as int) =~= pending);
        proof {
            law_snapshot_is_the_head_and_the_pending_transactions(commands@, session_id, *forest);
        }
        commands
    }

    /// Answers a session that asked for a block: with the block, if the forest holds it.
    pub fn send_block(&self, session_id: SessionId, found: Option<&VerifiedBlock>) -> (commands:
        Vec<PeerCommand>)
        ensures
            command_views(commands@) == match found {
                Some(block) => seq![send_to(session_id, VerifiedPeerMessageView::Block(block@))],
                None => Seq::<PeerCommandView>::empty(),
            },
            found is None ==> commands@.len() == 0,
            found matches Some(block) ==> {
                &&& commands@.len() == 1
                &&& commands@[0].session_id == session_id
                &&& commands@[0].command_kind matches PeerCommandKind::SendMessage(
                    VerifiedPeerMessage::Block(sent),
                ) && sent.hash == block.hash && sent.block.attrs == block.block.attrs
                    && sent.block.transactions@ == block.block.transactions@
            },
    {
        let mut commands: Vec<PeerCommand> = Vec::new();
        if let Some(block) = found {
            commands.push(
                PeerCommand {
                    session_id,
                    command_kind: PeerCommandKind::SendMessage(
                        VerifiedPeerMessage::Block(Box::new(block.clone())),
                    ),
                },
            );
        }
        commands
    }

    /// Passes a block of session `from` on, and asks for its parent if that is missing.
    pub fn receive_block(
        &self,
        from: SessionId,
        block: Box<VerifiedBlock>,
        outcome: BlockOutcome,
    ) -> (commands: Vec<PeerCommand>)
        ensures
            relays_block(command_views(commands@), self.sessions(), from, (*block)@, outcome),
            outcome is Refused ==> commands@.len() == 0,
            outcome is Added ==> {
                &&& forall|i: int|
                    0 <= i < commands@.len() && (#[trigger] commands@[i]).session_id != from ==> {
                        &&& self.sessions().contains(commands@[i].session_id)
                        &&& commands@[i].command_kind matches PeerCommandKind::SendMessage(
                            VerifiedPeerMessage::Block(sent),
                        ) && sent.hash == block.hash && sent.block.attrs == block.block.attrs
                            && sent.block.transactions@ == block.block.transactions@
                    }
                &&& forall|i: int|
                    0 <= i < commands@.len() && (#[trigger] commands@[i]).session_id == from ==> {
                        &&& outcome == BlockOutcome::Added { parent_known: false }
                        &&& i == commands@.len() - 1
                        &&& commands@[i].command_kind == PeerCommandKind::SendMessage(
                            VerifiedPeerMessage::Request {
                                block_hash: block.block.attrs.prev_hash,
                            },
                        )
                    }
                &&& forall|i: int, j: int|
                    0 <= i < j < commands@.len() ==> (#[trigger] commands@[i]).session_id != (
                    #[trigger] commands@[j]).session_id
                &&& forall|id: SessionId| #[trigger]
                    self.sessions().contains(id) && id != from ==> exists|i: int|
                        0 <= i < commands@.len() && (#[trigger] commands@[i]).session_id == id
                &&& outcome == (BlockOutcome::Added { parent_known: false }) ==> commands@.len() > 0
                    && commands@.last().session_id == from
            },
    {
        let ghost given = *block;
        match outcome {
            BlockOutcome::Refused => Vec::new(),
            BlockOutcome::Added { parent_known } => {
                let parent = block.block.attrs.prev_hash;
                let mut commands = self.broadcast(&VerifiedPeerMessage::Block(block), Some(from));
                let ghost relay = command_views(commands@);
                if !parent_known {
                    commands.push(
                        PeerCommand {
                            session_id: from,
                            command_kind: PeerCommandKind::SendMessage(
                                VerifiedPeerMessage::Request { block_hash: parent },
                            ),
                        },
                    );
                }
                proof {
                    let all = command_views(commands@);
                    assert(all.take(relay.len() as int) =~= relay);
                    assert(all.skip(relay.len() as int) =~= if parent_known {
                        Seq::<PeerCommandView>::empty()
                    } else {
                        seq![
                            send_to(from, VerifiedPeerMessageView::Request { block_hash: parent }),
                        ]
                    });
                    law_relayed_block_by_its_parts(
                        commands@,
                        self.sessions(),
                        from,
                        given,
                        parent_known,
                    );
                }
                commands
            },
        }
    }

    /// What to mine now: a block on top of the head, with the first pending transactions.
    pub fn send_mining_info(&self, forest: &ForestSnapshot) -> (r: MiningInfo)
        requires
            forest.can_grow(),
        ensures
            r@ == forest.mining_info(forest.offered()),
            r.block_index == forest.head.block.attrs.index + 1,
            r.prev_hash == forest.head.hash,
            r.max_hash == forest.next_max_hash,
            r.transactions@.len() == if forest.pending_transactions@.len() < 2 {
                forest.pending_transactions@.len()
            } else {
                2
            },
            forall|i: int|
                0 <= i < r.transactions@.len() ==> #[trigger] r.transactions@[i]
                    == forest.pending_transactions@[i],
    {
        let mut transactions: Vec<VerifiedTransaction> = forest.pending_transactions.clone();
        assert(transactions@ =~= forest.pending_transactions@);
        transactions.truncate(MAX_OFFERED_TRANSACTIONS);
        assert(transactions@ =~= forest.offered());
        MiningInfo {
            block_index: forest.head.block.attrs.index + 1,
            prev_hash: forest.head.hash,
            max_hash: forest.next_max_hash,
            transactions,
        }
    }

    /// Passes a transaction of session `from` on and has it mined, unless it was refused.
    pub fn receive_tx(
        &self,
        from: SessionId,
        tx: Box<VerifiedTransaction>,
        outcome: &TransactionOutcome,
    ) -> (r: GossipOutput)
        requires
            outcome matches TransactionOutcome::Added { forest } ==> forest.can_grow(),
        ensures
            match outcome {
                TransactionOutcome::Refused => r.commands@.len() == 0 && r.mining_info is None,
                TransactionOutcome::Added { forest } => {
                    &&& delivers(
                        command_views(r.commands@),
                        VerifiedPeerMessageView::Transaction(*tx),
                        self.sessions().remove(from),
                    )
                    &&& r.mining_info is Some
                    &&& r.mining_info->0@ == forest.mining_info(forest.offered())
                },
            },
            outcome is Refused ==> r.commands@.len() == 0 && r.mining_info is None,
            outcome matches TransactionOutcome::Added { forest } ==> {
                let commands = r.commands@;
                &&& forall|i: int|
                    0 <= i < commands.len() ==> {
                        &&& (#[trigger] commands[i]).session_id != from
                        &&& self.sessions().contains(commands[i].session_id)
                        &&& commands[i].command_kind matches PeerCommandKind::SendMessage(
                            VerifiedPeerMessage::Transaction(sent),
                        ) && *sent == *tx
                    }
                &&& forall|i: int, j: int|
                    0 <= i < j < commands.len() ==> (#[trigger] commands[i]).session_id != (
                    #[trigger] commands[j]).session_id
                &&& forall|id: SessionId| #[trigger]
                    self.sessions().contains(id) && id != from ==> exists|i: int|
                        0 <= i < commands.len() && (#[trigger] commands[i]).session_id == id
                &&& r.mining_info matches Some(info) && {
                    &&& info.block_index == forest.head.block.attrs.index + 1
                    &&& info.prev_hash == forest.head.hash
                    &&& info.max_hash == forest.next_max_hash
                    &&& info.transactions@.len() == if forest.pending_transactions@.len() < 2 {
                        forest.pending_transactions@.len()
                    } else {
                        2
                    }
                    &&& forall|i: int|
                        0 <= i < info.transactions@.len() ==> #[trigger] info.transactions@[i]
                            == forest.pending_transactions@[i]
                }
            },
    {
        let ghost given = *tx;
        match outcome {
            TransactionOutcome::Refused => GossipOutput { commands: Vec::new(), mining_info: None },
            TransactionOutcome::Added { forest } => {
                let mining_info = self.send_mining_info(forest);
                let commands = self.broadcast(&VerifiedPeerMessage::Transaction(tx), Some(from));
                proof {
                    law_delivery_by_its_parts(
                        commands@,
                        VerifiedPeerMessageView::Transaction(given),
                        self.sessions().remove(from),
                    );
                    assert forall|id: SessionId| #[trigger]
                        self.sessions().contains(id) && id != from implies exists|i: int|
                        0 <= i < commands@.len() && (#[trigger] commands@[i]).session_id == id by {
                        assert(self.sessions().remove(from).contains(id));
                    }
                }
                GossipOutput { commands, mining_info: Some(mining_info) }
            },
        }
    }

    /// Spreads a block that was mined here and that the forest has added, and mines on.
    pub fn add_block(&self, block: VerifiedBlock, forest: &ForestSnapshot) -> (r: GossipOutput)
        requires
            forest.can_grow(),
        ensures
            delivers(
                command_views(r.commands@),
                VerifiedPeerMessageView::Block(block@),
                self.sessions(),
            ),
            r.mining_info is Some,
            r.mining_info->0@ == forest.mining_info(forest.offered()),
            forall|i: int|
                0 <= i < r.commands@.len() ==> {
                    &&& self.sessions().contains((#[trigger] r.commands@[i]).session_id)
                    &&& r.commands@[i].command_kind matches PeerCommandKind::SendMessage(
                        VerifiedPeerMessage::Block(sent),
                    ) && sent.hash == block.hash && sent.block.attrs == block.block.attrs
                        && sent.block.transactions@ == block.block.transactions@
                },
            forall|i: int, j: int|
                0 <= i < j < r.commands@.len() ==> (#[trigger] r.commands@[i]).session_id != (
                #[trigger] r.commands@[j]).session_id,
            forall|id: SessionId| #[trigger]
                self.sessions().contains(id) ==> exists|i: int|
                    0 <= i < r.commands@.len() && (#[trigger] r.commands@[i]).session_id == id,
            r.mining_info->0.block_index == forest.head.block.attrs.index + 1,
            r.mining_info->0.prev_hash == forest.head.hash,
            r.mining_info->0.max_hash == forest.next_max_hash,
            r.mining_info->0.transactions@.len() == if forest.pending_transactions@.len() < 2 {
                forest.pending_transactions@.len()
            } else {
                2
            },
            forall|i: int|
                0 <= i < r.mining_info->0.transactions@.len()
                    ==> #[trigger] r.mining_info->0.transactions@[i]
                    == forest.pending_transactions@[i],
    {
        let ghost given = block;
        let commands = self.broadcast(&VerifiedPeerMessage::Block(Box::new(block)), None);
        proof {
            law_delivery_by_its_parts(
                commands@,
                VerifiedPeerMessageView::Block(given@),
                self.sessions(),
            );
        }
        let mining_info = self.send_mining_info(forest);
        GossipOutput { commands, mining_info: Some(mining_info) }
    }

    /// The command to send `message` to every session but `except`.
    fn broadcast(&self, message: &VerifiedPeerMessage, except: Option<SessionId>) -> (commands: Vec<
        PeerCommand,
    >)
        ensures
            ({
                let recipients = match except {
                    Some(session_id) => self.sessions().remove(session_id),
                    None => self.sessions(),
                };
                &&& delivers(command_views(commands@), message@, recipients)
                &&& commands@.len() == recipients.len()
            }),
    {
        let mut list = self.session_list();
        if let Some(session_id) = except {
            list = without(&list, session_id);
        }
        let commands = send_to_all(&list, message);
        proof {
            lemma_delivers(command_views(commands@), message@, list@);
        }
        commands
    }

    /// The connected sessions, each once, in no particular order.
    fn session_list(&self) -> (list: Vec<SessionId>)
        ensures
            list@.no_duplicates(),
            list@.to_set() == self.sessions(),
    {
        let mut list: Vec<SessionId> = Vec::new();
        for session_id in it: self.current_sessions.iter()
            invariant
                list@ == it.seq().unref().take(it.index()),
                it.index() == it.seq().len() ==> list@ == it.seq().unref(),
                it.seq().unref().to_set() == self.current_sessions@,
                it.seq().no_duplicates(),
        {
            list.push(*session_id);
        }
        list
    }
}

/// The command to send `message`, once for each session of `list`.
fn send_to_all(list: &Vec<SessionId>, message: &VerifiedPeerMessage) -> (commands: Vec<PeerCommand>)
    ensures
        commands@.len() == list@.len(),
        forall|i: int|
            0 <= i < list@.len() ==> #[trigger] command_views(commands@)[i] == send_to(
                list@[i],
                message@,
            ),
{
    let mut commands: Vec<PeerCommand> = Vec::new();
    let mut i: usize = 0;
    while i < list.len()
        invariant
            i <= list.len(),
            commands@.len() == i,
            forall|j: int|
                0 <= j < i ==> #[trigger] command_views(commands@)[j] == send_to(list@[j], message@),
        decreases list.len() - i,
    {
        let ghost before = commands@;
        commands.push(
            PeerCommand {
                session_id: list[i],
                command_kind: PeerCommandKind::SendMessage(message.clone()),
            },
        );
        assert(command_views(commands@) =~= command_views(before).push(
            send_to(list@[i as int], message@),
        ));
        i = i + 1;
    }
    commands
}

/// The sessions of `list` but for `session_id`.
fn without(list: &Vec<SessionId>, session_id: SessionId) -> (r: Vec<SessionId>)
    requires
        list@.no_duplicates(),
    ensures
        r@.no_duplicates(),
        r@.to_set() == list@.to_set().remove(session_id),
{
    let mut r: Vec<SessionId> = Vec::new();
    let mut i: usize = 0;
    while i < list.len()
        invariant
            i <= list.len(),
            list@.no_duplicates(),
            r@.no_duplicates(),
            forall|id: SessionId| #[trigger]
                r@.contains(id) <==> id != session_id && list@.take(i as int).contains(id),
        decreases list.len() - i,
    {
        let ghost before = r@;
        proof {
            let id = list@[i as int];
            assert(list@.take(i + 1) =~= list@.take(i as int).push(id));
            assert(!list@.take(i as int).contains(id));
            assert(!before.contains(id));
            broadcast use vstd::seq_lib::group_seq_properties;
        }
        if list[i] != session_id {
            r.push(list[i]);
        }
        i = i + 1;
    }
    assert(list@.take(i as int) =~= list@);
    assert(r@.to_set() =~= list@.to_set().remove(session_id));
    r
}

/// The connected sessions once a service has seen `events`, from the start on.
pub open spec fn sessions_after_all(events: Seq<PeerEvent>) -> Set<SessionId>
    decreases events.len(),
{
    if events.len() == 0 {
        Set::empty()
    } else {
        sessions_after(sessions_after_all(events.drop_last()), events.last())
    }
}

/// Event `i` of `events` connects the session, and none after it disconnects it.
pub open spec fn connected_since(events: Seq<PeerEvent>, session_id: SessionId, i: int) -> bool {
    &&& 0 <= i < events.len()
    &&& events[i].session_id == session_id
    &&& events[i].event_kind is Connected
    &&& forall|j: int|
        i < j < events.len() && #[trigger] events[j].session_id == session_id
            ==> !(events[j].event_kind is Disconnected)
}

/// The service holds a session to be connected exactly if it was connected and has not been
/// disconnected since.
pub proof fn law_connected_sessions(events: Seq<PeerEvent>, session_id: SessionId)
    ensures
        sessions_after_all(events).contains(session_id) <==> exists|i: int|
            connected_since(events, session_id, i),
    decreases events.len(),
{
    if events.len() > 0 {
        let before = events.drop_last();
        let last = events.len() - 1;
        law_connected_sessions(before, session_id);
        if sessions_after_all(events).contains(session_id) {
            if events.last().session_id == session_id && events.last().event_kind is Connected {
                assert(connected_since(events, session_id, last));
            } else {
                let i = choose|i: int| connected_since(before, session_id, i);
                assert forall|j: int|
                    i < j < events.len() && #[trigger] events[j].session_id
                        == session_id implies !(events[j].event_kind is Disconnected) by {
                    if j < last {
                        assert(before[j].session_id == session_id);
                    }
                }
                assert(connected_since(events, session_id, i));
            }
        }
        if exists|i: int| connected_since(events, session_id, i) {
            let i = choose|i: int| connected_since(events, session_id, i);
            if i < last {
                assert(events[last].session_id == session_id ==> !(
                events[last].event_kind is Disconnected));
                assert(connected_since(before, session_id, i));
            }
        }
    }
}

/// A message that is delivered reaches each recipient once and nobody else.
pub proof fn law_delivered_once(
    commands: Seq<PeerCommandView>,
    message: VerifiedPeerMessageView,
    recipients: Set<SessionId>,
    session_id: SessionId,
)
    requires
        delivers(commands, message, recipients),
    ensures
        recipients.contains(session_id) <==> commands.contains(send_to(session_id, message)),
        forall|i: int, j: int|
            0 <= i < commands.len() && 0 <= j < commands.len() && #[trigger] commands[i].session_id
                == #[trigger] commands[j].session_id ==> i == j,
        forall|i: int|
            0 <= i < commands.len() ==> recipients.contains(
                (#[trigger] commands[i]).session_id,
            ),
{
    let ids = addressees(commands);
    assert(forall|i: int| 0 <= i < commands.len() ==> ids[i] == (#[trigger] commands[i]).session_id);
    if recipients.contains(session_id) {
        assert(ids.contains(session_id));
        let i = choose|i: int| 0 <= i < ids.len() && ids[i] == session_id;
        assert(commands[i] == send_to(session_id, message));
    }
    assert forall|i: int| 0 <= i < commands.len() implies recipients.contains(
        (#[trigger] commands[i]).session_id,
    ) by {
        assert(ids.contains(ids[i]));
    }
}

/// A block is never sent back to the session it came from: that session hears at most the
/// request for the block's parent.
pub proof fn law_block_is_not_echoed(
    commands: Seq<PeerCommandView>,
    sessions: Set<SessionId>,
    from: SessionId,
    block: VerifiedBlockView,
    outcome: BlockOutcome,
)
    requires
        relays_block(commands, sessions, from, block, outcome),
    ensures
        forall|i: int|
            0 <= i < commands.len() && (#[trigger] commands[i]).session_id == from ==> {
                &&& outcome == BlockOutcome::Added { parent_known: false }
                &&& commands[i] == send_to(
                    from,
                    VerifiedPeerMessageView::Request { block_hash: block.block.attrs.prev_hash },
                )
            },
{
    if outcome is Added {
        let others = sessions.remove(from);
        let split = others.len() as int;
        let relay = commands.take(split);
        let tail = commands.skip(split);
        assert(tail.len() == commands.len() - split);
        law_delivered_once(relay, VerifiedPeerMessageView::Block(block), others, from);
        assert forall|i: int|
            0 <= i < commands.len() && (#[trigger] commands[i]).session_id == from implies {
            &&& outcome == BlockOutcome::Added { parent_known: false }
            &&& commands[i] == send_to(
                from,
                VerifiedPeerMessageView::Request { block_hash: block.block.attrs.prev_hash },
            )
        } by {
            if i < split {
                assert(relay[i] == commands[i]);
            } else {
                assert(tail[i - split] == commands[i]);
            }
        }
    }
}

/// A block that was added reaches every other connected session once.
pub proof fn law_block_reaches_the_others(
    commands: Seq<PeerCommandView>,
    sessions: Set<SessionId>,
    from: SessionId,
    block: VerifiedBlockView,
    parent_known: bool,
    session_id: SessionId,
)
    requires
        relays_block(commands, sessions, from, block, BlockOutcome::Added { parent_known }),
        sessions.contains(session_id),
        session_id != from,
    ensures
        exists|i: int|
            {
                &&& 0 <= i < commands.len()
                &&& #[trigger] commands[i] == send_to(
                    session_id,
                    VerifiedPeerMessageView::Block(block),
                )
                &&& forall|j: int|
                    0 <= j < commands.len() && (#[trigger] commands[j]).session_id == session_id
                        ==> j == i
            },
{
    let others = sessions.remove(from);
    let split = others.len() as int;
    let relay = commands.take(split);
    let tail = commands.skip(split);
    let message = VerifiedPeerMessageView::Block(block);
    assert(tail.len() == commands.len() - split);
    law_delivered_once(relay, message, others, session_id);
    let i = choose|i: int| 0 <= i < relay.len() && relay[i] == send_to(session_id, message);
    assert(commands[i] == send_to(session_id, message));
    assert forall|j: int|
        0 <= j < commands.len() && (#[trigger] commands[j]).session_id == session_id implies j
        == i by {
        if j < split {
            assert(relay[j].session_id == relay[i].session_id);
        } else {
            assert(tail[j - split] == commands[j]);
        }
    }
}

/// The parent of a block that was added is asked for exactly if the forest does not hold it.
pub proof fn law_missing_parent_is_requested(
    commands: Seq<PeerCommandView>,
    sessions: Set<SessionId>,
    from: SessionId,
    block: VerifiedBlockView,
    parent_known: bool,
)
    requires
        relays_block(commands, sessions, from, block, BlockOutcome::Added { parent_known }),
    ensures
        commands.contains(
            send_to(
                from,
                VerifiedPeerMessageView::Request { block_hash: block.block.attrs.prev_hash },
            ),
        ) <==> !parent_known,
{
    let request = send_to(
        from,
        VerifiedPeerMessageView::Request { block_hash: block.block.attrs.prev_hash },
    );
    law_block_is_not_echoed(
        commands,
        sessions,
        from,
        block,
        BlockOutcome::Added { parent_known },
    );
    if !parent_known {
        let split = sessions.remove(from).len() as int;
        let tail = commands.skip(split);
        assert(tail.len() == commands.len() - split);
        assert(tail[0] == request);
        assert(commands[split] == request);
    }
}

/// A peer that is connected hears of every block that another peer sends and the forest adds.
pub proof fn law_connected_peer_hears_of_new_blocks(
    events: Seq<PeerEvent>,
    i: int,
    session_id: SessionId,
    commands: Seq<PeerCommandView>,
    from: SessionId,
    block: VerifiedBlockView,
    parent_known: bool,
)
    requires
        connected_since(events, session_id, i),
        relays_block(
            commands,
            sessions_after_all(events),
            from,
            block,
            BlockOutcome::Added { parent_known },
        ),
        session_id != from,
    ensures
        commands.contains(send_to(session_id, VerifiedPeerMessageView::Block(block))),
{
    law_connected_sessions(events, session_id);
    law_block_reaches_the_others(
        commands,
        sessions_after_all(events),
        from,
        block,
        parent_known,
        session_id,
    );
}

/// A peer that is connected hears of every transaction that another peer sends and the forest
/// adds.
pub proof fn law_connected_peer_hears_of_new_transactions(
    events: Seq<PeerEvent>,
    i: int,
    session_id: SessionId,
    commands: Seq<PeerCommandView>,
    from: SessionId,
    tx: VerifiedTransaction,
)
    requires
        connected_since(events, session_id, i),
        delivers(
            commands,
            VerifiedPeerMessageView::Transaction(tx),
            sessions_after_all(events).remove(from),
        ),
        session_id != from,
    ensures
        commands.contains(send_to(session_id, VerifiedPeerMessageView::Transaction(tx))),
{
    law_connected_sessions(events, session_id);
    law_delivered_once(
        commands,
        VerifiedPeerMessageView::Transaction(tx),
        sessions_after_all(events).remove(from),
        session_id,
    );
}

/// Of a round of requests: it asks every recipient for every block, and asks for nothing else.
pub proof fn law_every_unknown_block_is_requested(
    commands: Seq<PeerCommandView>,
    hashes: Seq<BlockHash>,
    recipients: Set<SessionId>,
    session_id: SessionId,
    block_hash: BlockHash,
)
    requires
        requests_each(commands, hashes, recipients),
    ensures
        commands.contains(send_to(session_id, VerifiedPeerMessageView::Request { block_hash }))
            <==> recipients.contains(session_id) && hashes.contains(block_hash),
        commands.len() == hashes.len() * recipients.len(),
    decreases hashes.len(),
{
    let request = send_to(session_id, VerifiedPeerMessageView::Request { block_hash });
    if hashes.len() > 0 {
        let split = commands.len() - recipients.len();
        let first = commands.take(split);
        let rest = commands.skip(split);
        let message = VerifiedPeerMessageView::Request { block_hash: hashes.last() };
        law_every_unknown_block_is_requested(
            first,
            hashes.drop_last(),
            recipients,
            session_id,
            block_hash,
        );
        law_delivered_once(rest, message, recipients, session_id);
        assert(commands =~= first + rest);
        assert(hashes =~= hashes.drop_last().push(hashes.last()));
        assert((hashes.len() - 1) * recipients.len() + recipients.len() == hashes.len()
            * recipients.len()) by (nonlinear_arith);
        if commands.contains(request) {
            let i = choose|i: int| 0 <= i < commands.len() && commands[i] == request;
            if i < split {
                assert(first[i] == request);
                let j = choose|j: int|
                    0 <= j < hashes.drop_last().len() && hashes.drop_last()[j] == block_hash;
                assert(hashes[j] == block_hash);
            } else {
                assert(rest[i - split] == request);
                assert(hashes[hashes.len() - 1] == block_hash);
            }
        }
        if recipients.contains(session_id) && hashes.contains(block_hash) {
            let j = choose|j: int| 0 <= j < hashes.len() && hashes[j] == block_hash;
            if j < hashes.len() - 1 {
                assert(hashes.drop_last()[j] == block_hash);
                let i = choose|i: int| 0 <= i < first.len() && first[i] == request;
                assert(commands[i] == request);
            } else {
                let i = choose|i: int| 0 <= i < rest.len() && rest[i] == request;
                assert(commands[split + i] == request);
            }
        }
    }
}

/// What each peer event requires of the block forest, whichever session it is about: a session
/// that connects is to be greeted with what the forest holds, a request has the forest looked
/// through for the block asked for, a block or a transaction is given to the forest as it came,
/// and only the end of a session requires nothing.
pub proof fn law_each_event_is_put_to_the_forest(event: PeerEvent)
    ensures
        event.event_kind is Connected ==> action_for(event) is Snapshot && action_for(
            event,
        )->Snapshot_session_id == event.session_id,
        event.event_kind is Disconnected <==> action_for(event) is Idle,
        event.event_kind is NewMessage ==> match event.event_kind->NewMessage_0 {
            VerifiedPeerMessage::Request { block_hash } => {
                &&& action_for(event) is FindBlock
                &&& action_for(event)->FindBlock_session_id == event.session_id
                &&& action_for(event)->block_hash == block_hash
            },
            VerifiedPeerMessage::Block(block) => {
                &&& action_for(event) is AddBlock
                &&& action_for(event)->AddBlock_session_id == event.session_id
                &&& action_for(event)->block == block
                &&& action_for(event)->parent == block.block.attrs.prev_hash
            },
            VerifiedPeerMessage::Transaction(tx) => {
                &&& action_for(event) is AddTransaction
                &&& action_for(event)->AddTransaction_session_id == event.session_id
                &&& action_for(event)->tx == tx
            },
        },
{
}

/// An event changes only whether its own session is connected: that is so once it has connected,
/// and not so once it has disconnected, while messages change nothing.
pub proof fn law_event_concerns_its_session_alone(
    sessions: Set<SessionId>,
    event: PeerEvent,
    session_id: SessionId,
)
    ensures
        session_id != event.session_id || event.event_kind is NewMessage ==> (sessions_after(
            sessions,
            event,
        ).contains(session_id) <==> sessions.contains(session_id)),
        event.event_kind is Connected ==> sessions_after(sessions, event).contains(
            event.session_id,
        ),
        event.event_kind is Disconnected ==> !sessions_after(sessions, event).contains(
            event.session_id,
        ),
{
}

/// A block that the forest refused is sent to nobody, and nobody is asked for anything, whatever
/// sessions are connected.
pub proof fn law_refused_block_goes_nowhere(
    commands: Seq<PeerCommandView>,
    sessions: Set<SessionId>,
    from: SessionId,
    block: VerifiedBlockView,
)
    requires
        relays_block(commands, sessions, from, block, BlockOutcome::Refused),
    ensures
        commands.len() == 0,
{
}

/// A message that is delivered: every command sends it, to one of the recipients; no two go to
/// the same session; and every recipient is served.
pub proof fn law_delivery_by_its_parts(
    commands: Seq<PeerCommand>,
    message: VerifiedPeerMessageView,
    recipients: Set<SessionId>,
)
    requires
        delivers(command_views(commands), message, recipients),
    ensures
        forall|i: int|
            0 <= i < commands.len() ==> {
                &&& recipients.contains((#[trigger] commands[i]).session_id)
                &&& commands[i].command_kind is SendMessage
                &&& commands[i].command_kind->SendMessage_0@ == message
            },
        forall|i: int, j: int|
            0 <= i < j < commands.len() ==> (#[trigger] commands[i]).session_id != (
            #[trigger] commands[j]).session_id,
        forall|id: SessionId| #[trigger]
            recipients.contains(id) ==> exists|i: int|
                0 <= i < commands.len() && (#[trigger] commands[i]).session_id == id,
        commands.len() == recipients.len(),
{
    let views = command_views(commands);
    let ids = addressees(views);
    ids.unique_seq_to_set();
    assert forall|i: int| 0 <= i < commands.len() implies {
        &&& recipients.contains((#[trigger] commands[i]).session_id)
        &&& commands[i].command_kind is SendMessage
        &&& commands[i].command_kind->SendMessage_0@ == message
    } by {
        assert(views[i] == commands[i]@);
        assert(ids[i] == commands[i].session_id);
        assert(ids.contains(ids[i]));
    }
    assert forall|i: int, j: int| 0 <= i < j < commands.len() implies (
    #[trigger] commands[i]).session_id != (#[trigger] commands[j]).session_id by {
        assert(ids[i] != ids[j]);
    }
    assert forall|id: SessionId| #[trigger] recipients.contains(id) implies exists|i: int|
        0 <= i < commands.len() && (#[trigger] commands[i]).session_id == id by {
        assert(ids.contains(id));
        let i = choose|i: int| 0 <= i < ids.len() && ids[i] == id;
        assert(commands[i].session_id == id);
    }
}

/// A block that was added: every other connected session is sent that very block, once; the
/// session that it came from hears nothing but the request for its parent, which comes last,
/// and hears that exactly if the parent is missing.
pub proof fn law_relayed_block_by_its_parts(
    commands: Seq<PeerCommand>,
    sessions: Set<SessionId>,
    from: SessionId,
    block: VerifiedBlock,
    parent_known: bool,
)
    requires
        relays_block(
            command_views(commands),
            sessions,
            from,
            block@,
            BlockOutcome::Added { parent_known },
        ),
    ensures
        forall|i: int|
            0 <= i < commands.len() && (#[trigger] commands[i]).session_id != from ==> {
                &&& sessions.contains(commands[i].session_id)
                &&& commands[i].command_kind matches PeerCommandKind::SendMessage(
                    VerifiedPeerMessage::Block(sent),
                ) && sent.hash == block.hash && sent.block.attrs == block.block.attrs
                    && sent.block.transactions@ == block.block.transactions@
            },
        forall|i: int|
            0 <= i < commands.len() && (#[trigger] commands[i]).session_id == from ==> {
                &&& !parent_known
                &&& i == commands.len() - 1
                &&& commands[i].command_kind == PeerCommandKind::SendMessage(
                    VerifiedPeerMessage::Request { block_hash: block.block.attrs.prev_hash },
                )
            },
        forall|i: int, j: int|
            0 <= i < j < commands.len() ==> (#[trigger] commands[i]).session_id != (
            #[trigger] commands[j]).session_id,
        forall|id: SessionId| #[trigger]
            sessions.contains(id) && id != from ==> exists|i: int|
                0 <= i < commands.len() && (#[trigger] commands[i]).session_id == id,
        !parent_known ==> commands.len() > 0 && commands.last().session_id == from,
{
    let views = command_views(commands);
    let others = sessions.remove(from);
    let split = others.len() as int;
    let relay = commands.take(split);
    let tail = views.skip(split);
    assert(command_views(relay) =~= views.take(split));
    assert(tail.len() == commands.len() - split);
    law_delivery_by_its_parts(relay, VerifiedPeerMessageView::Block(block@), others);
    assert forall|i: int| 0 <= i < commands.len() implies #[trigger] views[i] == commands[i]@ by {}
    assert forall|i: int| 0 <= i < split implies (#[trigger] commands[i]).session_id != from
        && sessions.contains(commands[i].session_id) && commands[i].command_kind is SendMessage
        && commands[i].command_kind->SendMessage_0@ == VerifiedPeerMessageView::Block(block@) by {
        assert(relay[i] == commands[i]);
    }
    if !parent_known {
        assert(tail[0] == views[split]);
        assert(commands[split].session_id == from);
        assert(commands[split].command_kind@ == PeerCommandKindView::SendMessage(
            VerifiedPeerMessageView::Request { block_hash: block.block.attrs.prev_hash },
        ));
    }
    assert forall|i: int, j: int| 0 <= i < j < commands.len() implies (
    #[trigger] commands[i]).session_id != (#[trigger] commands[j]).session_id by {
        if j < split {
            assert(relay[i].session_id != relay[j].session_id);
        }
    }
    assert forall|id: SessionId| #[trigger] sessions.contains(id) && id != from implies exists|i: int|
        0 <= i < commands.len() && (#[trigger] commands[i]).session_id == id by {
        assert(others.contains(id));
        let i = choose|i: int| 0 <= i < relay.len() && (#[trigger] relay[i]).session_id == id;
        assert(commands[i].session_id == id);
    }
}

/// A greeting: the head of the forest first and then every pending transaction in order, each
/// as it is, and all of it to the session that is greeted.
pub proof fn law_snapshot_is_the_head_and_the_pending_transactions(
    commands: Seq<PeerCommand>,
    session_id: SessionId,
    forest: ForestSnapshot,
)
    requires
        command_views(commands) == seq![
            send_to(session_id, VerifiedPeerMessageView::Block(forest.head@)),
        ] + forest.pending_transactions@.map_values(
            |tx: VerifiedTransaction|
                send_to(session_id, VerifiedPeerMessageView::Transaction(tx)),
        ),
    ensures
        commands.len() == forest.pending_transactions@.len() + 1,
        forall|i: int|
            0 <= i < commands.len() ==> (#[trigger] commands[i]).session_id == session_id,
        commands[0].command_kind matches PeerCommandKind::SendMessage(
            VerifiedPeerMessage::Block(sent),
        ) && sent.hash == forest.head.hash && sent.block.attrs == forest.head.block.attrs
            && sent.block.transactions@ == forest.head.block.transactions@,
        forall|i: int|
            1 <= i < commands.len() ==> ((#[trigger] commands[i]).command_kind matches
            PeerCommandKind::SendMessage(VerifiedPeerMessage::Transaction(sent)) && *sent
                == forest.pending_transactions@[i - 1]),
{
    let views = command_views(commands);
    let pending = forest.pending_transactions@;
    assert(views.len() == pending.len() + 1);
    assert forall|i: int| 0 <= i < commands.len() implies (#[trigger] commands[i])@ == if i == 0 {
        send_to(session_id, VerifiedPeerMessageView::Block(forest.head@))
    } else {
        send_to(session_id, VerifiedPeerMessageView::Transaction(pending[i - 1]))
    } by {
        assert(views[i] == commands[i]@);
    }
    assert(commands[0]@.session_id == session_id);
}

/// What is offered to the miners: the place on top of the head, the target that the forest sets
/// for it, and the first two pending transactions, or fewer if there are no more.
pub proof fn law_miners_are_offered_the_next_place(
    forest: ForestSnapshot,
    transactions: Seq<VerifiedTransaction>,
)
    ensures
        forest.can_grow() <==> forest.head.block.attrs.index != u64::MAX,
        forest.can_grow() ==> forest.mining_info(transactions).block_index
            == forest.head.block.attrs.index + 1,
        forest.mining_info(transactions).prev_hash == forest.head.hash,
        forest.mining_info(transactions).max_hash == forest.next_max_hash,
        forest.mining_info(transactions).transactions == transactions,
        forest.offered().len() <= 2,
        forest.offered().len() == 2 || forest.offered().len() == forest.pending_transactions@.len(),
        forall|i: int|
            0 <= i < forest.offered().len() ==> i < forest.pending_transactions@.len() && (
            #[trigger] forest.offered()[i]) == forest.pending_transactions@[i],
{
}

/// A round of requests: every command asks a recipient for the block with one of the hashes;
/// every recipient is asked for each of them; and if no hash is listed twice, nobody is asked
/// twice for the same block.
pub proof fn law_requests_by_their_parts(
    commands: Seq<PeerCommand>,
    hashes: Seq<BlockHash>,
    recipients: Set<SessionId>,
)
    requires
        requests_each(command_views(commands), hashes, recipients),
    ensures
        commands.len() == hashes.len() * recipients.len(),
        forall|i: int|
            0 <= i < commands.len() ==> {
                &&& recipients.contains((#[trigger] commands[i]).session_id)
                &&& commands[i].command_kind matches PeerCommandKind::SendMessage(
                    VerifiedPeerMessage::Request { block_hash },
                ) && hashes.contains(block_hash)
            },
        forall|k: int, id: SessionId|
            #![trigger hashes[k], recipients.contains(id)]
            0 <= k < hashes.len() && recipients.contains(id) ==> commands.contains(
                PeerCommand {
                    session_id: id,
                    command_kind: PeerCommandKind::SendMessage(
                        VerifiedPeerMessage::Request { block_hash: hashes[k] },
                    ),
                },
            ),
        hashes.no_duplicates() ==> commands.no_duplicates(),
    decreases hashes.len(),
{
    let views = command_views(commands);
    let n = recipients.len() as int;
    if hashes.len() > 0 {
        let last = hashes.len() - 1;
        let split = commands.len() - n;
        let first = commands.take(split);
        let rest = commands.skip(split);
        let others = hashes.drop_last();
        let message = VerifiedPeerMessageView::Request { block_hash: hashes.last() };
        assert(command_views(first) =~= views.take(split));
        assert(command_views(rest) =~= views.skip(split));
        law_requests_by_their_parts(first, others, recipients);
        law_delivery_by_its_parts(rest, message, recipients);
        assert(last * n + n == hashes.len() * n) by (nonlinear_arith)
            requires
                last == hashes.len() - 1,
        ;
        assert(hashes =~= others.push(hashes.last()));
        assert forall|i: int| 0 <= i < commands.len() implies {
            &&& recipients.contains((#[trigger] commands[i]).session_id)
            &&& commands[i].command_kind matches PeerCommandKind::SendMessage(
                VerifiedPeerMessage::Request { block_hash },
            ) && hashes.contains(block_hash) && (i < split ==> others.contains(block_hash)) && (i
                >= split ==> block_hash == hashes.last())
        } by {
            if i < split {
                assert(first[i] == commands[i]);
                let hash = first[i].command_kind->SendMessage_0->block_hash;
                let k = choose|k: int| 0 <= k < others.len() && others[k] == hash;
                assert(hashes[k] == hash);
            } else {
                assert(rest[i - split] == commands[i]);
                assert(hashes[last] == hashes.last());
            }
        }
        assert forall|k: int, id: SessionId|
            #![trigger hashes[k], recipients.contains(id)]
            0 <= k < hashes.len() && recipients.contains(id) implies commands.contains(
            PeerCommand {
                session_id: id,
                command_kind: PeerCommandKind::SendMessage(
                    VerifiedPeerMessage::Request { block_hash: hashes[k] },
                ),
            },
        ) by {
            let request = PeerCommand {
                session_id: id,
                command_kind: PeerCommandKind::SendMessage(
                    VerifiedPeerMessage::Request { block_hash: hashes[k] },
                ),
            };
            if k < last {
                assert(others[k] == hashes[k]);
                let i = choose|i: int| 0 <= i < first.len() && first[i] == request;
                assert(commands[i] == request);
            } else {
                let i = choose|i: int|
                    0 <= i < rest.len() && (#[trigger] rest[i]).session_id == id;
                assert(commands[i + split] == request);
            }
        }
        if hashes.no_duplicates() {
            assert(others.no_duplicates());
            assert(!others.contains(hashes.last())) by {
                if others.contains(hashes.last()) {
                    let k = choose|k: int| 0 <= k < others.len() && others[k] == hashes.last();
                    assert(hashes[k] == hashes[last]);
                }
            }
            assert forall|i: int, j: int|
                0 <= i < j < commands.len() implies commands[i] != commands[j] by {
                if j < split {
                    assert(first[i] == commands[i] && first[j] == commands[j]);
                } else if i >= split {
                    assert(rest[i - split] == commands[i] && rest[j - split] == commands[j]);
                }
            }
        }
    }
}

} // verus!
