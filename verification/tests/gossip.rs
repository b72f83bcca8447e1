use faultycoin::data::{
    Block, BlockAttributes, BlockHash, Interval, Timestamp, Transaction, VerifiedBlock,
    VerifiedPeerMessage, VerifiedTransaction, WalletId,
};
use faultycoin::gossip_service::{
    BlockOutcome, ForestSnapshot, GossipAction, GossipService, GossipServiceConfig,
    TransactionOutcome,
};
use faultycoin::mining_service::MiningInfo;
use faultycoin::peer_service::{PeerCommand, PeerCommandKind, PeerEvent, PeerEventKind};

fn hash(byte: u8) -> BlockHash {
    BlockHash { bytes: [byte; 64] }
}

fn tx(amount: u64) -> VerifiedTransaction {
    VerifiedTransaction {
        transaction: Transaction {
            amount,
            fee: 30,
            comment: "Hello, world".to_string(),
            sender: WalletId::Key("QUJD".to_string()),
            receiver: WalletId::of_genesis(),
            signature: "".to_string(),
        },
    }
}

fn block(index: u64, own: u8, prev: u8) -> VerifiedBlock {
    VerifiedBlock {
        block: Block {
            attrs: BlockAttributes {
                index,
                timestamp: Timestamp { secs: 1_600_000_000, nanos: 5 },
                reward: 10,
                nonce: 33333,
                issuer: WalletId::of_genesis(),
                max_hash: hash(200),
                prev_hash: hash(prev),
            },
            transactions: vec![tx(7).transaction],
        },
        hash: hash(own),
    }
}

fn forest(pending: Vec<VerifiedTransaction>) -> ForestSnapshot {
    ForestSnapshot { head: block(4, 40, 39), next_max_hash: hash(150), pending_transactions: pending }
}

fn event(session_id: u64, event_kind: PeerEventKind) -> PeerEvent {
    PeerEvent { session_id, event_kind }
}

fn service(sessions: &[u64]) -> GossipService {
    let mut service = GossipService::new(GossipServiceConfig::default());
    for id in sessions {
        let action = service.handle_peer_event(event(*id, PeerEventKind::Connected));
        assert_eq!(action, GossipAction::Snapshot { session_id: *id });
    }
    service
}

fn sent(session_id: u64, message: VerifiedPeerMessage) -> PeerCommand {
    PeerCommand { session_id, command_kind: PeerCommandKind::SendMessage(message) }
}

fn addressees(commands: &[PeerCommand]) -> Vec<u64> {
    let mut ids: Vec<u64> = commands.iter().map(|c| c.session_id).collect();
    ids.sort();
    ids
}

#[test]
fn ticker_runs_only_with_an_interval() {
    assert_eq!(GossipService::new(GossipServiceConfig::default()).ticker_interval(), None);
    let interval = Interval { secs: 0, nanos: 1 };
    let service = GossipService::new(GossipServiceConfig { eager_requests_interval: interval });
    assert_eq!(service.ticker_interval(), Some(interval));
}

#[test]
fn head_is_mined_on_without_transactions() {
    let info = service(&[]).send_head(&forest(vec![tx(1)]));
    assert_eq!(
        info,
        MiningInfo { block_index: 5, prev_hash: hash(40), max_hash: hash(150), transactions: vec![] }
    );
}

#[test]
fn first_two_pending_transactions_are_offered() {
    let info = service(&[]).send_mining_info(&forest(vec![tx(1), tx(2), tx(3)]));
    assert_eq!(
        info,
        MiningInfo {
            block_index: 5,
            prev_hash: hash(40),
            max_hash: hash(150),
            transactions: vec![tx(1), tx(2)],
        }
    );
    let info = service(&[]).send_mining_info(&forest(vec![tx(9)]));
    assert_eq!(info.transactions, vec![tx(9)]);
}

#[test]
fn messages_ask_the_forest() {
    let mut service = service(&[1]);
    let request = VerifiedPeerMessage::Request { block_hash: hash(3) };
    assert_eq!(
        service.handle_peer_event(event(1, PeerEventKind::NewMessage(request))),
        GossipAction::FindBlock { session_id: 1, block_hash: hash(3) }
    );
    let message = VerifiedPeerMessage::Block(Box::new(block(2, 20, 10)));
    assert_eq!(
        service.handle_peer_event(event(1, PeerEventKind::NewMessage(message))),
        GossipAction::AddBlock { session_id: 1, block: Box::new(block(2, 20, 10)), parent: hash(10) }
    );
    let message = VerifiedPeerMessage::Transaction(Box::new(tx(5)));
    assert_eq!(
        service.handle_peer_event(event(1, PeerEventKind::NewMessage(message))),
        GossipAction::AddTransaction { session_id: 1, tx: Box::new(tx(5)) }
    );
    assert_eq!(
        service.handle_peer_event(event(1, PeerEventKind::Disconnected)),
        GossipAction::Idle
    );
}

#[test]
fn snapshot_is_the_head_and_then_the_pending_transactions() {
    let commands = service(&[]).send_snapshot(8, &forest(vec![tx(1), tx(2), tx(3)]));
    assert_eq!(
        commands,
        vec![
            sent(8, VerifiedPeerMessage::Block(Box::new(block(4, 40, 39)))),
            sent(8, VerifiedPeerMessage::Transaction(Box::new(tx(1)))),
            sent(8, VerifiedPeerMessage::Transaction(Box::new(tx(2)))),
            sent(8, VerifiedPeerMessage::Transaction(Box::new(tx(3)))),
        ]
    );
}

#[test]
fn request_is_answered_if_the_block_is_there() {
    let service = service(&[1, 2]);
    let found = block(3, 30, 20);
    assert_eq!(
        service.send_block(2, Some(&found)),
        vec![sent(2, VerifiedPeerMessage::Block(Box::new(block(3, 30, 20))))]
    );
    assert_eq!(service.send_block(2, None), vec![]);
}

#[test]
fn refused_block_goes_nowhere() {
    let service = service(&[1, 2]);
    let commands = service.receive_block(1, Box::new(block(3, 30, 20)), BlockOutcome::Refused);
    assert_eq!(commands, vec![]);
}

#[test]
fn block_goes_to_all_but_its_sender() {
    let service = service(&[1, 2, 3]);
    let commands = service.receive_block(
        2,
        Box::new(block(3, 30, 20)),
        BlockOutcome::Added { parent_known: true },
    );
    assert_eq!(addressees(&commands), vec![1, 3]);
    for command in &commands {
        let message = VerifiedPeerMessage::Block(Box::new(block(3, 30, 20)));
        assert_eq!(*command, sent(command.session_id, message));
    }
}

#[test]
fn missing_parent_is_requested_from_the_sender_last() {
    let service = service(&[1, 2, 3]);
    let commands = service.receive_block(
        2,
        Box::new(block(3, 30, 20)),
        BlockOutcome::Added { parent_known: false },
    );
    assert_eq!(commands.len(), 3);
    assert_eq!(addressees(&commands[..2]), vec![1, 3]);
    assert_eq!(commands[2], sent(2, VerifiedPeerMessage::Request { block_hash: hash(20) }));
}

#[test]
fn transaction_goes_to_all_but_its_sender_and_to_the_miners() {
    let service = service(&[1, 2, 3]);
    let outcome = TransactionOutcome::Added { forest: forest(vec![tx(5)]) };
    let output = service.receive_tx(3, Box::new(tx(5)), &outcome);
    assert_eq!(addressees(&output.commands), vec![1, 2]);
    for command in &output.commands {
        let message = VerifiedPeerMessage::Transaction(Box::new(tx(5)));
        assert_eq!(*command, sent(command.session_id, message));
    }
    assert_eq!(output.mining_info.unwrap().transactions, vec![tx(5)]);
}

#[test]
fn refused_transaction_goes_nowhere() {
    let output = service(&[1, 2]).receive_tx(1, Box::new(tx(5)), &TransactionOutcome::Refused);
    assert_eq!(output.commands, vec![]);
    assert_eq!(output.mining_info, None);
}

#[test]
fn mined_block_goes_to_everybody() {
    let service = service(&[1, 2]);
    let output = service.add_block(block(4, 40, 39), &forest(vec![]));
    assert_eq!(addressees(&output.commands), vec![1, 2]);
    assert_eq!(
        output.mining_info,
        Some(MiningInfo {
            block_index: 5,
            prev_hash: hash(40),
            max_hash: hash(150),
            transactions: vec![],
        })
    );
}

#[test]
fn unknown_blocks_are_requested_from_everybody() {
    let service = service(&[1, 2]);
    let commands = service.request_unknown_blocks(&vec![hash(7), hash(8)]);
    assert_eq!(commands.len(), 4);
    assert_eq!(addressees(&commands[..2]), vec![1, 2]);
    assert_eq!(addressees(&commands[2..]), vec![1, 2]);
    for command in &commands[..2] {
        let message = VerifiedPeerMessage::Request { block_hash: hash(7) };
        assert_eq!(*command, sent(command.session_id, message));
    }
    for command in &commands[2..] {
        let message = VerifiedPeerMessage::Request { block_hash: hash(8) };
        assert_eq!(*command, sent(command.session_id, message));
    }
    assert_eq!(service.request_unknown_blocks(&vec![]), vec![]);
}

#[test]
fn disconnected_session_hears_no_more() {
    let mut service = service(&[1, 2]);
    service.handle_peer_event(event(1, PeerEventKind::Disconnected));
    let output = service.add_block(block(4, 40, 39), &forest(vec![]));
    assert_eq!(addressees(&output.commands), vec![2]);
    service.handle_peer_event(event(1, PeerEventKind::Connected));
    service.handle_peer_event(event(1, PeerEventKind::Connected));
    let output = service.add_block(block(4, 40, 39), &forest(vec![]));
    assert_eq!(addressees(&output.commands), vec![1, 2]);
}
