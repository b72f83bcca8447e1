use faultycoin::data::{BlockHash, Interval, VerifiedPeerMessage};
use faultycoin::peer_service::{
    DialOutcome, PeerCommand, PeerCommandKind, PeerEvent, PeerEventKind, PeerService,
    PeerServiceConfig,
};

fn request(byte: u8) -> VerifiedPeerMessage {
    VerifiedPeerMessage::Request { block_hash: BlockHash { bytes: [byte; 64] } }
}

fn send(session_id: u64, byte: u8) -> PeerCommand {
    PeerCommand { session_id, command_kind: PeerCommandKind::SendMessage(request(byte)) }
}

fn connected(session_id: u64) -> PeerEvent {
    PeerEvent { session_id, event_kind: PeerEventKind::Connected }
}

#[test]
fn default_configuration_is_empty() {
    let config = PeerServiceConfig::default();
    assert_eq!(config.dial_cooldown, Interval { secs: 0, nanos: 0 });
    assert!(config.dial_addresses.is_empty());
    assert_eq!(config.listen_address, None);
}

#[test]
fn sessions_are_numbered_from_zero() {
    let mut service: PeerService<&str> = PeerService::new(PeerServiceConfig::default());
    assert_eq!(service.open_session("a"), connected(0));
    assert_eq!(service.open_session("b"), connected(1));
    assert_eq!(service.open_session("c"), connected(2));
}

#[test]
fn messages_reach_the_writer_of_their_session() {
    let mut service: PeerService<&str> = PeerService::new(PeerServiceConfig::default());
    service.open_session("a");
    service.open_session("b");
    assert_eq!(service.handle_command(send(1, 7)), Some((&"b", request(7))));
    assert_eq!(service.handle_command(send(0, 8)), Some((&"a", request(8))));
    assert_eq!(service.handle_command(send(2, 9)), None);
}

#[test]
fn dropped_session_gets_no_messages() {
    let mut service: PeerService<&str> = PeerService::new(PeerServiceConfig::default());
    service.open_session("a");
    service.open_session("b");
    let drop = PeerCommand { session_id: 0, command_kind: PeerCommandKind::Drop };
    assert_eq!(service.handle_command(drop.clone()), None);
    assert_eq!(service.handle_command(drop), None);
    assert_eq!(service.handle_command(send(0, 7)), None);
    assert_eq!(service.handle_command(send(1, 7)), Some((&"b", request(7))));
    assert_eq!(service.open_session("c"), connected(2));
}

#[test]
fn peers_are_dialed_in_order_until_they_are_reached() {
    let cooldown = Interval { secs: 3, nanos: 0 };
    let mut service: PeerService<u8> = PeerService::new(PeerServiceConfig {
        dial_cooldown: cooldown,
        dial_addresses: vec!["one:1".to_string(), "two:2".to_string()],
        listen_address: Some("here:3".to_string()),
    });
    assert_eq!(service.listen_address(), &Some("here:3".to_string()));
    assert_eq!(service.dial_target(), Some(&"one:1".to_string()));
    assert_eq!(service.connect_to_peer(None), DialOutcome::RetryAfter(cooldown));
    assert_eq!(service.dial_target(), Some(&"one:1".to_string()));
    assert_eq!(service.connect_to_peer(Some(10)), DialOutcome::Opened(connected(0)));
    assert_eq!(service.open_session(11), connected(1));
    assert_eq!(service.dial_target(), Some(&"two:2".to_string()));
    assert_eq!(service.connect_to_peer(Some(12)), DialOutcome::Opened(connected(2)));
    assert_eq!(service.dial_target(), None);
    assert_eq!(service.handle_command(send(2, 1)), Some((&12, request(1))));
}
