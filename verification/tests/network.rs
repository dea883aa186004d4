use dfns_cggmp21_blueprint::committee::EcdsaPublic;
use dfns_cggmp21_blueprint::keygen::setup_network_party;
use dfns_cggmp21_blueprint::network::{
    signed_bytes, Envelope, Inbound, Multiplexer, NetworkDelivery, Receipt, Recipient,
};
use k256::ecdsa::signature::Signer;
use k256::ecdsa::{Signature, SigningKey};

fn peer_signer(index: u16) -> SigningKey {
    SigningKey::from_slice(&[index as u8 + 1; 32]).unwrap()
}

fn peer_key(index: u16) -> EcdsaPublic {
    let point = peer_signer(index).verifying_key().to_encoded_point(true);
    let mut bytes = [0u8; 33];
    bytes.copy_from_slice(point.as_bytes());
    EcdsaPublic { bytes }
}

fn peers(n: u16) -> Vec<EcdsaPublic> {
    (0..n).map(peer_key).collect()
}

fn ceremony(tag: u8) -> [u8; 32] {
    [tag; 32]
}

fn signed_by(
    signer: u16,
    execution_id: [u8; 32],
    sender: u16,
    recipient: Recipient,
    payload: &[u8],
) -> Envelope {
    let input = signed_bytes(&execution_id, sender, recipient, payload);
    let signature: Signature = peer_signer(signer).sign(&input);
    Envelope {
        execution_id,
        sender_index: sender,
        recipient,
        round_payload: payload.to_vec(),
        signature: signature.to_bytes().to_vec(),
    }
}

fn sent(execution_id: [u8; 32], sender: u16, recipient: Recipient, payload: &[u8]) -> Envelope {
    signed_by(sender, execution_id, sender, recipient, payload)
}

fn waiting(sender: u16, round_tag: u16, broadcast: bool, payload: &[u8]) -> Inbound {
    Inbound { sender, round_tag, broadcast, payload: payload.to_vec() }
}

#[test]
fn the_signed_bytes_hold_every_field_in_order() {
    let mut expected = vec![7u8; 32];
    expected.extend_from_slice(&[0x01, 0x02]);
    expected.push(0);
    expected.extend_from_slice(b"round");
    assert_eq!(signed_bytes(&ceremony(7), 0x0102, Recipient::Broadcast, b"round"), expected);
    let mut expected = vec![7u8; 32];
    expected.extend_from_slice(&[0x00, 0x03]);
    expected.extend_from_slice(&[1, 0x0a, 0x0b]);
    expected.extend_from_slice(b"p2p");
    assert_eq!(signed_bytes(&ceremony(7), 3, Recipient::To(0x0a0b), b"p2p"), expected);
}

#[test]
fn a_channel_needs_a_party_and_room() {
    assert!(NetworkDelivery::new(ceremony(1), 0, peers(3), 4).is_some());
    assert!(NetworkDelivery::new(ceremony(1), 2, peers(3), 1).is_some());
    assert!(NetworkDelivery::new(ceremony(1), 3, peers(3), 4).is_none());
    assert!(NetworkDelivery::new(ceremony(1), 0, peers(3), 0).is_none());
    assert!(NetworkDelivery::new(ceremony(1), 0, Vec::new(), 4).is_none());
    let channel = setup_network_party(1, ceremony(9), peers(3));
    assert_eq!(channel.execution_id(), ceremony(9));
    assert_eq!(channel.waiting(), 0);
    assert_eq!(channel.rejected(), 0);
}

#[test]
fn outgoing_messages_carry_the_ceremony_and_the_sender() {
    let channel = setup_network_party(1, ceremony(9), peers(3));
    assert_eq!(
        channel.outgoing(Recipient::To(2), b"x"),
        signed_bytes(&ceremony(9), 1, Recipient::To(2), b"x")
    );
    let envelope = channel.seal(Recipient::To(2), b"x".to_vec(), vec![1, 2, 3]);
    assert_eq!(
        envelope,
        Envelope {
            execution_id: ceremony(9),
            sender_index: 1,
            recipient: Recipient::To(2),
            round_payload: b"x".to_vec(),
            signature: vec![1, 2, 3],
        }
    );
}

#[test]
fn messages_reach_the_rounds_in_the_order_of_their_arrival() {
    let id = ceremony(9);
    let mut channel = setup_network_party(0, id, peers(3));
    assert_eq!(channel.receive(sent(id, 1, Recipient::Broadcast, b"a"), 1), Receipt::Delivered);
    assert_eq!(channel.receive(sent(id, 2, Recipient::To(0), b"b"), 1), Receipt::Delivered);
    assert_eq!(channel.receive(sent(id, 1, Recipient::To(0), b"c"), 2), Receipt::Delivered);
    assert_eq!(channel.waiting(), 3);
    assert_eq!(channel.next(), Some(waiting(1, 1, true, b"a")));
    assert_eq!(channel.next(), Some(waiting(2, 1, false, b"b")));
    assert_eq!(channel.next(), Some(waiting(1, 2, false, b"c")));
    assert_eq!(channel.next(), None);
    assert_eq!(channel.rejected(), 0);
}

#[test]
fn a_second_message_of_a_peer_for_a_round_is_dropped() {
    let id = ceremony(9);
    let mut channel = setup_network_party(0, id, peers(3));
    assert_eq!(channel.receive(sent(id, 1, Recipient::Broadcast, b"a"), 1), Receipt::Delivered);
    assert_eq!(channel.receive(sent(id, 1, Recipient::Broadcast, b"a"), 1), Receipt::Duplicate);
    assert_eq!(channel.receive(sent(id, 1, Recipient::Broadcast, b"other"), 1), Receipt::Duplicate);
    assert_eq!(channel.next(), Some(waiting(1, 1, true, b"a")));
    assert_eq!(channel.receive(sent(id, 1, Recipient::Broadcast, b"a"), 1), Receipt::Duplicate);
    assert_eq!(channel.receive(sent(id, 2, Recipient::Broadcast, b"a"), 1), Receipt::Delivered);
    assert_eq!(channel.receive(sent(id, 1, Recipient::Broadcast, b"a"), 2), Receipt::Delivered);
    assert_eq!(channel.waiting(), 2);
}

#[test]
fn messages_that_their_sender_did_not_sign_are_discarded_and_counted() {
    let id = ceremony(9);
    let mut channel = setup_network_party(0, id, peers(3));
    let forged = signed_by(2, id, 1, Recipient::Broadcast, b"a");
    assert_eq!(channel.receive(forged, 1), Receipt::Unauthenticated);
    let mut altered = sent(id, 1, Recipient::Broadcast, b"a");
    altered.round_payload = b"b".to_vec();
    assert_eq!(channel.receive(altered, 1), Receipt::Unauthenticated);
    let mut redirected = sent(id, 1, Recipient::Broadcast, b"a");
    redirected.recipient = Recipient::To(0);
    assert_eq!(channel.receive(redirected, 1), Receipt::Unauthenticated);
    let mut unsigned = sent(id, 1, Recipient::Broadcast, b"a");
    unsigned.signature = Vec::new();
    assert_eq!(channel.receive(unsigned, 1), Receipt::Unauthenticated);
    let stranger = signed_by(1, id, 3, Recipient::Broadcast, b"a");
    assert_eq!(channel.receive(stranger, 1), Receipt::Unauthenticated);
    assert_eq!(channel.rejected(), 5);
    assert_eq!(channel.waiting(), 0);
    assert_eq!(channel.receive(sent(id, 1, Recipient::Broadcast, b"a"), 1), Receipt::Delivered);
    assert_eq!(channel.rejected(), 5);
}

#[test]
fn messages_of_other_ceremonies_and_for_other_parties_change_nothing() {
    let id = ceremony(9);
    let mut channel = setup_network_party(0, id, peers(3));
    let before = channel.clone();
    assert_eq!(
        channel.receive(sent(ceremony(8), 1, Recipient::Broadcast, b"a"), 1),
        Receipt::Misrouted
    );
    assert_eq!(channel.receive(sent(id, 1, Recipient::To(2), b"a"), 1), Receipt::NotAddressed);
    assert_eq!(channel.receive(sent(id, 0, Recipient::Broadcast, b"a"), 1), Receipt::NotAddressed);
    assert_eq!(channel, before);
}

#[test]
fn a_lagging_peer_loses_its_oldest_message() {
    let id = ceremony(9);
    let mut channel = NetworkDelivery::new(id, 0, peers(3), 2).unwrap();
    assert_eq!(channel.receive(sent(id, 1, Recipient::Broadcast, b"1"), 1), Receipt::Delivered);
    assert_eq!(channel.receive(sent(id, 2, Recipient::Broadcast, b"x"), 1), Receipt::Delivered);
    assert_eq!(channel.receive(sent(id, 1, Recipient::Broadcast, b"2"), 2), Receipt::Delivered);
    assert_eq!(
        channel.receive(sent(id, 1, Recipient::Broadcast, b"3"), 3),
        Receipt::Lagging { peer: 1 }
    );
    assert_eq!(channel.waiting(), 3);
    assert_eq!(channel.receive(sent(id, 2, Recipient::Broadcast, b"y"), 2), Receipt::Delivered);
    assert_eq!(channel.next(), Some(waiting(2, 1, true, b"x")));
    assert_eq!(channel.next(), Some(waiting(1, 2, true, b"2")));
    assert_eq!(channel.next(), Some(waiting(1, 3, true, b"3")));
    assert_eq!(channel.next(), Some(waiting(2, 2, true, b"y")));
    assert_eq!(channel.next(), None);
    assert_eq!(channel.receive(sent(id, 1, Recipient::Broadcast, b"1"), 1), Receipt::Duplicate);
}

#[test]
fn what_is_done_with_a_message_follows_from_whether_it_is_signed() {
    let id = ceremony(9);
    let mut channel = NetworkDelivery::new(id, 0, peers(3), 1).unwrap();
    let unsigned = Envelope {
        execution_id: id,
        sender_index: 1,
        recipient: Recipient::Broadcast,
        round_payload: b"a".to_vec(),
        signature: Vec::new(),
    };
    assert_eq!(channel.receive_checked(unsigned.clone(), 1, false), Receipt::Unauthenticated);
    assert_eq!(channel.receive_checked(unsigned.clone(), 1, true), Receipt::Delivered);
    assert_eq!(channel.receive_checked(unsigned.clone(), 1, true), Receipt::Duplicate);
    assert_eq!(channel.receive_checked(unsigned.clone(), 2, true), Receipt::Lagging { peer: 1 });
    let mut stranger = unsigned.clone();
    stranger.sender_index = 3;
    assert_eq!(channel.receive_checked(stranger, 1, true), Receipt::Unauthenticated);
    assert_eq!(channel.rejected(), 2);
    assert_eq!(channel.next(), Some(waiting(1, 2, true, b"a")));
    assert_eq!(channel.next(), None);
}

#[test]
fn the_multiplexer_hands_each_message_to_the_channel_of_its_ceremony() {
    let mut mux = Multiplexer::new();
    assert!(mux.register(setup_network_party(0, ceremony(1), peers(3))).is_none());
    assert!(mux.register(setup_network_party(0, ceremony(2), peers(3))).is_none());
    assert!(mux.register(setup_network_party(1, ceremony(1), peers(3))).is_some());
    assert!(mux.is_registered(&ceremony(1)));
    assert!(!mux.is_registered(&ceremony(3)));
    assert_eq!(
        mux.deliver(sent(ceremony(2), 1, Recipient::Broadcast, b"two"), 1),
        Some(Receipt::Delivered)
    );
    assert_eq!(
        mux.deliver(sent(ceremony(1), 2, Recipient::To(0), b"one"), 1),
        Some(Receipt::Delivered)
    );
    assert_eq!(mux.deliver(sent(ceremony(3), 1, Recipient::Broadcast, b"three"), 1), None);
    assert_eq!(mux.next(&ceremony(1)), Some(waiting(2, 1, false, b"one")));
    assert_eq!(mux.next(&ceremony(1)), None);
    assert_eq!(mux.next(&ceremony(3)), None);
    let closed = mux.unregister(&ceremony(2)).unwrap();
    assert_eq!(closed.execution_id(), ceremony(2));
    assert_eq!(closed.waiting(), 1);
    assert!(!mux.is_registered(&ceremony(2)));
    assert!(mux.unregister(&ceremony(2)).is_none());
    assert_eq!(mux.deliver(sent(ceremony(2), 1, Recipient::Broadcast, b"late"), 2), None);
    assert!(mux.is_registered(&ceremony(1)));
}
