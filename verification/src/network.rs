//! The channel of one ceremony: what the rounds send is tagged and framed for
//! the gossip transport, and what the transport brings is authenticated,
//! filtered and handed to the rounds in the order of its arrival.

use crate::bytes::{append_bytes, be_bytes_u16, u16_to_be};
use crate::committee::EcdsaPublic;
use crate::ecdsa::{ecdsa_signature_valid, verify_signature};
use vstd::prelude::*;

verus! {

/// The protocol that the nodes speak with one another, unless configured
/// otherwise.
pub const NETWORK_PROTOCOL: &'static str = "/dfns/cggmp21/1.0.0";

/// How many messages of one peer wait for the rounds at most, unless the
/// channel is made with another bound.
pub const DEFAULT_PEER_CAPACITY: usize = 1024;

/// Whom a message is for.
#[derive(Clone, Copy, Debug, PartialEq, Eq)]
pub enum Recipient {
    /// Every party.
    Broadcast,
    /// The party with this index.
    To(u16),
}

/// A message on the wire.
#[derive(Clone, Debug, PartialEq, Eq)]
pub struct Envelope {
    pub execution_id: [u8; 32],
    pub sender_index: u16,
    pub recipient: Recipient,
    /// The message of the rounds; the channel does not look into it.
    pub round_payload: Vec<u8>,
    /// The sender's signature of the other fields.
    pub signature: Vec<u8>,
}

/// A message as the rounds consume it.
#[derive(Clone, Debug, PartialEq, Eq)]
pub struct Inbound {
    pub sender: u16,
    /// The round that the message belongs to.
    pub round_tag: u16,
    pub broadcast: bool,
    pub payload: Vec<u8>,
}

/// A message for the rounds as the contracts see it.
pub struct InboundView {
    pub sender: u16,
    pub round_tag: u16,
    pub broadcast: bool,
    pub payload: Seq<u8>,
}

impl View for Inbound {
    type V = InboundView;

    open spec fn view(&self) -> InboundView {
        InboundView {
            sender: self.sender,
            round_tag: self.round_tag,
            broadcast: self.broadcast,
            payload: self.payload@,
        }
    }
}

/// What became of a message that the transport brought.
#[derive(Clone, Copy, Debug, PartialEq, Eq)]
pub enum Receipt {
    /// It waits for the rounds.
    Delivered,
    /// It waits for the rounds, and the oldest waiting message of the same
    /// peer was dropped to make room: the peer is lagging.
    Lagging { peer: u16 },
    /// The same peer had already sent a message for the same round.
    Duplicate,
    /// It is not signed by the party that it names as its sender. It was
    /// discarded and counted.
    Unauthenticated,
    /// It belongs to another ceremony.
    Misrouted,
    /// It is this node's own, or for another party.
    NotAddressed,
}

/// The bytes that stand for a recipient: a zero byte for every party, a one
/// byte and the index for one party.
pub open spec fn recipient_bytes(recipient: Recipient) -> Seq<u8> {
    match recipient {
        Recipient::Broadcast => seq![0u8],
        Recipient::To(index) => seq![1u8] + be_bytes_u16(index),
    }
}

/// What the sender of a message signs: the execution id, its own index, the
/// recipient and the payload.
pub open spec fn signing_input(
    execution_id: [u8; 32],
    sender_index: u16,
    recipient: Recipient,
    round_payload: Seq<u8>,
) -> Seq<u8> {
    execution_id@ + be_bytes_u16(sender_index) + recipient_bytes(recipient) + round_payload
}

/// The bytes that the sender of a message signs.
pub fn signed_bytes(
    execution_id: &[u8; 32],
    sender_index: u16,
    recipient: Recipient,
    round_payload: &[u8],
) -> (out: Vec<u8>)
    ensures
        out@ == signing_input(*execution_id, sender_index, recipient, round_payload@),
{
    let mut out: Vec<u8> = Vec::new();
    let sender_be = u16_to_be(sender_index);
    append_bytes(&mut out, execution_id.as_slice());
    append_bytes(&mut out, sender_be.as_slice());
    match recipient {
        Recipient::Broadcast => {
            out.push(0u8);
        },
        Recipient::To(index) => {
            let index_be = u16_to_be(index);
            out.push(1u8);
            append_bytes(&mut out, index_be.as_slice());
        },
    }
    append_bytes(&mut out, round_payload);
    assert(out@ =~= signing_input(*execution_id, sender_index, recipient, round_payload@));
    out
}

/// How many of the waiting messages are from `sender`.
pub open spec fn count_from(pending: Seq<InboundView>, sender: u16) -> nat
    decreases pending.len(),
{
    if pending.len() == 0 {
        0
    } else {
        count_from(pending.drop_last(), sender) + if pending.last().sender == sender {
            1nat
        } else {
            0nat
        }
    }
}

/// Index of the first waiting message at or after `from` that is from
/// `sender`; the number of waiting messages if there is none.
pub open spec fn oldest_from(pending: Seq<InboundView>, sender: u16, from: int) -> int
    decreases pending.len() - from,
{
    if from < 0 || from >= pending.len() {
        pending.len() as int
    } else if pending[from].sender == sender {
        from
    } else {
        oldest_from(pending, sender, from + 1)
    }
}

/// The waiting messages without the oldest one from `sender`.
pub open spec fn without_oldest(pending: Seq<InboundView>, sender: u16) -> Seq<InboundView> {
    let oldest = oldest_from(pending, sender, 0);
    if oldest < pending.len() {
        pending.remove(oldest)
    } else {
        pending
    }
}

/// The waiting messages once `message` has arrived: it comes last, and if its
/// sender has `capacity` messages waiting, the oldest of them goes.
pub open spec fn enqueued(pending: Seq<InboundView>, message: InboundView, capacity: nat) -> Seq<
    InboundView,
> {
    if count_from(pending, message.sender) >= capacity {
        without_oldest(pending, message.sender).push(message)
    } else {
        pending.push(message)
    }
}

/// The views of waiting messages.
pub open spec fn inbound_views(pending: Seq<Inbound>) -> Seq<InboundView> {
    Seq::new(pending.len(), |i: int| pending[i]@)
}

/// The state of a channel.
pub struct NetworkDeliveryView {
    pub execution_id: [u8; 32],
    pub party_index: u16,
    pub parties: Seq<EcdsaPublic>,
    pub capacity: nat,
    /// The messages that wait for the rounds, in the order of their arrival.
    pub pending: Seq<InboundView>,
    /// Sender and round of every message that was accepted.
    pub seen: Set<(u16, u16)>,
    /// How many messages were discarded for want of a valid signature.
    pub rejected: nat,
}

impl NetworkDeliveryView {
    /// This node is a party, every party has an index, and no peer has more
    /// messages waiting than the bound allows.
    pub open spec fn wf(self) -> bool {
        &&& self.party_index < self.parties.len() <= u16::MAX
        &&& self.capacity >= 1
        &&& forall|sender: u16| #[trigger] count_from(self.pending, sender) <= self.capacity
    }

    /// Whether `envelope` is signed by the party that it names as its sender.
    pub open spec fn authentic(self, envelope: Envelope) -> bool {
        envelope.sender_index < self.parties.len() && ecdsa_signature_valid(
            self.parties[envelope.sender_index as int].bytes@,
            signing_input(
                envelope.execution_id,
                envelope.sender_index,
                envelope.recipient,
                envelope.round_payload@,
            ),
            envelope.signature@,
        )
    }

    /// What becomes of `envelope`, whose payload belongs to round `round_tag`
    /// and which is signed by its sender or not.
    pub open spec fn receipt_for(self, envelope: Envelope, round_tag: u16, signed_by_sender: bool) -> Receipt {
        if envelope.execution_id != self.execution_id {
            Receipt::Misrouted
        } else if envelope.sender_index == self.party_index || (envelope.recipient matches Recipient::To(
            index,
        ) && index != self.party_index) {
            Receipt::NotAddressed
        } else if envelope.sender_index >= self.parties.len() || !signed_by_sender {
            Receipt::Unauthenticated
        } else if self.seen.contains((envelope.sender_index, round_tag)) {
            Receipt::Duplicate
        } else if count_from(self.pending, envelope.sender_index) >= self.capacity {
            Receipt::Lagging { peer: envelope.sender_index }
        } else {
            Receipt::Delivered
        }
    }

    /// The channel after `envelope` was dealt with.
    pub open spec fn after(self, envelope: Envelope, round_tag: u16, receipt: Receipt) -> NetworkDeliveryView {
        match receipt {
            Receipt::Delivered | Receipt::Lagging { .. } => NetworkDeliveryView {
                pending: enqueued(
                    self.pending,
                    InboundView {
                        sender: envelope.sender_index,
                        round_tag,
                        broadcast: envelope.recipient is Broadcast,
                        payload: envelope.round_payload@,
                    },
                    self.capacity,
                ),
                seen: self.seen.insert((envelope.sender_index, round_tag)),
                ..self
            },
            Receipt::Unauthenticated => NetworkDeliveryView {
                rejected: if self.rejected < u64::MAX {
                    self.rejected + 1
                } else {
                    self.rejected
                },
                ..self
            },
            _ => self,
        }
    }
}

/// A message more means one more from its sender.
proof fn lemma_count_push(pending: Seq<InboundView>, message: InboundView, sender: u16)
    ensures
        count_from(pending.push(message), sender) == count_from(pending, sender) + if message.sender
            == sender {
            1nat
        } else {
            0nat
        },
{
    assert(pending.push(message).drop_last() =~= pending);
}

/// A message less means one less from its sender.
proof fn lemma_count_remove(pending: Seq<InboundView>, index: int, sender: u16)
    requires
        0 <= index < pending.len(),
    ensures
        count_from(pending.remove(index), sender) + (if pending[index].sender == sender {
            1nat
        } else {
            0nat
        }) == count_from(pending, sender),
    decreases pending.len(),
{
    if index == pending.len() - 1 {
        assert(pending.remove(index) =~= pending.drop_last());
    } else {
        let front = pending.drop_last();
        lemma_count_remove(front, index, sender);
        assert(pending.remove(index).drop_last() =~= front.remove(index));
        assert(pending.remove(index).last() == pending.last());
        assert(front[index] == pending[index]);
    }
}

/// Where a peer has a message waiting, its oldest one is found.
proof fn lemma_oldest_exists(pending: Seq<InboundView>, sender: u16, from: int)
    requires
        0 <= from <= pending.len(),
        exists|i: int| from <= i < pending.len() && pending[i].sender == sender,
    ensures
        from <= oldest_from(pending, sender, from) < pending.len(),
        pending[oldest_from(pending, sender, from)].sender == sender,
    decreases pending.len() - from,
{
    if pending[from].sender != sender {
        let i = choose|i: int| from <= i < pending.len() && pending[i].sender == sender;
        assert(from + 1 <= i);
        lemma_oldest_exists(pending, sender, from + 1);
    }
}

/// A peer with a message counted has a message waiting.
proof fn lemma_counted_exists(pending: Seq<InboundView>, sender: u16)
    requires
        count_from(pending, sender) > 0,
    ensures
        exists|i: int| 0 <= i < pending.len() && pending[i].sender == sender,
    decreases pending.len(),
{
    if pending.last().sender == sender {
        assert(pending[pending.len() - 1].sender == sender);
    } else {
        lemma_counted_exists(pending.drop_last(), sender);
        let i = choose|i: int|
            0 <= i < pending.drop_last().len() && pending.drop_last()[i].sender == sender;
        assert(pending[i].sender == sender);
    }
}

/// The arrival of a message keeps every peer within the bound.
proof fn lemma_enqueued_within_bound(pending: Seq<InboundView>, message: InboundView, capacity: nat)
    requires
        capacity >= 1,
        forall|sender: u16| #[trigger] count_from(pending, sender) <= capacity,
    ensures
        forall|sender: u16| #[trigger] count_from(enqueued(pending, message, capacity), sender)
            <= capacity,
{
    assert forall|sender: u16| #[trigger] count_from(
        enqueued(pending, message, capacity),
        sender,
    ) <= capacity by {
        assert(count_from(pending, sender) <= capacity);
        assert(count_from(pending, message.sender) <= capacity);
        if count_from(pending, message.sender) >= capacity {
            lemma_counted_exists(pending, message.sender);
            lemma_oldest_exists(pending, message.sender, 0);
            let oldest = oldest_from(pending, message.sender, 0);
            lemma_count_remove(pending, oldest, sender);
            lemma_count_push(pending.remove(oldest), message, sender);
        } else {
            lemma_count_push(pending, message, sender);
        }
    }
}

/// The waiting messages of `sender`, in the order of their arrival.
pub open spec fn from_sender(pending: Seq<InboundView>, sender: u16) -> Seq<InboundView>
    decreases pending.len(),
{
    if pending.len() == 0 {
        Seq::empty()
    } else if pending.last().sender == sender {
        from_sender(pending.drop_last(), sender).push(pending.last())
    } else {
        from_sender(pending.drop_last(), sender)
    }
}

/// As many messages of a sender wait as are counted for it.
proof fn lemma_from_sender_len(pending: Seq<InboundView>, sender: u16)
    ensures
        from_sender(pending, sender).len() == count_from(pending, sender),
    decreases pending.len(),
{
    if pending.len() > 0 {
        lemma_from_sender_len(pending.drop_last(), sender);
    }
}

/// Where the oldest message of a sender is, its earlier messages are none.
proof fn lemma_oldest_in_front(pending: Seq<InboundView>, sender: u16, from: int, index: int)
    requires
        0 <= from <= index < pending.len(),
        oldest_from(pending, sender, from) == index,
    ensures
        oldest_from(pending.drop_last(), sender, from) == if index < pending.len() - 1 {
            index
        } else {
            pending.len() - 1
        },
    decreases pending.len() - from,
{
    let front = pending.drop_last();
    lemma_oldest_exists_at(pending, sender, from);
    if from < index {
        lemma_oldest_in_front(pending, sender, from + 1, index);
        assert(front[from] == pending[from]);
    } else if index < pending.len() - 1 {
        assert(front[from] == pending[from]);
    }
}

/// No message of a sender waits where its oldest is not found.
proof fn lemma_none_from_sender(pending: Seq<InboundView>, sender: u16)
    requires
        oldest_from(pending, sender, 0) == pending.len(),
    ensures
        count_from(pending, sender) == 0,
{
    if count_from(pending, sender) > 0 {
        lemma_counted_exists(pending, sender);
        lemma_oldest_exists(pending, sender, 0);
    }
}

/// Without the oldest message of a sender, its other messages wait as before,
/// and so do those of every other sender.
proof fn lemma_from_sender_without_oldest(pending: Seq<InboundView>, dropped: u16, sender: u16)
    requires
        oldest_from(pending, dropped, 0) < pending.len(),
    ensures
        from_sender(without_oldest(pending, dropped), sender) == if sender == dropped {
            from_sender(pending, sender).drop_first()
        } else {
            from_sender(pending, sender)
        },
    decreases pending.len(),
{
    let index = oldest_from(pending, dropped, 0);
    lemma_oldest_exists_at(pending, dropped, 0);
    let front = pending.drop_last();
    let last = pending.last();
    lemma_oldest_in_front(pending, dropped, 0, index);
    if index == pending.len() - 1 {
        assert(pending.remove(index) =~= front);
        if sender == dropped {
            lemma_none_from_sender(front, dropped);
            lemma_from_sender_len(front, dropped);
            assert(from_sender(front, sender) =~= Seq::<InboundView>::empty());
            assert(from_sender(pending, sender).drop_first() =~= from_sender(front, sender));
        }
    } else {
        lemma_from_sender_without_oldest(front, dropped, sender);
        assert(pending.remove(index).drop_last() =~= front.remove(index));
        assert(pending.remove(index).last() == last);
        if sender == dropped && last.sender == sender {
            lemma_count_remove(front, index, dropped);
            lemma_from_sender_len(front, dropped);
            assert(from_sender(front, sender).len() >= 1);
            assert(from_sender(front, sender).drop_first().push(last) =~= from_sender(
                front,
                sender,
            ).push(last).drop_first());
        }
    }
}

/// The oldest message of a sender is from that sender.
proof fn lemma_oldest_exists_at(pending: Seq<InboundView>, sender: u16, from: int)
    requires
        0 <= from,
        oldest_from(pending, sender, from) < pending.len(),
    ensures
        from <= oldest_from(pending, sender, from),
        pending[oldest_from(pending, sender, from)].sender == sender,
    decreases pending.len() - from,
{
    if from < pending.len() && pending[from].sender != sender {
        lemma_oldest_exists_at(pending, sender, from + 1);
    }
}

/// The messages of each sender reach the rounds in the order of their
/// arrival: a message that arrives waits behind the earlier ones of its
/// sender, of which the oldest goes if the sender is at its bound, and the
/// messages of the other senders wait as before.
pub proof fn lemma_arrival_order_is_kept(
    pending: Seq<InboundView>,
    message: InboundView,
    capacity: nat,
    sender: u16,
)
    requires
        capacity >= 1,
    ensures
        from_sender(enqueued(pending, message, capacity), sender) == if sender != message.sender {
            from_sender(pending, sender)
        } else if count_from(pending, sender) >= capacity {
            from_sender(pending, sender).drop_first().push(message)
        } else {
            from_sender(pending, sender).push(message)
        },
{
    if count_from(pending, message.sender) >= capacity {
        lemma_counted_exists(pending, message.sender);
        lemma_oldest_exists(pending, message.sender, 0);
        lemma_from_sender_without_oldest(pending, message.sender, sender);
        let trimmed = without_oldest(pending, message.sender);
        assert(trimmed.push(message).drop_last() =~= trimmed);
    } else {
        assert(pending.push(message).drop_last() =~= pending);
    }
}

/// The channel of one ceremony.
#[derive(Clone, Debug, PartialEq, Eq)]
pub struct NetworkDelivery {
    execution_id: [u8; 32],
    party_index: u16,
    parties: Vec<EcdsaPublic>,
    capacity: usize,
    pending: Vec<Inbound>,
    seen: Vec<(u16, u16)>,
    rejected: u64,
}

impl View for NetworkDelivery {
    type V = NetworkDeliveryView;

    closed spec fn view(&self) -> NetworkDeliveryView {
        NetworkDeliveryView {
            execution_id: self.execution_id,
            party_index: self.party_index,
            parties: self.parties@,
            capacity: self.capacity as nat,
            pending: inbound_views(self.pending@),
            seen: Set::new(|pair: (u16, u16)| self.seen@.contains(pair)),
            rejected: self.rejected as nat,
        }
    }
}

impl NetworkDelivery {
    /// A channel for the ceremony `execution_id` among `parties`, of which
    /// this node is number `party_index`; nothing has arrived yet. None if
    /// this node is not a party, the parties are more than there are indices,
    /// or `capacity` is zero.
    pub fn new(execution_id: [u8; 32], party_index: u16, parties: Vec<EcdsaPublic>, capacity: usize) -> (out:
        Option<NetworkDelivery>)
        ensures
            match out {
                Some(channel) => channel@.wf() && channel@ == (NetworkDeliveryView {
                    execution_id,
                    party_index,
                    parties: parties@,
                    capacity: capacity as nat,
                    pending: Seq::<InboundView>::empty(),
                    seen: Set::<(u16, u16)>::empty(),
                    rejected: 0,
                }),
                None => party_index >= parties@.len() || parties@.len() > u16::MAX || capacity == 0,
            },
    {
        if party_index as usize >= parties.len() || parties.len() > 65535 || capacity == 0 {
            return None;
        }
        Some(NetworkDelivery::open(execution_id, party_index, parties, capacity))
    }

    /// A channel on which nothing has arrived yet.
    pub(crate) fn open(
        execution_id: [u8; 32],
        party_index: u16,
        parties: Vec<EcdsaPublic>,
        capacity: usize,
    ) -> (channel: NetworkDelivery)
        requires
            party_index < parties@.len() <= u16::MAX,
            capacity >= 1,
        ensures
            channel@.wf(),
            channel@ == (NetworkDeliveryView {
                execution_id,
                party_index,
                parties: parties@,
                capacity: capacity as nat,
                pending: Seq::<InboundView>::empty(),
                seen: Set::<(u16, u16)>::empty(),
                rejected: 0,
            }),
    {
        let channel = NetworkDelivery {
            execution_id,
            party_index,
            parties,
            capacity,
            pending: Vec::new(),
            seen: Vec::new(),
            rejected: 0,
        };
        proof {
            assert(channel@.pending =~= Seq::<InboundView>::empty());
            assert(channel@.seen =~= Set::<(u16, u16)>::empty());
            assert forall|sender: u16| #[trigger] count_from(channel@.pending, sender) == 0 by {}
        }
        channel
    }

    /// The ceremony that the channel is bound to.
    pub fn execution_id(&self) -> (id: [u8; 32])
        ensures
            id == self@.execution_id,
    {
        self.execution_id
    }

    /// How many messages were discarded for want of a valid signature.
    pub fn rejected(&self) -> (count: u64)
        ensures
            count == self@.rejected,
    {
        self.rejected
    }

    /// How many messages wait for the rounds.
    pub fn waiting(&self) -> (count: usize)
        ensures
            count == self@.pending.len(),
    {
        self.pending.len()
    }

    /// The fields of an outgoing message that the node signs before the
    /// message is sealed.
    pub fn outgoing(&self, recipient: Recipient, round_payload: &[u8]) -> (out: Vec<u8>)
        ensures
            out@ == signing_input(
                self@.execution_id,
                self@.party_index,
                recipient,
                round_payload@,
            ),
    {
        signed_bytes(&self.execution_id, self.party_index, recipient, round_payload)
    }

    /// The outgoing message with the node's signature: it carries the
    /// execution id of the ceremony and the index of this node.
    pub fn seal(&self, recipient: Recipient, round_payload: Vec<u8>, signature: Vec<u8>) -> (out: Envelope)
        ensures
            out.execution_id == self@.execution_id,
            out.sender_index == self@.party_index,
            out.recipient == recipient,
            out.round_payload@ == round_payload@,
            out.signature@ == signature@,
    {
        Envelope {
            execution_id: self.execution_id,
            sender_index: self.party_index,
            recipient,
            round_payload,
            signature,
        }
    }

    /// Whether a message of `sender` for round `round_tag` was accepted.
    fn has_seen(&self, sender: u16, round_tag: u16) -> (yes: bool)
        ensures
            yes == self@.seen.contains((sender, round_tag)),
    {
        let mut i: usize = 0;
        while i < self.seen.len()
            invariant
                i <= self.seen@.len(),
                forall|j: int| 0 <= j < i ==> self.seen@[j] != (sender, round_tag),
            decreases self.seen@.len() - i,
        {
            if self.seen[i].0 == sender && self.seen[i].1 == round_tag {
                assert(self.seen@[i as int] == (sender, round_tag));
                return true;
            }
            i += 1;
        }
        false
    }

    /// How many waiting messages are from `sender`, and where the oldest is.
    fn count_and_oldest(&self, sender: u16) -> (out: (usize, usize))
        ensures
            out.0 == count_from(self@.pending, sender),
            out.1 == oldest_from(self@.pending, sender, 0),
    {
        let ghost views = inbound_views(self.pending@);
        let mut count: usize = 0;
        let mut oldest: usize = self.pending.len();
        let mut i: usize = 0;
        assert(views.take(0) =~= Seq::<InboundView>::empty());
        while i < self.pending.len()
            invariant
                i <= self.pending@.len(),
                views == inbound_views(self.pending@),
                count <= i,
                count == count_from(views.take(i as int), sender),
                oldest == self.pending@.len() || oldest < i,
                oldest_from(views, sender, 0) == if oldest < i {
                    oldest as int
                } else {
                    oldest_from(views, sender, i as int)
                },
            decreases self.pending@.len() - i,
        {
            proof {
                assert(views.take(i as int + 1).drop_last() =~= views.take(i as int));
                assert(views.take(i as int + 1).last() == views[i as int]);
                assert(views[i as int].sender == self.pending@[i as int].sender);
            }
            if self.pending[i].sender == sender {
                count += 1;
                if oldest == self.pending.len() {
                    oldest = i;
                }
            }
            i += 1;
        }
        assert(views.take(i as int) =~= views);
        (count, oldest)
    }

    /// Deals with a message that the transport brought, given the round that
    /// its payload belongs to and whether its sender signed it.
    ///
    /// A message of another ceremony, of this node itself or for another party
    /// changes nothing. One that its sender did not sign is discarded and
    /// counted. Of two messages of one peer for one round the second is
    /// dropped. Every other message waits for the rounds behind those that
    /// arrived before it; if its sender has as many waiting as the bound
    /// allows, the oldest of them is dropped.
    pub fn receive_checked(&mut self, envelope: Envelope, round_tag: u16, signed_by_sender: bool) -> (receipt:
        Receipt)
        requires
            old(self)@.wf(),
        ensures
            receipt == old(self)@.receipt_for(envelope, round_tag, signed_by_sender),
            final(self)@ == old(self)@.after(envelope, round_tag, receipt),
            final(self)@.wf(),
    {
        if !same_id(&envelope.execution_id, &self.execution_id) {
            return Receipt::Misrouted;
        }
        if envelope.sender_index == self.party_index {
            return Receipt::NotAddressed;
        }
        let broadcast = match envelope.recipient {
            Recipient::Broadcast => true,
            Recipient::To(index) => {
                if index != self.party_index {
                    return Receipt::NotAddressed;
                }
                false
            },
        };
        if envelope.sender_index as usize >= self.parties.len() || !signed_by_sender {
            if self.rejected < u64::MAX {
                self.rejected = self.rejected + 1;
            }
            return Receipt::Unauthenticated;
        }
        if self.has_seen(envelope.sender_index, round_tag) {
            return Receipt::Duplicate;
        }
        let sender = envelope.sender_index;
        let (count, oldest) = self.count_and_oldest(sender);
        let ghost before = self@;
        let ghost message = InboundView {
            sender,
            round_tag,
            broadcast,
            payload: envelope.round_payload@,
        };
        proof {
            lemma_enqueued_within_bound(before.pending, message, before.capacity);
        }
        let receipt = if count >= self.capacity {
            proof {
                lemma_counted_exists(before.pending, sender);
                lemma_oldest_exists(before.pending, sender, 0);
            }
            self.pending.remove(oldest);
            assert(inbound_views(self.pending@) =~= before.pending.remove(oldest as int));
            Receipt::Lagging { peer: sender }
        } else {
            Receipt::Delivered
        };
        let ghost trimmed = inbound_views(self.pending@);
        let ghost seen_before = self.seen@;
        self.pending.push(Inbound { sender, round_tag, broadcast, payload: envelope.round_payload });
        self.seen.push((sender, round_tag));
        proof {
            assert(inbound_views(self.pending@) =~= trimmed.push(message));
            assert(self@.pending == enqueued(before.pending, message, before.capacity));
            assert forall|pair: (u16, u16)| self.seen@.contains(pair) <==> seen_before.contains(
                pair,
            ) || pair == (sender, round_tag) by {
                if seen_before.contains(pair) {
                    let i = choose|i: int| 0 <= i < seen_before.len() && seen_before[i] == pair;
                    assert(self.seen@[i] == pair);
                }
                if pair == (sender, round_tag) {
                    assert(self.seen@[seen_before.len() as int] == pair);
                }
            }
            assert(self@.seen =~= before.seen.insert((sender, round_tag)));
        }
        receipt
    }

    /// Deals with a message that the transport brought, given the round that
    /// its payload belongs to: the signature is verified against the key of
    /// the party that the message names as its sender.
    pub fn receive(&mut self, envelope: Envelope, round_tag: u16) -> (receipt: Receipt)
        requires
            old(self)@.wf(),
        ensures
            receipt == old(self)@.receipt_for(envelope, round_tag, old(self)@.authentic(envelope)),
            final(self)@ == old(self)@.after(envelope, round_tag, receipt),
            final(self)@.wf(),
    {
        let signed_by_sender = if (envelope.sender_index as usize) < self.parties.len() {
            let input = signed_bytes(
                &envelope.execution_id,
                envelope.sender_index,
                envelope.recipient,
                envelope.round_payload.as_slice(),
            );
            verify_signature(
                self.parties[envelope.sender_index as usize].bytes.as_slice(),
                input.as_slice(),
                envelope.signature.as_slice(),
            )
        } else {
            false
        };
        self.receive_checked(envelope, round_tag, signed_by_sender)
    }

    /// Hands the rounds the message that has waited longest, if any waits.
    pub fn next(&mut self) -> (out: Option<Inbound>)
        requires
            old(self)@.wf(),
        ensures
            final(self)@.wf(),
            match out {
                Some(message) => old(self)@.pending.len() > 0 && message@ == old(self)@.pending[0]
                    && final(self)@ == (NetworkDeliveryView {
                    pending: old(self)@.pending.drop_first(),
                    ..old(self)@
                }),
                None => old(self)@.pending.len() == 0 && final(self)@ == old(self)@,
            },
    {
        if self.pending.len() == 0 {
            return None;
        }
        let ghost before = self@;
        let message = self.pending.remove(0);
        proof {
            assert(inbound_views(self.pending@) =~= before.pending.drop_first());
            assert(before.pending.drop_first() =~= before.pending.remove(0));
            assert forall|sender: u16| #[trigger] count_from(self@.pending, sender)
                <= self@.capacity by {
                lemma_count_remove(before.pending, 0, sender);
                assert(count_from(before.pending, sender) <= before.capacity);
            }
        }
        Some(message)
    }
}

/// Whether two execution ids are the same.
fn same_id(a: &[u8; 32], b: &[u8; 32]) -> (same: bool)
    ensures
        same == (*a == *b),
{
    let same = crate::bytes::bytes_equal(a.as_slice(), b.as_slice());
    proof {
        if same {
            assert(*a =~= *b);
        }
    }
    same
}


/// The views of channels.
pub open spec fn channel_views(slots: Seq<NetworkDelivery>) -> Seq<NetworkDeliveryView> {
    Seq::new(slots.len(), |i: int| slots[i]@)
}

/// Index of the first channel at or after `from` that is bound to
/// `execution_id`; the number of channels if there is none.
pub open spec fn slot_of(slots: Seq<NetworkDeliveryView>, execution_id: [u8; 32], from: int) -> int
    decreases slots.len() - from,
{
    if from < 0 || from >= slots.len() {
        slots.len() as int
    } else if slots[from].execution_id == execution_id {
        from
    } else {
        slot_of(slots, execution_id, from + 1)
    }
}

/// Whether every channel is well formed and no two are bound to one ceremony.
pub open spec fn slots_wf(slots: Seq<NetworkDeliveryView>) -> bool {
    &&& forall|i: int| 0 <= i < slots.len() ==> (#[trigger] slots[i]).wf()
    &&& forall|i: int, j: int|
        0 <= i < j < slots.len() ==> (#[trigger] slots[i]).execution_id != (
        #[trigger] slots[j]).execution_id
}

/// The channels of the ceremonies that run on the node, each in the slot of
/// its execution id. What the transport brings goes to the channel of its
/// ceremony.
#[derive(Clone, Debug, PartialEq, Eq)]
pub struct Multiplexer {
    slots: Vec<NetworkDelivery>,
}

impl View for Multiplexer {
    type V = Seq<NetworkDeliveryView>;

    closed spec fn view(&self) -> Seq<NetworkDeliveryView> {
        channel_views(self.slots@)
    }
}

impl Multiplexer {
    /// A multiplexer without channels.
    pub fn new() -> (out: Multiplexer)
        ensures
            out@ == Seq::<NetworkDeliveryView>::empty(),
            slots_wf(out@),
    {
        let out = Multiplexer { slots: Vec::new() };
        assert(out@ =~= Seq::<NetworkDeliveryView>::empty());
        out
    }

    /// Where the channel of `execution_id` is, if it has one.
    fn find(&self, execution_id: &[u8; 32]) -> (out: Option<usize>)
        ensures
            match out {
                Some(index) => index == slot_of(self@, *execution_id, 0) && index < self@.len()
                    && self@[index as int].execution_id == *execution_id,
                None => slot_of(self@, *execution_id, 0) == self@.len() && forall|j: int|
                    0 <= j < self@.len() ==> (#[trigger] self@[j]).execution_id != *execution_id,
            },
    {
        let mut i: usize = 0;
        while i < self.slots.len()
            invariant
                i <= self.slots@.len(),
                slot_of(self@, *execution_id, 0) == slot_of(self@, *execution_id, i as int),
                forall|j: int| 0 <= j < i ==> (#[trigger] self@[j]).execution_id != *execution_id,
            decreases self.slots@.len() - i,
        {
            let id = self.slots[i].execution_id();
            assert(self@[i as int] == self.slots@[i as int]@);
            if same_id(&id, execution_id) {
                return Some(i);
            }
            i += 1;
        }
        None
    }

    /// Whether a ceremony has a channel.
    pub fn is_registered(&self, execution_id: &[u8; 32]) -> (yes: bool)
        ensures
            yes == (slot_of(self@, *execution_id, 0) < self@.len()),
    {
        self.find(execution_id).is_some()
    }

    /// Gives `channel` the slot of its ceremony. A channel whose ceremony has
    /// one already is handed back.
    pub fn register(&mut self, channel: NetworkDelivery) -> (out: Option<NetworkDelivery>)
        requires
            slots_wf(old(self)@),
            channel@.wf(),
        ensures
            slots_wf(final(self)@),
            match out {
                None => slot_of(old(self)@, channel@.execution_id, 0) == old(self)@.len()
                    && final(self)@ == old(self)@.push(channel@),
                Some(refused) => slot_of(old(self)@, channel@.execution_id, 0) < old(self)@.len()
                    && final(self)@ == old(self)@ && refused@ == channel@,
            },
    {
        let id = channel.execution_id();
        match self.find(&id) {
            Some(_) => Some(channel),
            None => {
                let ghost before = self@;
                self.slots.push(channel);
                assert(self@ =~= before.push(channel@));
                None
            },
        }
    }

    /// Frees the slot of a ceremony and hands out its channel; what waited in
    /// it goes with it.
    pub fn unregister(&mut self, execution_id: &[u8; 32]) -> (out: Option<NetworkDelivery>)
        requires
            slots_wf(old(self)@),
        ensures
            slots_wf(final(self)@),
            match out {
                Some(channel) => {
                    let slot = slot_of(old(self)@, *execution_id, 0);
                    &&& slot < old(self)@.len()
                    &&& channel@ == old(self)@[slot]
                    &&& final(self)@ == old(self)@.remove(slot)
                },
                None => slot_of(old(self)@, *execution_id, 0) == old(self)@.len() && final(self)@
                    == old(self)@,
            },
    {
        match self.find(execution_id) {
            None => None,
            Some(index) => {
                let ghost before = self@;
                let channel = self.slots.remove(index);
                assert(self@ =~= before.remove(index as int));
                Some(channel)
            },
        }
    }

    /// Hands a message that the transport brought to the channel of its
    /// ceremony, which deals with it; none if that ceremony has no channel.
    pub fn deliver(&mut self, envelope: Envelope, round_tag: u16) -> (out: Option<Receipt>)
        requires
            slots_wf(old(self)@),
        ensures
            slots_wf(final(self)@),
            match out {
                Some(receipt) => {
                    let slot = slot_of(old(self)@, envelope.execution_id, 0);
                    let channel = old(self)@[slot];
                    &&& slot < old(self)@.len()
                    &&& receipt == channel.receipt_for(
                        envelope,
                        round_tag,
                        channel.authentic(envelope),
                    )
                    &&& final(self)@ == old(self)@.update(
                        slot,
                        channel.after(envelope, round_tag, receipt),
                    )
                },
                None => slot_of(old(self)@, envelope.execution_id, 0) == old(self)@.len()
                    && final(self)@ == old(self)@,
            },
    {
        match self.find(&envelope.execution_id) {
            None => None,
            Some(index) => {
                let ghost before = self@;
                let mut channel = self.slots.remove(index);
                let receipt = channel.receive(envelope, round_tag);
                assert(channel@.execution_id == before[index as int].execution_id);
                self.slots.insert(index, channel);
                assert(self@ =~= before.update(index as int, channel@));
                Some(receipt)
            },
        }
    }

    /// Hands out the message that has waited longest in the channel of a
    /// ceremony; none if nothing waits there or the ceremony has no channel.
    pub fn next(&mut self, execution_id: &[u8; 32]) -> (out: Option<Inbound>)
        requires
            slots_wf(old(self)@),
        ensures
            slots_wf(final(self)@),
            ({
                let slot = slot_of(old(self)@, *execution_id, 0);
                if slot < old(self)@.len() && old(self)@[slot].pending.len() > 0 {
                    &&& out matches Some(message)
                    &&& message@ == old(self)@[slot].pending[0]
                    &&& final(self)@ == old(self)@.update(
                        slot,
                        NetworkDeliveryView {
                            pending: old(self)@[slot].pending.drop_first(),
                            ..old(self)@[slot]
                        },
                    )
                } else {
                    out is None && final(self)@ == old(self)@
                }
            }),
    {
        match self.find(execution_id) {
            None => None,
            Some(index) => {
                let ghost before = self@;
                let mut channel = self.slots.remove(index);
                let out = channel.next();
                self.slots.insert(index, channel);
                assert(self@ =~= before.update(index as int, channel@));
                out
            },
        }
    }
}

} // verus!
