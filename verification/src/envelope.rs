//! Messages as bytes on the wire: the execution id, the index of the sender,
//! the recipient, the payload and the signature, the last two as fields.

use crate::bytes::{append_bytes, be_bytes_u16};
use crate::network::{recipient_bytes, Envelope, Recipient};
use crate::wire::{
    field, lemma_field_round_trip, lemma_field_sound, lemma_u16_round_trip, lemma_u16_sound,
    parse_exact, parse_field, parse_u16, parse_u8, read_field, read_u16, read_u8, write_field,
    write_u16,
};
use vstd::prelude::*;

verus! {

/// A message on the wire as the contracts see it.
pub struct EnvelopeView {
    pub execution_id: [u8; 32],
    pub sender_index: u16,
    pub recipient: Recipient,
    pub round_payload: Seq<u8>,
    pub signature: Seq<u8>,
}

impl View for Envelope {
    type V = EnvelopeView;

    open spec fn view(&self) -> EnvelopeView {
        EnvelopeView {
            execution_id: self.execution_id,
            sender_index: self.sender_index,
            recipient: self.recipient,
            round_payload: self.round_payload@,
            signature: self.signature@,
        }
    }
}

/// The execution id with the given bytes.
pub open spec fn id_of(bytes: Seq<u8>) -> [u8; 32] {
    choose|id: [u8; 32]| id@ == bytes
}

/// Whether a message can be written: payload and signature announce their
/// lengths in four bytes each.
pub open spec fn fits_the_wire(envelope: EnvelopeView) -> bool {
    envelope.round_payload.len() <= u32::MAX && envelope.signature.len() <= u32::MAX
}

/// A message on the wire.
pub open spec fn envelope_bytes(envelope: EnvelopeView) -> Seq<u8> {
    envelope.execution_id@ + be_bytes_u16(envelope.sender_index) + recipient_bytes(
        envelope.recipient,
    ) + field(envelope.round_payload) + field(envelope.signature)
}

/// Reads a recipient.
pub open spec fn parse_recipient(b: Seq<u8>) -> Option<(Recipient, Seq<u8>)> {
    match parse_u8(b) {
        None => None,
        Some((tag, rest)) => if tag == 0 {
            Some((Recipient::Broadcast, rest))
        } else if tag == 1 {
            match parse_u16(rest) {
                None => None,
                Some((index, rest)) => Some((Recipient::To(index), rest)),
            }
        } else {
            None
        },
    }
}

/// The message that bytes on the wire are, if they are one: nothing may
/// follow the signature.
pub open spec fn parse_envelope(b: Seq<u8>) -> Option<EnvelopeView> {
    match parse_exact(b, 32) {
        None => None,
        Some((id, rest)) => match parse_u16(rest) {
            None => None,
            Some((sender_index, rest)) => match parse_recipient(rest) {
                None => None,
                Some((recipient, rest)) => match parse_field(rest) {
                    None => None,
                    Some((round_payload, rest)) => match parse_field(rest) {
                        None => None,
                        Some((signature, rest)) => if rest.len() == 0 {
                            Some(
                                EnvelopeView {
                                    execution_id: id_of(id),
                                    sender_index,
                                    recipient,
                                    round_payload,
                                    signature,
                                },
                            )
                        } else {
                            None
                        },
                    },
                },
            },
        },
    }
}

/// What was written as a recipient is read as that recipient.
proof fn lemma_recipient_round_trip(recipient: Recipient, tail: Seq<u8>)
    ensures
        parse_recipient(recipient_bytes(recipient) + tail) == Some((recipient, tail)),
{
    let b = recipient_bytes(recipient) + tail;
    match recipient {
        Recipient::Broadcast => {
            assert(b.skip(1) =~= tail);
        },
        Recipient::To(index) => {
            assert(b.skip(1) =~= be_bytes_u16(index) + tail);
            lemma_u16_round_trip(index, tail);
        },
    }
}

/// What is read as a recipient was written as that recipient.
proof fn lemma_recipient_sound(b: Seq<u8>)
    ensures
        parse_recipient(b) matches Some((recipient, rest)) ==> b == recipient_bytes(recipient)
            + rest,
{
    if let Some((recipient, rest)) = parse_recipient(b) {
        match recipient {
            Recipient::Broadcast => {
                assert(b =~= recipient_bytes(recipient) + rest);
            },
            Recipient::To(index) => {
                lemma_u16_sound(b.skip(1));
                assert(b =~= seq![1u8] + b.skip(1));
                assert(b =~= recipient_bytes(recipient) + rest);
            },
        }
    }
}

/// A message that was written is read as it was.
pub proof fn lemma_envelope_round_trip(envelope: EnvelopeView)
    requires
        fits_the_wire(envelope),
    ensures
        parse_envelope(envelope_bytes(envelope)) == Some(envelope),
{
    let id = envelope.execution_id@;
    let sender = be_bytes_u16(envelope.sender_index);
    let recipient = recipient_bytes(envelope.recipient);
    let payload = field(envelope.round_payload);
    let signature = field(envelope.signature);
    let b = envelope_bytes(envelope);
    let empty = Seq::<u8>::empty();
    assert(b =~= id + (sender + (recipient + (payload + (signature + empty)))));
    assert(b.take(32) =~= id);
    assert(b.skip(32) =~= sender + (recipient + (payload + (signature + empty))));
    lemma_u16_round_trip(envelope.sender_index, recipient + (payload + (signature + empty)));
    lemma_recipient_round_trip(envelope.recipient, payload + (signature + empty));
    lemma_field_round_trip(envelope.round_payload, signature + empty);
    lemma_field_round_trip(envelope.signature, empty);
    let found = id_of(id);
    assert(found@ == envelope.execution_id@);
    assert(found =~= envelope.execution_id);
}

/// Five parts in a row, whichever way they are joined.
proof fn lemma_joined(a: Seq<u8>, b: Seq<u8>, c: Seq<u8>, d: Seq<u8>, e: Seq<u8>)
    ensures
        a + (b + (c + (d + (e + Seq::<u8>::empty())))) == a + b + c + d + e,
{
    assert(a + (b + (c + (d + (e + Seq::<u8>::empty())))) =~= a + b + c + d + e);
}

/// Bytes that are read as a message are that message as it is written: a
/// message has one form on the wire.
pub proof fn lemma_envelope_sound(b: Seq<u8>)
    ensures
        parse_envelope(b) matches Some(envelope) ==> b == envelope_bytes(envelope) && fits_the_wire(
            envelope,
        ) && envelope.execution_id@ == b.take(32),
{
    if let Some(envelope) = parse_envelope(b) {
        let (id, rest1) = parse_exact(b, 32)->Some_0;
        let (sender_index, rest2) = parse_u16(rest1)->Some_0;
        let (recipient, rest3) = parse_recipient(rest2)->Some_0;
        let (round_payload, rest4) = parse_field(rest3)->Some_0;
        let (signature, rest5) = parse_field(rest4)->Some_0;
        let empty = Seq::<u8>::empty();
        assert(b == id + rest1) by {
            assert(b =~= b.take(32) + b.skip(32));
        }
        assert(rest1 == be_bytes_u16(sender_index) + rest2) by {
            lemma_u16_sound(rest1);
        }
        assert(rest2 == recipient_bytes(recipient) + rest3) by {
            lemma_recipient_sound(rest2);
        }
        assert(rest3 == field(round_payload) + rest4 && round_payload.len() <= u32::MAX) by {
            lemma_field_sound(rest3);
        }
        assert(rest4 == field(signature) + rest5 && signature.len() <= u32::MAX) by {
            lemma_field_sound(rest4);
        }
        assert(rest5 == empty) by {
            assert(rest5 =~= empty);
        }
        assert(envelope.execution_id@ == id) by {
            lemma_id_exists(id);
        }
        lemma_joined(
            id,
            be_bytes_u16(sender_index),
            recipient_bytes(recipient),
            field(round_payload),
            field(signature),
        );
    }
}

/// An execution id whose first `k` bytes are those of `bytes`.
proof fn id_with_prefix(bytes: Seq<u8>, k: int) -> (id: [u8; 32])
    requires
        0 <= k <= 32,
        bytes.len() == 32,
    ensures
        forall|j: int| 0 <= j < k ==> id@[j] == bytes[j],
    decreases k,
{
    if k == 0 {
        arbitrary()
    } else {
        let shorter = id_with_prefix(bytes, k - 1);
        let id = vstd::array::spec_array_update(shorter, k - 1, bytes[k - 1]);
        assert forall|j: int| 0 <= j < k implies id@[j] == bytes[j] by {
            if j < k - 1 {
                assert(shorter@[j] == bytes[j]);
            }
        }
        id
    }
}

/// Thirty-two bytes are the bytes of an execution id.
proof fn lemma_id_exists(bytes: Seq<u8>)
    requires
        bytes.len() == 32,
    ensures
        id_of(bytes)@ == bytes,
{
    let id = id_with_prefix(bytes, 32);
    assert(id@ =~= bytes);
}

/// Writes a message; none if its payload or its signature is too long to
/// announce its length.
pub fn encode_envelope(envelope: &Envelope) -> (out: Option<Vec<u8>>)
    ensures
        match out {
            Some(bytes) => fits_the_wire(envelope@) && bytes@ == envelope_bytes(envelope@),
            None => !fits_the_wire(envelope@),
        },
{
    if envelope.round_payload.len() > 0xffff_ffff || envelope.signature.len() > 0xffff_ffff {
        return None;
    }
    let mut bytes: Vec<u8> = Vec::new();
    append_bytes(&mut bytes, envelope.execution_id.as_slice());
    write_u16(&mut bytes, envelope.sender_index);
    match envelope.recipient {
        Recipient::Broadcast => {
            bytes.push(0u8);
        },
        Recipient::To(index) => {
            bytes.push(1u8);
            write_u16(&mut bytes, index);
        },
    }
    assert(bytes@ =~= envelope.execution_id@ + be_bytes_u16(envelope.sender_index) + recipient_bytes(
        envelope.recipient,
    ));
    write_field(&mut bytes, envelope.round_payload.as_slice());
    write_field(&mut bytes, envelope.signature.as_slice());
    Some(bytes)
}

/// Reads a recipient at `pos`.
fn read_recipient(bytes: &[u8], pos: usize) -> (out: Option<(Recipient, usize)>)
    requires
        pos <= bytes@.len(),
    ensures
        match out {
            Some((value, next)) => pos <= next <= bytes@.len() && parse_recipient(
                bytes@.skip(pos as int),
            ) == Some((value, bytes@.skip(next as int))),
            None => parse_recipient(bytes@.skip(pos as int)) is None,
        },
{
    let (tag, after) = match read_u8(bytes, pos) {
        Some(read) => read,
        None => {
            return None;
        },
    };
    if tag == 0 {
        Some((Recipient::Broadcast, after))
    } else if tag == 1 {
        match read_u16(bytes, after) {
            Some((index, next)) => Some((Recipient::To(index), next)),
            None => None,
        }
    } else {
        None
    }
}

/// Reads a message from the wire: the message whose written form the bytes
/// are, if there is one.
pub fn decode_envelope(bytes: &[u8]) -> (out: Option<Envelope>)
    ensures
        match out {
            Some(envelope) => parse_envelope(bytes@) == Some(envelope@),
            None => parse_envelope(bytes@) is None,
        },
{
    if bytes.len() < 32 {
        return None;
    }
    let mut execution_id = [0u8; 32];
    let mut i: usize = 0;
    while i < 32
        invariant
            i <= 32,
            32 <= bytes@.len(),
            forall|j: int| 0 <= j < i ==> execution_id@[j] == bytes@[j],
        decreases 32 - i,
    {
        execution_id[i] = bytes[i];
        i += 1;
    }
    proof {
        assert(bytes@.skip(0) =~= bytes@);
        assert(execution_id@ =~= bytes@.take(32));
        let found = id_of(bytes@.take(32));
        assert(found@ == execution_id@);
        assert(found =~= execution_id);
    }
    let (sender_index, pos) = match read_u16(bytes, 32) {
        Some(read) => read,
        None => {
            return None;
        },
    };
    let (recipient, pos) = match read_recipient(bytes, pos) {
        Some(read) => read,
        None => {
            return None;
        },
    };
    let (round_payload, pos) = match read_field(bytes, pos) {
        Some(read) => read,
        None => {
            return None;
        },
    };
    let (signature, pos) = match read_field(bytes, pos) {
        Some(read) => read,
        None => {
            return None;
        },
    };
    if pos != bytes.len() {
        return None;
    }
    Some(Envelope { execution_id, sender_index, recipient, round_payload, signature })
}

} // verus!
