//! The record of a lineage as bytes, as it is kept on disk: a version byte,
//! then what key generation left, the auxiliary share and the refreshed share,
//! each announced by a byte that says whether it is there. Secrets are written
//! as fields of their exact length; nothing follows the last field.

use crate::bytes::{append_bytes, be_bytes_u16};
use crate::committee::EcdsaPublic;
use crate::context::{
    CoreKeyShare, CoreKeyShareView, DfnsStore, DfnsStoreView, KeyShare, KeyShareView, KeygenOutput,
    KeygenOutputView, PublicKey,
};
use crate::error::Error;
use crate::wire::{
    field, lemma_field_round_trip, lemma_field_sound, lemma_key_round_trip, lemma_key_sound,
    lemma_u16_round_trip, lemma_u16_sound, parse_field, parse_key, parse_u16, parse_u8, read_field,
    read_key, read_u16, read_u8, write_field, write_u16,
};
use vstd::prelude::*;

verus! {

/// The version of the format.
pub const FORMAT_VERSION: u8 = 1;

/// Keys in a row.
pub open spec fn keys_bytes(keys: Seq<EcdsaPublic>) -> Seq<u8>
    decreases keys.len(),
{
    if keys.len() == 0 {
        Seq::empty()
    } else {
        keys_bytes(keys.drop_last()) + keys.last().bytes@
    }
}

/// Reads `count` keys.
pub open spec fn parse_keys(b: Seq<u8>, count: nat) -> Option<(Seq<EcdsaPublic>, Seq<u8>)>
    decreases count,
{
    if count == 0 {
        Some((Seq::empty(), b))
    } else {
        match parse_keys(b, (count - 1) as nat) {
            None => None,
            Some((keys, rest)) => match parse_key(rest) {
                None => None,
                Some((key, rest)) => Some((keys.push(key), rest)),
            },
        }
    }
}

/// Whether a core share can be written: its public shares are counted in two
/// bytes, its secret announces its length in four.
pub open spec fn core_fits(share: CoreKeyShareView) -> bool {
    share.public_shares.len() <= u16::MAX && share.secret_share.len() <= u32::MAX
}

/// A core share: the threshold, the public key, the number of public shares,
/// the public shares and the secret share as a field.
pub open spec fn core_bytes(share: CoreKeyShareView) -> Seq<u8> {
    be_bytes_u16(share.min_signers) + share.shared_public_key.bytes@ + be_bytes_u16(
        share.public_shares.len() as u16,
    ) + keys_bytes(share.public_shares) + field(share.secret_share)
}

/// Reads a core share.
pub open spec fn parse_core(b: Seq<u8>) -> Option<(CoreKeyShareView, Seq<u8>)> {
    match parse_u16(b) {
        None => None,
        Some((min_signers, rest)) => match parse_key(rest) {
            None => None,
            Some((shared_public_key, rest)) => match parse_u16(rest) {
                None => None,
                Some((count, rest)) => match parse_keys(rest, count as nat) {
                    None => None,
                    Some((public_shares, rest)) => match parse_field(rest) {
                        None => None,
                        Some((secret_share, rest)) => Some(
                            (
                                CoreKeyShareView {
                                    min_signers,
                                    shared_public_key,
                                    public_shares,
                                    secret_share,
                                },
                                rest,
                            ),
                        ),
                    },
                },
            },
        },
    }
}

/// The core share that a share was made from.
pub open spec fn core_of(share: KeyShareView) -> CoreKeyShareView {
    CoreKeyShareView {
        min_signers: share.min_signers,
        shared_public_key: share.shared_public_key,
        public_shares: share.public_shares,
        secret_share: share.secret_share,
    }
}

/// Whether a share can be written.
pub open spec fn share_fits(share: KeyShareView) -> bool {
    core_fits(core_of(share)) && share.aux_info.len() <= u32::MAX
}

/// A share: its core share, then the auxiliary information as a field.
pub open spec fn share_bytes(share: KeyShareView) -> Seq<u8> {
    core_bytes(core_of(share)) + field(share.aux_info)
}

/// Reads a share.
pub open spec fn parse_share(b: Seq<u8>) -> Option<(KeyShareView, Seq<u8>)> {
    match parse_core(b) {
        None => None,
        Some((core, rest)) => match parse_field(rest) {
            None => None,
            Some((aux_info, rest)) => Some((core.with_aux(aux_info), rest)),
        },
    }
}

/// Whether the output of key generation can be written.
pub open spec fn output_fits(output: KeygenOutputView) -> bool {
    output.pregenerated_primes.len() <= u32::MAX && core_fits(output.core_key_share)
}

/// The output of key generation: the primes as a field, the core share and the
/// public key.
pub open spec fn output_bytes(output: KeygenOutputView) -> Seq<u8> {
    field(output.pregenerated_primes) + core_bytes(output.core_key_share)
        + output.public_key.shared_public_key.bytes@
}

/// Reads the output of key generation.
pub open spec fn parse_output(b: Seq<u8>) -> Option<(KeygenOutputView, Seq<u8>)> {
    match parse_field(b) {
        None => None,
        Some((pregenerated_primes, rest)) => match parse_core(rest) {
            None => None,
            Some((core_key_share, rest)) => match parse_key(rest) {
                None => None,
                Some((shared_public_key, rest)) => Some(
                    (
                        KeygenOutputView {
                            pregenerated_primes,
                            core_key_share,
                            public_key: PublicKey { shared_public_key },
                        },
                        rest,
                    ),
                ),
            },
        },
    }
}

/// A share that may be absent: a zero byte, or a one byte and the share.
pub open spec fn optional_share_bytes(share: Option<KeyShareView>) -> Seq<u8> {
    match share {
        None => seq![0u8],
        Some(share) => seq![1u8] + share_bytes(share),
    }
}

/// Reads a share that may be absent.
pub open spec fn parse_optional_share(b: Seq<u8>) -> Option<(Option<KeyShareView>, Seq<u8>)> {
    match parse_u8(b) {
        None => None,
        Some((tag, rest)) => if tag == 0 {
            Some((None, rest))
        } else if tag == 1 {
            match parse_share(rest) {
                None => None,
                Some((share, rest)) => Some((Some(share), rest)),
            }
        } else {
            None
        },
    }
}

/// An output of key generation that may be absent: a zero byte, or a one byte
/// and the output.
pub open spec fn optional_output_bytes(output: Option<KeygenOutputView>) -> Seq<u8> {
    match output {
        None => seq![0u8],
        Some(output) => seq![1u8] + output_bytes(output),
    }
}

/// Reads an output of key generation that may be absent.
pub open spec fn parse_optional_output(b: Seq<u8>) -> Option<(Option<KeygenOutputView>, Seq<u8>)> {
    match parse_u8(b) {
        None => None,
        Some((tag, rest)) => if tag == 0 {
            Some((None, rest))
        } else if tag == 1 {
            match parse_output(rest) {
                None => None,
                Some((output, rest)) => Some((Some(output), rest)),
            }
        } else {
            None
        },
    }
}

/// Whether a record can be written.
pub open spec fn record_fits(record: DfnsStoreView) -> bool {
    &&& record.keygen_output matches Some(output) ==> output_fits(output)
    &&& record.aux_keyshare matches Some(share) ==> share_fits(share)
    &&& record.refreshed_key matches Some(share) ==> share_fits(share)
}

/// A record: the version, then what key generation left, the auxiliary share
/// and the refreshed share.
pub open spec fn record_bytes(record: DfnsStoreView) -> Seq<u8> {
    seq![FORMAT_VERSION] + optional_output_bytes(record.keygen_output) + optional_share_bytes(
        record.aux_keyshare,
    ) + optional_share_bytes(record.refreshed_key)
}

/// The record that bytes are, if they are one of this version: nothing may
/// follow the refreshed share.
pub open spec fn parse_record(b: Seq<u8>) -> Option<DfnsStoreView> {
    match parse_u8(b) {
        None => None,
        Some((version, rest)) => if version != FORMAT_VERSION {
            None
        } else {
            match parse_optional_output(rest) {
                None => None,
                Some((keygen_output, rest)) => match parse_optional_share(rest) {
                    None => None,
                    Some((aux_keyshare, rest)) => match parse_optional_share(rest) {
                        None => None,
                        Some((refreshed_key, rest)) => if rest.len() == 0 {
                            Some(DfnsStoreView { keygen_output, aux_keyshare, refreshed_key })
                        } else {
                            None
                        },
                    },
                },
            }
        },
    }
}

proof fn lemma_keys_round_trip(keys: Seq<EcdsaPublic>, tail: Seq<u8>)
    ensures
        parse_keys(keys_bytes(keys) + tail, keys.len()) == Some((keys, tail)),
    decreases keys.len(),
{
    if keys.len() == 0 {
        assert(keys_bytes(keys) + tail =~= tail);
        assert(keys =~= Seq::<EcdsaPublic>::empty());
    } else {
        let front = keys.drop_last();
        let last = keys.last();
        lemma_keys_round_trip(front, last.bytes@ + tail);
        assert(keys_bytes(keys) + tail =~= keys_bytes(front) + (last.bytes@ + tail));
        lemma_key_round_trip(last, tail);
        assert(front.push(last) =~= keys);
    }
}

proof fn lemma_keys_sound(b: Seq<u8>, count: nat)
    ensures
        parse_keys(b, count) matches Some((keys, rest)) ==> b == keys_bytes(keys) + rest
            && keys.len() == count,
    decreases count,
{
    if let Some((keys, rest)) = parse_keys(b, count) {
        if count == 0 {
            assert(b =~= keys_bytes(keys) + rest);
        } else {
            lemma_keys_sound(b, (count - 1) as nat);
            let (front, middle) = parse_keys(b, (count - 1) as nat)->Some_0;
            let (key, after) = parse_key(middle)->Some_0;
            lemma_key_sound(middle);
            assert(keys.drop_last() =~= front);
            assert(b =~= keys_bytes(keys) + rest);
        }
    }
}

proof fn lemma_keys_stay_unread(b: Seq<u8>, read: nat, count: nat)
    requires
        parse_keys(b, read) is None,
        read <= count,
    ensures
        parse_keys(b, count) is None,
    decreases count,
{
    if read < count {
        lemma_keys_stay_unread(b, read, (count - 1) as nat);
    }
}

proof fn lemma_core_round_trip(share: CoreKeyShareView, tail: Seq<u8>)
    requires
        core_fits(share),
    ensures
        parse_core(core_bytes(share) + tail) == Some((share, tail)),
{
    let count = be_bytes_u16(share.public_shares.len() as u16);
    let keys = keys_bytes(share.public_shares);
    let secret = field(share.secret_share);
    let key = share.shared_public_key.bytes@;
    assert(core_bytes(share) + tail =~= be_bytes_u16(share.min_signers) + (key + (count + (keys + (
        secret + tail)))));
    lemma_u16_round_trip(share.min_signers, key + (count + (keys + (secret + tail))));
    lemma_key_round_trip(share.shared_public_key, count + (keys + (secret + tail)));
    lemma_u16_round_trip(share.public_shares.len() as u16, keys + (secret + tail));
    lemma_keys_round_trip(share.public_shares, secret + tail);
    lemma_field_round_trip(share.secret_share, tail);
}

proof fn lemma_core_sound(b: Seq<u8>)
    ensures
        parse_core(b) matches Some((share, rest)) ==> b == core_bytes(share) + rest && core_fits(
            share,
        ),
{
    if let Some((share, rest)) = parse_core(b) {
        let (min_signers, rest1) = parse_u16(b)->Some_0;
        let (key, rest2) = parse_key(rest1)->Some_0;
        let (count, rest3) = parse_u16(rest2)->Some_0;
        let (keys, rest4) = parse_keys(rest3, count as nat)->Some_0;
        let (secret, rest5) = parse_field(rest4)->Some_0;
        assert(b == be_bytes_u16(min_signers) + rest1) by {
            lemma_u16_sound(b);
        }
        assert(rest1 == key.bytes@ + rest2) by {
            lemma_key_sound(rest1);
        }
        assert(rest2 == be_bytes_u16(count) + rest3) by {
            lemma_u16_sound(rest2);
        }
        assert(rest3 == keys_bytes(keys) + rest4 && keys.len() == count) by {
            lemma_keys_sound(rest3, count as nat);
        }
        assert(rest4 == field(secret) + rest5 && secret.len() <= u32::MAX) by {
            lemma_field_sound(rest4);
        }
        assert(be_bytes_u16(min_signers) + (key.bytes@ + (be_bytes_u16(count) + (keys_bytes(keys) + (
            field(secret) + rest)))) =~= core_bytes(share) + rest);
    }
}

proof fn lemma_share_round_trip(share: KeyShareView, tail: Seq<u8>)
    requires
        share_fits(share),
    ensures
        parse_share(share_bytes(share) + tail) == Some((share, tail)),
{
    assert(share_bytes(share) + tail =~= core_bytes(core_of(share)) + (field(share.aux_info)
        + tail));
    lemma_core_round_trip(core_of(share), field(share.aux_info) + tail);
    lemma_field_round_trip(share.aux_info, tail);
}

proof fn lemma_share_sound(b: Seq<u8>)
    ensures
        parse_share(b) matches Some((share, rest)) ==> b == share_bytes(share) + rest
            && share_fits(share),
{
    if let Some((share, rest)) = parse_share(b) {
        let (core, rest1) = parse_core(b)->Some_0;
        let (aux_info, rest2) = parse_field(rest1)->Some_0;
        lemma_core_sound(b);
        lemma_field_sound(rest1);
        assert(core_of(share) == core);
        assert(b =~= share_bytes(share) + rest);
    }
}

proof fn lemma_output_round_trip(output: KeygenOutputView, tail: Seq<u8>)
    requires
        output_fits(output),
    ensures
        parse_output(output_bytes(output) + tail) == Some((output, tail)),
{
    let key = output.public_key.shared_public_key;
    assert(output_bytes(output) + tail =~= field(output.pregenerated_primes) + (core_bytes(
        output.core_key_share,
    ) + (key.bytes@ + tail)));
    lemma_field_round_trip(
        output.pregenerated_primes,
        core_bytes(output.core_key_share) + (key.bytes@ + tail),
    );
    lemma_core_round_trip(output.core_key_share, key.bytes@ + tail);
    lemma_key_round_trip(key, tail);
}

proof fn lemma_output_sound(b: Seq<u8>)
    ensures
        parse_output(b) matches Some((output, rest)) ==> b == output_bytes(output) + rest
            && output_fits(output),
{
    if let Some((output, rest)) = parse_output(b) {
        let (primes, rest1) = parse_field(b)->Some_0;
        let (core, rest2) = parse_core(rest1)->Some_0;
        let (key, rest3) = parse_key(rest2)->Some_0;
        lemma_field_sound(b);
        lemma_core_sound(rest1);
        lemma_key_sound(rest2);
        assert(b =~= output_bytes(output) + rest);
    }
}

proof fn lemma_optional_share_round_trip(share: Option<KeyShareView>, tail: Seq<u8>)
    requires
        share matches Some(inner) ==> share_fits(inner),
    ensures
        parse_optional_share(optional_share_bytes(share) + tail) == Some((share, tail)),
{
    let b = optional_share_bytes(share) + tail;
    match share {
        None => {
            assert(b.skip(1) =~= tail);
        },
        Some(inner) => {
            assert(b.skip(1) =~= share_bytes(inner) + tail);
            lemma_share_round_trip(inner, tail);
        },
    }
}

proof fn lemma_optional_share_sound(b: Seq<u8>)
    ensures
        parse_optional_share(b) matches Some((share, rest)) ==> b == optional_share_bytes(share)
            + rest && (share matches Some(inner) ==> share_fits(inner)),
{
    if let Some((share, rest)) = parse_optional_share(b) {
        assert(b =~= seq![b[0]] + b.skip(1));
        match share {
            None => {
                assert(b =~= optional_share_bytes(share) + rest);
            },
            Some(inner) => {
                lemma_share_sound(b.skip(1));
                assert(b =~= optional_share_bytes(share) + rest);
            },
        }
    }
}

proof fn lemma_optional_output_round_trip(output: Option<KeygenOutputView>, tail: Seq<u8>)
    requires
        output matches Some(inner) ==> output_fits(inner),
    ensures
        parse_optional_output(optional_output_bytes(output) + tail) == Some((output, tail)),
{
    let b = optional_output_bytes(output) + tail;
    match output {
        None => {
            assert(b.skip(1) =~= tail);
        },
        Some(inner) => {
            assert(b.skip(1) =~= output_bytes(inner) + tail);
            lemma_output_round_trip(inner, tail);
        },
    }
}

proof fn lemma_optional_output_sound(b: Seq<u8>)
    ensures
        parse_optional_output(b) matches Some((output, rest)) ==> b == optional_output_bytes(output)
            + rest && (output matches Some(inner) ==> output_fits(inner)),
{
    if let Some((output, rest)) = parse_optional_output(b) {
        assert(b =~= seq![b[0]] + b.skip(1));
        match output {
            None => {
                assert(b =~= optional_output_bytes(output) + rest);
            },
            Some(inner) => {
                lemma_output_sound(b.skip(1));
                assert(b =~= optional_output_bytes(output) + rest);
            },
        }
    }
}

/// A record that was written is read as it was.
pub proof fn lemma_record_round_trip(record: DfnsStoreView)
    requires
        record_fits(record),
    ensures
        parse_record(record_bytes(record)) == Some(record),
{
    let output = optional_output_bytes(record.keygen_output);
    let aux = optional_share_bytes(record.aux_keyshare);
    let refreshed = optional_share_bytes(record.refreshed_key);
    let empty = Seq::<u8>::empty();
    let b = record_bytes(record);
    assert(b.skip(1) =~= output + (aux + (refreshed + empty)));
    lemma_optional_output_round_trip(record.keygen_output, aux + (refreshed + empty));
    lemma_optional_share_round_trip(record.aux_keyshare, refreshed + empty);
    lemma_optional_share_round_trip(record.refreshed_key, empty);
}

/// Bytes that are read as a record are that record as it is written: a record
/// has one form, and nothing follows it.
pub proof fn lemma_record_sound(b: Seq<u8>)
    ensures
        parse_record(b) matches Some(record) ==> b == record_bytes(record) && record_fits(record),
{
    if let Some(record) = parse_record(b) {
        let rest1 = b.skip(1);
        let (output, rest2) = parse_optional_output(rest1)->Some_0;
        let (aux, rest3) = parse_optional_share(rest2)->Some_0;
        let (refreshed, rest4) = parse_optional_share(rest3)->Some_0;
        assert(b == seq![FORMAT_VERSION] + rest1) by {
            assert(b =~= seq![b[0]] + b.skip(1));
        }
        assert(rest1 == optional_output_bytes(output) + rest2 && (output matches Some(inner)
            ==> output_fits(inner))) by {
            lemma_optional_output_sound(rest1);
        }
        assert(rest2 == optional_share_bytes(aux) + rest3 && (aux matches Some(inner)
            ==> share_fits(inner))) by {
            lemma_optional_share_sound(rest2);
        }
        assert(rest3 == optional_share_bytes(refreshed) + rest4 && (refreshed matches Some(inner)
            ==> share_fits(inner))) by {
            lemma_optional_share_sound(rest3);
        }
        assert(rest4 == Seq::<u8>::empty()) by {
            assert(rest4 =~= Seq::<u8>::empty());
        }
        lemma_joined(
            seq![FORMAT_VERSION],
            optional_output_bytes(output),
            optional_share_bytes(aux),
            optional_share_bytes(refreshed),
        );
    }
}

/// Four parts in a row, whichever way they are joined.
proof fn lemma_joined(a: Seq<u8>, b: Seq<u8>, c: Seq<u8>, d: Seq<u8>)
    ensures
        a + (b + (c + (d + Seq::<u8>::empty()))) == a + b + c + d,
{
    assert(a + (b + (c + (d + Seq::<u8>::empty()))) =~= a + b + c + d);
}


/// Appends keys in a row.
fn write_keys(buf: &mut Vec<u8>, keys: &Vec<EcdsaPublic>)
    ensures
        final(buf)@ == old(buf)@ + keys_bytes(keys@),
{
    let mut i: usize = 0;
    assert(keys@.take(0) =~= Seq::<EcdsaPublic>::empty());
    assert(buf@ =~= old(buf)@ + keys_bytes(keys@.take(0)));
    while i < keys.len()
        invariant
            i <= keys@.len(),
            buf@ == old(buf)@ + keys_bytes(keys@.take(i as int)),
        decreases keys@.len() - i,
    {
        append_bytes(buf, keys[i].bytes.as_slice());
        proof {
            let next = keys@.take(i as int + 1);
            assert(next.drop_last() =~= keys@.take(i as int));
            assert(next.last() == keys@[i as int]);
            assert(buf@ =~= old(buf)@ + keys_bytes(next));
        }
        i += 1;
    }
    assert(keys@.take(i as int) =~= keys@);
}

/// Appends the parts of a core share.
fn write_core(
    buf: &mut Vec<u8>,
    min_signers: u16,
    shared_public_key: &EcdsaPublic,
    public_shares: &Vec<EcdsaPublic>,
    secret_share: &Vec<u8>,
)
    requires
        public_shares@.len() <= u16::MAX,
        secret_share@.len() <= u32::MAX,
    ensures
        final(buf)@ == old(buf)@ + core_bytes(
            CoreKeyShareView {
                min_signers,
                shared_public_key: *shared_public_key,
                public_shares: public_shares@,
                secret_share: secret_share@,
            },
        ),
{
    let ghost share = CoreKeyShareView {
        min_signers,
        shared_public_key: *shared_public_key,
        public_shares: public_shares@,
        secret_share: secret_share@,
    };
    write_u16(buf, min_signers);
    append_bytes(buf, shared_public_key.bytes.as_slice());
    write_u16(buf, public_shares.len() as u16);
    write_keys(buf, public_shares);
    write_field(buf, secret_share.as_slice());
    assert(buf@ =~= old(buf)@ + core_bytes(share));
}

/// Whether a share can be written.
fn share_can_be_written(share: &KeyShare) -> (yes: bool)
    ensures
        yes == share_fits(share@),
{
    share.public_shares.len() <= 0xffff && share.secret_share.len() <= 0xffff_ffff
        && share.aux_info.len() <= 0xffff_ffff
}

/// Appends a share that may be absent.
fn write_optional_share(buf: &mut Vec<u8>, share: &Option<KeyShare>)
    requires
        share matches Some(inner) ==> share_fits(inner@),
    ensures
        final(buf)@ == old(buf)@ + optional_share_bytes(crate::context::key_share_view(*share)),
{
    match share {
        None => {
            buf.push(0u8);
            assert(buf@ =~= old(buf)@ + seq![0u8]);
        },
        Some(inner) => {
            buf.push(1u8);
            write_core(
                buf,
                inner.min_signers,
                &inner.shared_public_key,
                &inner.public_shares,
                &inner.secret_share,
            );
            write_field(buf, inner.aux_info.as_slice());
            assert(buf@ =~= old(buf)@ + (seq![1u8] + share_bytes(inner@)));
        },
    }
}

/// Writes a record; `SerializationError` if one of its parts is too long to
/// announce its length.
pub fn encode_record(record: &DfnsStore) -> (out: Result<Vec<u8>, Error>)
    ensures
        match out {
            Ok(bytes) => record_fits(record@) && bytes@ == record_bytes(record@),
            Err(error) => error == Error::SerializationError && !record_fits(record@),
        },
{
    let output_ok = match &record.keygen_output {
        None => true,
        Some(output) => output.pregenerated_primes.len() <= 0xffff_ffff
            && output.core_key_share.public_shares.len() <= 0xffff
            && output.core_key_share.secret_share.len() <= 0xffff_ffff,
    };
    let aux_ok = match &record.aux_keyshare {
        None => true,
        Some(share) => share_can_be_written(share),
    };
    let refreshed_ok = match &record.refreshed_key {
        None => true,
        Some(share) => share_can_be_written(share),
    };
    if !(output_ok && aux_ok && refreshed_ok) {
        return Err(Error::SerializationError);
    }
    let mut bytes: Vec<u8> = Vec::new();
    bytes.push(FORMAT_VERSION);
    match &record.keygen_output {
        None => {
            bytes.push(0u8);
        },
        Some(output) => {
            bytes.push(1u8);
            write_field(&mut bytes, output.pregenerated_primes.as_slice());
            write_core(
                &mut bytes,
                output.core_key_share.min_signers,
                &output.core_key_share.shared_public_key,
                &output.core_key_share.public_shares,
                &output.core_key_share.secret_share,
            );
            append_bytes(&mut bytes, output.public_key.shared_public_key.bytes.as_slice());
        },
    }
    assert(bytes@ =~= seq![FORMAT_VERSION] + optional_output_bytes(record@.keygen_output));
    write_optional_share(&mut bytes, &record.aux_keyshare);
    write_optional_share(&mut bytes, &record.refreshed_key);
    Ok(bytes)
}

/// Reads `count` keys at `pos`.
fn read_keys(bytes: &[u8], pos: usize, count: u16) -> (out: Option<(Vec<EcdsaPublic>, usize)>)
    requires
        pos <= bytes@.len(),
    ensures
        match out {
            Some((value, next)) => pos <= next <= bytes@.len() && parse_keys(
                bytes@.skip(pos as int),
                count as nat,
            ) == Some((value@, bytes@.skip(next as int))),
            None => parse_keys(bytes@.skip(pos as int), count as nat) is None,
        },
{
    let ghost from = bytes@.skip(pos as int);
    let mut keys: Vec<EcdsaPublic> = Vec::new();
    let mut at: usize = pos;
    let mut i: u16 = 0;
    assert(keys@ =~= Seq::<EcdsaPublic>::empty());
    while i < count
        invariant
            i <= count,
            pos <= at <= bytes@.len(),
            from == bytes@.skip(pos as int),
            parse_keys(from, i as nat) == Some((keys@, bytes@.skip(at as int))),
        decreases count - i,
    {
        match read_key(bytes, at) {
            None => {
                proof {
                    assert(parse_keys(from, (i + 1) as nat) is None);
                    lemma_keys_stay_unread(from, (i + 1) as nat, count as nat);
                }
                return None;
            },
            Some((key, next)) => {
                keys.push(key);
                at = next;
            },
        }
        i += 1;
    }
    Some((keys, at))
}

/// Reads a core share at `pos`.
fn read_core(bytes: &[u8], pos: usize) -> (out: Option<(CoreKeyShare, usize)>)
    requires
        pos <= bytes@.len(),
    ensures
        match out {
            Some((value, next)) => pos <= next <= bytes@.len() && parse_core(
                bytes@.skip(pos as int),
            ) == Some((value@, bytes@.skip(next as int))),
            None => parse_core(bytes@.skip(pos as int)) is None,
        },
{
    let (min_signers, pos) = match read_u16(bytes, pos) {
        Some(read) => read,
        None => {
            return None;
        },
    };
    let (shared_public_key, pos) = match read_key(bytes, pos) {
        Some(read) => read,
        None => {
            return None;
        },
    };
    let (count, pos) = match read_u16(bytes, pos) {
        Some(read) => read,
        None => {
            return None;
        },
    };
    let (public_shares, pos) = match read_keys(bytes, pos, count) {
        Some(read) => read,
        None => {
            return None;
        },
    };
    let (secret_share, pos) = match read_field(bytes, pos) {
        Some(read) => read,
        None => {
            return None;
        },
    };
    Some((CoreKeyShare { min_signers, shared_public_key, public_shares, secret_share }, pos))
}

/// Reads a share that may be absent at `pos`.
fn read_optional_share(bytes: &[u8], pos: usize) -> (out: Option<(Option<KeyShare>, usize)>)
    requires
        pos <= bytes@.len(),
    ensures
        match out {
            Some((value, next)) => pos <= next <= bytes@.len() && parse_optional_share(
                bytes@.skip(pos as int),
            ) == Some((crate::context::key_share_view(value), bytes@.skip(next as int))),
            None => parse_optional_share(bytes@.skip(pos as int)) is None,
        },
{
    let (tag, pos) = match read_u8(bytes, pos) {
        Some(read) => read,
        None => {
            return None;
        },
    };
    if tag == 0 {
        return Some((None, pos));
    }
    if tag != 1 {
        return None;
    }
    let (core, pos) = match read_core(bytes, pos) {
        Some(read) => read,
        None => {
            return None;
        },
    };
    let (aux_info, pos) = match read_field(bytes, pos) {
        Some(read) => read,
        None => {
            return None;
        },
    };
    let share = KeyShare {
        min_signers: core.min_signers,
        shared_public_key: core.shared_public_key,
        public_shares: core.public_shares,
        secret_share: core.secret_share,
        aux_info,
    };
    Some((Some(share), pos))
}

/// Reads an output of key generation that may be absent at `pos`.
fn read_optional_output(bytes: &[u8], pos: usize) -> (out: Option<(Option<KeygenOutput>, usize)>)
    requires
        pos <= bytes@.len(),
    ensures
        match out {
            Some((value, next)) => pos <= next <= bytes@.len() && parse_optional_output(
                bytes@.skip(pos as int),
            ) == Some(
                (
                    match value {
                        Some(output) => Some(output@),
                        None => None,
                    },
                    bytes@.skip(next as int),
                ),
            ),
            None => parse_optional_output(bytes@.skip(pos as int)) is None,
        },
{
    let (tag, pos) = match read_u8(bytes, pos) {
        Some(read) => read,
        None => {
            return None;
        },
    };
    if tag == 0 {
        return Some((None, pos));
    }
    if tag != 1 {
        return None;
    }
    let (pregenerated_primes, pos) = match read_field(bytes, pos) {
        Some(read) => read,
        None => {
            return None;
        },
    };
    let (core_key_share, pos) = match read_core(bytes, pos) {
        Some(read) => read,
        None => {
            return None;
        },
    };
    let (shared_public_key, pos) = match read_key(bytes, pos) {
        Some(read) => read,
        None => {
            return None;
        },
    };
    let output = KeygenOutput {
        pregenerated_primes,
        core_key_share,
        public_key: PublicKey { shared_public_key },
    };
    Some((Some(output), pos))
}

/// Reads a record: the record whose written form the bytes are, or
/// `StoreCorrupt` if they are the written form of none.
pub fn decode_record(bytes: &[u8]) -> (out: Result<DfnsStore, Error>)
    ensures
        match out {
            Ok(record) => parse_record(bytes@) == Some(record@),
            Err(error) => error == Error::StoreCorrupt && parse_record(bytes@) is None,
        },
{
    assert(bytes@.skip(0) =~= bytes@);
    let (version, pos) = match read_u8(bytes, 0) {
        Some(read) => read,
        None => {
            return Err(Error::StoreCorrupt);
        },
    };
    if version != FORMAT_VERSION {
        return Err(Error::StoreCorrupt);
    }
    let (keygen_output, pos) = match read_optional_output(bytes, pos) {
        Some(read) => read,
        None => {
            return Err(Error::StoreCorrupt);
        },
    };
    let (aux_keyshare, pos) = match read_optional_share(bytes, pos) {
        Some(read) => read,
        None => {
            return Err(Error::StoreCorrupt);
        },
    };
    let (refreshed_key, pos) = match read_optional_share(bytes, pos) {
        Some(read) => read,
        None => {
            return Err(Error::StoreCorrupt);
        },
    };
    if pos != bytes.len() {
        return Err(Error::StoreCorrupt);
    }
    Ok(DfnsStore { keygen_output, aux_keyshare, refreshed_key })
}

} // verus!
