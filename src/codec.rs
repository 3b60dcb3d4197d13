//! What crosses the bus: envelopes as versioned byte frames, and the topic
//! name of each channel.
//!
//! An envelope frame is the version byte, then channel id, sender id,
//! sequence hint, origin instance and origin connection as 8-byte big-endian
//! integers, then the payload to the end.

use vstd::prelude::*;
use crate::gateway::Envelope;

verus! {

pub const ENVELOPE_VERSION: u8 = 1;
/// Length of an envelope frame without its payload.
pub const ENVELOPE_HEADER_LEN: usize = 41;

/// The 8 big-endian bytes of `x`.
pub open spec fn be_bytes(x: u64) -> Seq<u8> {
    seq![
        (x >> 56u64) as u8,
        (x >> 48u64) as u8,
        (x >> 40u64) as u8,
        (x >> 32u64) as u8,
        (x >> 24u64) as u8,
        (x >> 16u64) as u8,
        (x >> 8u64) as u8,
        x as u8,
    ]
}

/// The integer whose big-endian bytes are `b[at..at + 8]`.
pub open spec fn be_value(b: Seq<u8>, at: int) -> u64 {
    ((b[at] as u64) << 56u64) | ((b[at + 1] as u64) << 48u64) | ((b[at + 2] as u64) << 40u64) | ((
    b[at + 3] as u64) << 32u64) | ((b[at + 4] as u64) << 24u64) | ((b[at + 5] as u64) << 16u64)
        | ((b[at + 6] as u64) << 8u64) | (b[at + 7] as u64)
}

/// The frame of an envelope with these fields.
pub open spec fn envelope_frame(
    channel_id: u64,
    sender_id: u64,
    sequence_hint: u64,
    origin_instance: u64,
    origin_connection: u64,
    payload: Seq<u8>,
) -> Seq<u8> {
    seq![ENVELOPE_VERSION] + be_bytes(channel_id) + be_bytes(sender_id) + be_bytes(sequence_hint)
        + be_bytes(origin_instance) + be_bytes(origin_connection) + payload
}

/// `b` is a frame this version can read.
pub open spec fn readable_frame(b: Seq<u8>) -> bool {
    b.len() >= ENVELOPE_HEADER_LEN && b[0] == ENVELOPE_VERSION
}

/// `e` is the envelope that the readable frame `b` holds.
pub open spec fn frame_holds(b: Seq<u8>, e: Envelope) -> bool {
    &&& e.channel_id == be_value(b, 1)
    &&& e.sender_id == be_value(b, 9)
    &&& e.sequence_hint == be_value(b, 17)
    &&& e.origin_instance == be_value(b, 25)
    &&& e.origin_connection == be_value(b, 33)
    &&& e.payload@ == b.subrange(ENVELOPE_HEADER_LEN as int, b.len() as int)
}

proof fn lemma_be_round_trip(x: u64)
    by (bit_vector)
    ensures
        ((((x >> 56u64) as u8) as u64) << 56u64) | ((((x >> 48u64) as u8) as u64) << 48u64) | ((((x
            >> 40u64) as u8) as u64) << 40u64) | ((((x >> 32u64) as u8) as u64) << 32u64) | ((((x
            >> 24u64) as u8) as u64) << 24u64) | ((((x >> 16u64) as u8) as u64) << 16u64) | ((((x
            >> 8u64) as u8) as u64) << 8u64) | ((x as u8) as u64) == x,
{
}

fn push_be(out: &mut Vec<u8>, x: u64)
    ensures
        final(out)@ == old(out)@ + be_bytes(x),
{
    out.push((x >> 56u64) as u8);
    out.push((x >> 48u64) as u8);
    out.push((x >> 40u64) as u8);
    out.push((x >> 32u64) as u8);
    out.push((x >> 24u64) as u8);
    out.push((x >> 16u64) as u8);
    out.push((x >> 8u64) as u8);
    out.push(x as u8);
    assert(final(out)@ =~= old(out)@ + be_bytes(x));
}

fn read_be(b: &Vec<u8>, at: usize) -> (r: u64)
    requires
        at <= 64,
        at + 8 <= b@.len(),
    ensures
        r == be_value(b@, at as int),
{
    ((b[at] as u64) << 56u64) | ((b[at + 1] as u64) << 48u64) | ((b[at + 2] as u64) << 40u64) | ((
    b[at + 3] as u64) << 32u64) | ((b[at + 4] as u64) << 24u64) | ((b[at + 5] as u64) << 16u64)
        | ((b[at + 6] as u64) << 8u64) | (b[at + 7] as u64)
}

/// The frame that carries `e` over the bus.
pub fn encode_envelope(e: &Envelope) -> (r: Vec<u8>)
    ensures
        r@ == envelope_frame(
            e.channel_id,
            e.sender_id,
            e.sequence_hint,
            e.origin_instance,
            e.origin_connection,
            e.payload@,
        ),
{
    let mut out: Vec<u8> = Vec::new();
    out.push(ENVELOPE_VERSION);
    push_be(&mut out, e.channel_id);
    push_be(&mut out, e.sender_id);
    push_be(&mut out, e.sequence_hint);
    push_be(&mut out, e.origin_instance);
    push_be(&mut out, e.origin_connection);
    let mut i: usize = 0;
    let ghost head = out@;
    while i < e.payload.len()
        invariant
            i <= e.payload@.len(),
            out@ == head + e.payload@.subrange(0, i as int),
        decreases e.payload@.len() - i,
    {
        out.push(e.payload[i]);
        assert(out@ =~= head + e.payload@.subrange(0, i as int + 1));
        i = i + 1;
    }
    assert(e.payload@.subrange(0, e.payload@.len() as int) =~= e.payload@);
    assert(head =~= seq![ENVELOPE_VERSION] + be_bytes(e.channel_id) + be_bytes(e.sender_id)
        + be_bytes(e.sequence_hint) + be_bytes(e.origin_instance) + be_bytes(e.origin_connection));
    out
}

/// The envelope in frame `b`; `None` when `b` is shorter than a header or
/// carries another version.
pub fn decode_envelope(b: &Vec<u8>) -> (r: Option<Envelope>)
    ensures
        r is None <==> !readable_frame(b@),
        r matches Some(e) ==> frame_holds(b@, e),
{
    if b.len() < ENVELOPE_HEADER_LEN || b[0] != ENVELOPE_VERSION {
        return None;
    }
    let mut payload: Vec<u8> = Vec::new();
    let mut i: usize = ENVELOPE_HEADER_LEN;
    while i < b.len()
        invariant
            ENVELOPE_HEADER_LEN <= i <= b@.len(),
            payload@ == b@.subrange(ENVELOPE_HEADER_LEN as int, i as int),
        decreases b@.len() - i,
    {
        payload.push(b[i]);
        assert(payload@ =~= b@.subrange(ENVELOPE_HEADER_LEN as int, i as int + 1));
        i = i + 1;
    }
    Some(
        Envelope {
            channel_id: read_be(b, 1),
            sender_id: read_be(b, 9),
            sequence_hint: read_be(b, 17),
            origin_instance: read_be(b, 25),
            origin_connection: read_be(b, 33),
            payload,
        },
    )
}

/// Reading back the frame of an envelope gives the envelope's fields.
pub proof fn lemma_envelope_round_trip(e: Envelope, d: Envelope)
    requires
        frame_holds(
            envelope_frame(
                e.channel_id,
                e.sender_id,
                e.sequence_hint,
                e.origin_instance,
                e.origin_connection,
                e.payload@,
            ),
            d,
        ),
    ensures
        d.channel_id == e.channel_id,
        d.sender_id == e.sender_id,
        d.sequence_hint == e.sequence_hint,
        d.origin_instance == e.origin_instance,
        d.origin_connection == e.origin_connection,
        d.payload@ == e.payload@,
{
    let b = envelope_frame(
        e.channel_id,
        e.sender_id,
        e.sequence_hint,
        e.origin_instance,
        e.origin_connection,
        e.payload@,
    );
    lemma_be_round_trip(e.channel_id);
    lemma_be_round_trip(e.sender_id);
    lemma_be_round_trip(e.sequence_hint);
    lemma_be_round_trip(e.origin_instance);
    lemma_be_round_trip(e.origin_connection);
    assert(b.subrange(ENVELOPE_HEADER_LEN as int, b.len() as int) =~= e.payload@);
}

/// Every encoded envelope is readable.
pub proof fn lemma_envelope_frame_readable(e: Envelope)
    ensures
        readable_frame(
            envelope_frame(
                e.channel_id,
                e.sender_id,
                e.sequence_hint,
                e.origin_instance,
                e.origin_connection,
                e.payload@,
            ),
        ),
{
}

/// The decimal digits of `n`, most significant first, in ASCII.
pub open spec fn decimal(n: nat) -> Seq<u8>
    decreases n,
{
    if n < 10 {
        seq![(48 + n) as u8]
    } else {
        decimal(n / 10).push((48 + n % 10) as u8)
    }
}

/// "channel:" in ASCII.
pub open spec fn topic_prefix() -> Seq<u8> {
    seq![99u8, 104u8, 97u8, 110u8, 110u8, 101u8, 108u8, 58u8]
}

/// Appends the decimal digits of `n`.
pub(crate) fn push_decimal(out: &mut Vec<u8>, n: u64)
    ensures
        final(out)@ == old(out)@ + decimal(n as nat),
    decreases n,
{
    if n >= 10 {
        push_decimal(out, n / 10);
    }
    out.push((48 + n % 10) as u8);
    assert(final(out)@ =~= old(out)@ + decimal(n as nat));
}

/// The bus topic of channel `ch`: `channel:` followed by the decimal id.
pub fn topic_name(ch: u64) -> (r: Vec<u8>)
    ensures
        r@ == topic_prefix() + decimal(ch as nat),
{
    let mut out: Vec<u8> = Vec::new();
    out.push(99u8);
    out.push(104u8);
    out.push(97u8);
    out.push(110u8);
    out.push(110u8);
    out.push(101u8);
    out.push(108u8);
    out.push(58u8);
    assert(out@ =~= topic_prefix());
    push_decimal(&mut out, ch);
    out
}

} // verus!
