//! The client wire protocol: versioned text frames.
//!
//! Client to server: `1S<id>` subscribes to channel `<id>`, `1U<id>`
//! unsubscribes, `1M<id> <payload>` posts `<payload>` (any bytes up to the
//! end of the frame). Server to client: `1E<channel> <sender> <payload>`,
//! `1X<code> <detail>` and `1A`. Ids and codes are decimal without leading
//! zeros.

use vstd::prelude::*;
use crate::codec::{decimal, push_decimal};
use crate::queue::{ErrorCode, OutboundFrame};

verus! {

pub const WIRE_VERSION: u8 = 49;
pub const KIND_SUBSCRIBE: u8 = 83;
pub const KIND_UNSUBSCRIBE: u8 = 85;
pub const KIND_MESSAGE: u8 = 77;
pub const KIND_EVENT: u8 = 69;
pub const KIND_ERROR: u8 = 88;
pub const KIND_ACK: u8 = 65;
pub const SPACE: u8 = 32;

/// A frame from the client.
#[derive(Clone, Debug)]
pub enum ClientFrame {
    Subscribe { channel_id: u64 },
    Unsubscribe { channel_id: u64 },
    Message { channel_id: u64, payload: Vec<u8> },
}

/// What a client frame says.
pub enum ClientRequest {
    Subscribe(u64),
    Unsubscribe(u64),
    Message(u64, Seq<u8>),
}

impl View for ClientFrame {
    type V = ClientRequest;

    open spec fn view(&self) -> ClientRequest {
        match self {
            ClientFrame::Subscribe { channel_id } => ClientRequest::Subscribe(*channel_id),
            ClientFrame::Unsubscribe { channel_id } => ClientRequest::Unsubscribe(*channel_id),
            ClientFrame::Message { channel_id, payload } => ClientRequest::Message(
                *channel_id,
                payload@,
            ),
        }
    }
}

/// The bytes of the client frame saying `r`.
pub open spec fn client_bytes(r: ClientRequest) -> Seq<u8> {
    match r {
        ClientRequest::Subscribe(ch) => seq![WIRE_VERSION, KIND_SUBSCRIBE] + decimal(ch as nat),
        ClientRequest::Unsubscribe(ch) => seq![WIRE_VERSION, KIND_UNSUBSCRIBE] + decimal(ch as nat),
        ClientRequest::Message(ch, p) => seq![WIRE_VERSION, KIND_MESSAGE] + decimal(ch as nat)
            + seq![SPACE] + p,
    }
}

pub open spec fn is_digit(c: u8) -> bool {
    48 <= c <= 57
}

/// The first index at or after `i` that holds no digit.
pub open spec fn digits_end(b: Seq<u8>, i: int) -> int
    decreases b.len() - i,
{
    if i < 0 || i >= b.len() || !is_digit(b[i]) {
        i
    } else {
        digits_end(b, i + 1)
    }
}

/// The number that the digits `d` write.
pub open spec fn digits_value(d: Seq<u8>) -> nat
    decreases d.len(),
{
    if d.len() == 0 {
        0
    } else {
        digits_value(d.drop_last()) * 10 + (d.last() - 48) as nat
    }
}

/// At least one digit, and no leading zero.
pub open spec fn canonical(d: Seq<u8>) -> bool {
    d.len() >= 1 && (d.len() == 1 || d[0] != 48)
}

/// What frame `b` says, if it is a well-formed client frame.
pub open spec fn parse_client(b: Seq<u8>) -> Option<ClientRequest> {
    let j = digits_end(b, 2);
    let d = b.subrange(2, j);
    if b.len() < 3 || b[0] != WIRE_VERSION || !canonical(d) || digits_value(d) > u64::MAX {
        None
    } else {
        let ch = digits_value(d) as u64;
        if b[1] == KIND_SUBSCRIBE && j == b.len() {
            Some(ClientRequest::Subscribe(ch))
        } else if b[1] == KIND_UNSUBSCRIBE && j == b.len() {
            Some(ClientRequest::Unsubscribe(ch))
        } else if b[1] == KIND_MESSAGE && j < b.len() && b[j] == SPACE {
            Some(ClientRequest::Message(ch, b.subrange(j + 1, b.len() as int)))
        } else {
            None
        }
    }
}

proof fn lemma_digits_end_ge(b: Seq<u8>, i: int)
    requires
        0 <= i,
    ensures
        i <= digits_end(b, i),
        digits_end(b, i) <= if i > b.len() { i } else { b.len() as int },
        forall|k: int| i <= k < digits_end(b, i) ==> is_digit(#[trigger] b[k]),
        digits_end(b, i) < b.len() ==> !is_digit(b[digits_end(b, i)]),
    decreases b.len() - i,
{
    if i < b.len() && is_digit(b[i]) {
        lemma_digits_end_ge(b, i + 1);
    }
}

proof fn lemma_digits_value_prefix(d: Seq<u8>, k: int)
    requires
        0 <= k <= d.len(),
    ensures
        digits_value(d.subrange(0, k)) <= digits_value(d),
    decreases d.len() - k,
{
    if k < d.len() {
        lemma_digits_value_prefix(d, k + 1);
        assert(d.subrange(0, k + 1).drop_last() =~= d.subrange(0, k));
    } else {
        assert(d.subrange(0, k) =~= d);
    }
}

proof fn lemma_decimal_digits(n: nat)
    ensures
        decimal(n).len() >= 1,
        forall|k: int| 0 <= k < decimal(n).len() ==> is_digit(#[trigger] decimal(n)[k]),
        canonical(decimal(n)),
        digits_value(decimal(n)) == n,
        n >= 1 ==> decimal(n)[0] != 48,
    decreases n,
{
    if n >= 10 {
        lemma_decimal_digits(n / 10);
        let d = decimal(n / 10);
        assert(decimal(n).drop_last() =~= d);
        assert(decimal(n)[0] == d[0]);
        let l = decimal(n).last();
        assert(l == (48 + n % 10) as u8);
        assert(l as int == 48 + n % 10);
        assert(digits_value(decimal(n)) == digits_value(d) * 10 + (l - 48) as nat);
        assert(n == (n / 10) * 10 + n % 10);
    } else {
        assert(decimal(n).drop_last() =~= Seq::<u8>::empty());
        let l = decimal(n).last();
        assert(l as int == 48 + n);
        assert(digits_value(decimal(n)) == digits_value(Seq::<u8>::empty()) * 10 + (l - 48) as nat);
    }
}

proof fn lemma_digits_end_of(pre: Seq<u8>, d: Seq<u8>, rest: Seq<u8>)
    requires
        pre.len() == 2,
        forall|k: int| 0 <= k < d.len() ==> is_digit(#[trigger] d[k]),
        rest.len() == 0 || !is_digit(rest[0]),
    ensures
        digits_end(pre + d + rest, 2) == 2 + d.len(),
        (pre + d + rest).subrange(2, 2 + d.len() as int) == d,
{
    let b = pre + d + rest;
    let e: int = 2 + d.len() as int;
    assert forall|i: int| 2 <= i <= e implies #[trigger] digits_end(b, i) == e by {
        lemma_digits_end_downward(b, i, e);
    }
    assert(b.subrange(2, e) =~= d);
}

proof fn lemma_digits_end_downward(b: Seq<u8>, i: int, e: int)
    requires
        0 <= i <= e <= b.len(),
        forall|k: int| i <= k < e ==> is_digit(#[trigger] b[k]),
        e == b.len() || !is_digit(b[e]),
    ensures
        digits_end(b, i) == e,
    decreases e - i,
{
    if i < e {
        lemma_digits_end_downward(b, i + 1, e);
    }
}

/// Reading the bytes of any client frame gives back what it says.
pub proof fn lemma_client_round_trip(r: ClientRequest)
    ensures
        parse_client(client_bytes(r)) == Some(r),
{
    match r {
        ClientRequest::Subscribe(ch) => {
            lemma_decimal_digits(ch as nat);
            lemma_digits_end_of(seq![WIRE_VERSION, KIND_SUBSCRIBE], decimal(ch as nat), seq![]);
            assert(client_bytes(r) =~= seq![WIRE_VERSION, KIND_SUBSCRIBE] + decimal(ch as nat) + seq![]);
        },
        ClientRequest::Unsubscribe(ch) => {
            lemma_decimal_digits(ch as nat);
            lemma_digits_end_of(seq![WIRE_VERSION, KIND_UNSUBSCRIBE], decimal(ch as nat), seq![]);
            assert(client_bytes(r) =~= seq![WIRE_VERSION, KIND_UNSUBSCRIBE] + decimal(ch as nat) + seq![]);
        },
        ClientRequest::Message(ch, p) => {
            lemma_decimal_digits(ch as nat);
            let rest = seq![SPACE] + p;
            lemma_digits_end_of(seq![WIRE_VERSION, KIND_MESSAGE], decimal(ch as nat), rest);
            let b = client_bytes(r);
            assert(b =~= seq![WIRE_VERSION, KIND_MESSAGE] + decimal(ch as nat) + rest);
            let j: int = 2 + decimal(ch as nat).len() as int;
            assert(b[j] == SPACE);
            assert(b.subrange(j + 1, b.len() as int) =~= p);
        },
    }
}

/// Reads a client frame; `None` when `b` is not a well-formed one.
pub fn decode_client_frame(b: &Vec<u8>) -> (r: Option<ClientFrame>)
    ensures
        match parse_client(b@) {
            None => r is None,
            Some(q) => r matches Some(f) && f@ == q,
        },
{
    let n = b.len();
    if n < 3 || b[0] != WIRE_VERSION {
        return None;
    }
    let mut j: usize = 2;
    while j < n && 48 <= b[j] && b[j] <= 57
        invariant
            2 <= j <= n,
            n == b@.len(),
            forall|k: int| 2 <= k < j ==> is_digit(#[trigger] b@[k]),
        decreases n - j,
    {
        j = j + 1;
    }
    proof {
        lemma_digits_end_downward(b@, 2, j as int);
    }
    let ghost d = b@.subrange(2, j as int);
    if j == 2 || (j > 3 && b[2] == 48) {
        return None;
    }
    let mut v: u64 = 0;
    let mut k: usize = 2;
    while k < j
        invariant
            2 <= k <= j <= n,
            n == b@.len(),
            d == b@.subrange(2, j as int),
            digits_end(b@, 2) == j,
            canonical(d),
            b@[0] == WIRE_VERSION,
            forall|i: int| 2 <= i < j ==> is_digit(#[trigger] b@[i]),
            v as nat == digits_value(b@.subrange(2, k as int)),
        decreases j - k,
    {
        let c = b[k];
        let digit = (c - 48) as u64;
        assert(b@.subrange(2, k as int + 1).drop_last() =~= b@.subrange(2, k as int));
        if v > 1844674407370955161u64 || (v == 1844674407370955161u64 && digit > 5) {
            proof {
                assert(is_digit(b@[k as int]));
                assert(b@.subrange(2, k as int + 1).last() == c);
                assert(digits_value(b@.subrange(2, k as int + 1)) == v * 10 + digit);
                assert(b@.subrange(2, k as int + 1) =~= d.subrange(0, k - 2 + 1));
                lemma_digits_value_prefix(d, k - 2 + 1);
                assert(digits_value(d) > u64::MAX);
            }
            return None;
        }
        v = v * 10 + digit;
        k = k + 1;
    }
    let kind = b[1];
    if kind == KIND_SUBSCRIBE && j == n {
        Some(ClientFrame::Subscribe { channel_id: v })
    } else if kind == KIND_UNSUBSCRIBE && j == n {
        Some(ClientFrame::Unsubscribe { channel_id: v })
    } else if kind == KIND_MESSAGE && j < n && b[j] == SPACE {
        let mut payload: Vec<u8> = Vec::new();
        let mut i: usize = j + 1;
        while i < n
            invariant
                j + 1 <= i <= n,
                n == b@.len(),
                payload@ == b@.subrange(j + 1, i as int),
            decreases n - i,
        {
            payload.push(b[i]);
            assert(payload@ =~= b@.subrange(j + 1, i as int + 1));
            i = i + 1;
        }
        Some(ClientFrame::Message { channel_id: v, payload })
    } else {
        None
    }
}

fn push_all(out: &mut Vec<u8>, p: &Vec<u8>)
    ensures
        final(out)@ == old(out)@ + p@,
{
    let mut i: usize = 0;
    while i < p.len()
        invariant
            i <= p@.len(),
            out@ == old(out)@ + p@.subrange(0, i as int),
        decreases p@.len() - i,
    {
        out.push(p[i]);
        assert(out@ =~= old(out)@ + p@.subrange(0, i as int + 1));
        i = i + 1;
    }
    assert(p@.subrange(0, p@.len() as int) =~= p@);
}

/// The bytes of client frame `f`.
pub fn encode_client_frame(f: &ClientFrame) -> (r: Vec<u8>)
    ensures
        r@ == client_bytes(f@),
{
    let mut out: Vec<u8> = Vec::new();
    out.push(WIRE_VERSION);
    match f {
        ClientFrame::Subscribe { channel_id } => {
            out.push(KIND_SUBSCRIBE);
            push_decimal(&mut out, *channel_id);
        },
        ClientFrame::Unsubscribe { channel_id } => {
            out.push(KIND_UNSUBSCRIBE);
            push_decimal(&mut out, *channel_id);
        },
        ClientFrame::Message { channel_id, payload } => {
            out.push(KIND_MESSAGE);
            push_decimal(&mut out, *channel_id);
            out.push(SPACE);
            push_all(&mut out, payload);
        },
    }
    assert(out@ =~= client_bytes(f@));
    out
}

/// The number that stands for an error code on the wire.
pub open spec fn error_number(c: ErrorCode) -> u64 {
    match c {
        ErrorCode::PermissionDenied => 1,
        ErrorCode::Malformed => 2,
        ErrorCode::UnknownChannel => 3,
        ErrorCode::NotActive => 4,
    }
}

/// The bytes of server frame `f`.
pub open spec fn server_bytes(f: OutboundFrame) -> Seq<u8> {
    match f {
        OutboundFrame::Event { channel_id, sender_id, payload } => seq![WIRE_VERSION, KIND_EVENT]
            + decimal(channel_id as nat) + seq![SPACE] + decimal(sender_id as nat) + seq![SPACE]
            + payload@,
        OutboundFrame::Error { code, detail } => seq![WIRE_VERSION, KIND_ERROR] + decimal(
            error_number(code) as nat,
        ) + seq![SPACE] + detail@,
        OutboundFrame::Ack => seq![WIRE_VERSION, KIND_ACK],
    }
}

/// The bytes of server frame `f`.
pub fn encode_server_frame(f: &OutboundFrame) -> (r: Vec<u8>)
    ensures
        r@ == server_bytes(*f),
{
    let mut out: Vec<u8> = Vec::new();
    out.push(WIRE_VERSION);
    match f {
        OutboundFrame::Event { channel_id, sender_id, payload } => {
            out.push(KIND_EVENT);
            push_decimal(&mut out, *channel_id);
            out.push(SPACE);
            push_decimal(&mut out, *sender_id);
            out.push(SPACE);
            push_all(&mut out, payload);
        },
        OutboundFrame::Error { code, detail } => {
            out.push(KIND_ERROR);
            let n: u64 = match code {
                ErrorCode::PermissionDenied => 1,
                ErrorCode::Malformed => 2,
                ErrorCode::UnknownChannel => 3,
                ErrorCode::NotActive => 4,
            };
            push_decimal(&mut out, n);
            out.push(SPACE);
            push_all(&mut out, detail);
        },
        OutboundFrame::Ack => {
            out.push(KIND_ACK);
        },
    }
    assert(out@ =~= server_bytes(*f));
    out
}

} // verus!
