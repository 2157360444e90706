//! Building the broker message for one event: the routing key derived from
//! the event type, the fixed-shape property map, and the JSON payload that
//! embeds the event's original bytes together with a copy of the
//! properties.

use vstd::prelude::*;
use vstd::string::StringSliceAdditionalSpecFns;

use crate::model::{spec_subject, Event};

verus! {

/// ASCII lowercasing of one byte.
pub open spec fn lower_byte(b: u8) -> u8 {
    if 65 <= b <= 90 {
        (b + 32) as u8
    } else {
        b
    }
}

/// ASCII lowercasing, byte for byte.
pub open spec fn lower_bytes(s: Seq<u8>) -> Seq<u8> {
    Seq::new(s.len(), |k: int| lower_byte(s[k]))
}

/// The fixed start of every routing key.
pub open spec fn routing_prefix() -> Seq<u8> {
    "be.mediahaven.".spec_bytes()
}

/// The routing key of an event type: the fixed prefix followed by the
/// lowercased type.
pub open spec fn spec_routing_key(event_type: Seq<u8>) -> Seq<u8> {
    routing_prefix() + lower_bytes(event_type)
}

/// Derives the broker topic from an event type.
pub fn routing_key(event_type: &[u8]) -> (r: Vec<u8>)
    ensures
        r@ == spec_routing_key(event_type@),
{
    let mut out = vstd::slice::slice_to_vec("be.mediahaven.".as_bytes());
    let mut k: usize = 0;
    while k < event_type.len()
        invariant
            k <= event_type@.len(),
            out@ == routing_prefix() + lower_bytes(event_type@).take(k as int),
        decreases event_type@.len() - k,
    {
        let b = event_type[k];
        let lb: u8 = if 65 <= b && b <= 90 {
            b + 32
        } else {
            b
        };
        out.push(lb);
        proof {
            assert(routing_prefix() + lower_bytes(event_type@).take(k as int + 1) =~= (
            routing_prefix() + lower_bytes(event_type@).take(k as int)).push(lb));
        }
        k = k + 1;
    }
    proof {
        assert(lower_bytes(event_type@).take(event_type@.len() as int) =~= lower_bytes(
            event_type@,
        ));
    }
    out
}

/// Routing keys ignore the casing of the event type.
pub proof fn lemma_routing_key_case_insensitive(a: Seq<u8>, b: Seq<u8>)
    requires
        lower_bytes(a) == lower_bytes(b),
    ensures
        spec_routing_key(a) == spec_routing_key(b),
{
}

/// Lowercasing is idempotent, so a routing key never changes when derived
/// again from its own tail.
pub proof fn lemma_lower_bytes_idempotent(a: Seq<u8>)
    ensures
        lower_bytes(lower_bytes(a)) == lower_bytes(a),
{
    assert(lower_bytes(lower_bytes(a)) =~= lower_bytes(a));
}

/// The fully qualified topic handed to the broker client.
pub open spec fn spec_full_topic(namespace: Seq<u8>, rk: Seq<u8>) -> Seq<u8> {
    "persistent://public/".spec_bytes() + namespace + seq![47u8] + rk
}

/// Qualifies a routing key with the broker tenant and namespace.
pub fn pulsar_topic(namespace: &[u8], rk: &[u8]) -> (r: Vec<u8>)
    ensures
        r@ == spec_full_topic(namespace@, rk@),
{
    let mut out = vstd::slice::slice_to_vec("persistent://public/".as_bytes());
    let mut ns = vstd::slice::slice_to_vec(namespace);
    let mut tail = vstd::slice::slice_to_vec(rk);
    out.append(&mut ns);
    out.push(47);
    out.append(&mut tail);
    out
}

/// The broker message contents derived from one event, before the envelope
/// is assembled.
pub struct Message {
    /// The event's exact original bytes.
    pub data: Vec<u8>,
    /// The event instant, in milliseconds since the Unix epoch.
    pub event_time: i64,
    /// The event's subject.
    pub subject: Vec<u8>,
}

/// Mathematical view of [`Message`].
pub struct MessageV {
    pub data: Seq<u8>,
    pub event_time: int,
    pub subject: Seq<u8>,
}

impl View for Message {
    type V = MessageV;

    open spec fn view(&self) -> MessageV {
        MessageV {
            data: self.data@,
            event_time: self.event_time as int,
            subject: self.subject@,
        }
    }
}

impl Message {
    /// The message a parsed event gives rise to: its raw bytes, its instant,
    /// and its subject.
    pub fn from_event(e: &Event) -> (r: Message)
        ensures
            r@.data == e@.event_payload,
            r@.event_time == e@.event_timestamp,
            r@.subject == spec_subject(e@.linking_objects),
    {
        Message { data: e.to_xml(), event_time: e.event_timestamp, subject: e.subject() }
    }
}

/// The lowercase hexadecimal digit of a value below sixteen.
pub open spec fn hex_digit(n: int) -> u8 {
    if n < 10 {
        (48 + n) as u8
    } else {
        (87 + n) as u8
    }
}

/// How one byte appears inside a JSON string literal: quote and backslash
/// escaped, control bytes as their short escapes or `\u00..`, everything
/// else verbatim.
pub open spec fn esc_byte(b: u8) -> Seq<u8> {
    if b == 34 {
        seq![92u8, 34u8]
    } else if b == 92 {
        seq![92u8, 92u8]
    } else if b == 8 {
        seq![92u8, 98u8]
    } else if b == 9 {
        seq![92u8, 116u8]
    } else if b == 10 {
        seq![92u8, 110u8]
    } else if b == 12 {
        seq![92u8, 102u8]
    } else if b == 13 {
        seq![92u8, 114u8]
    } else if b < 32 {
        seq![92u8, 117u8, 48u8, 48u8, hex_digit(b as int / 16), hex_digit(b as int % 16)]
    } else {
        seq![b]
    }
}

/// A byte string as it appears inside a JSON string literal.
pub open spec fn json_escape(s: Seq<u8>) -> Seq<u8>
    decreases s.len(),
{
    if s.len() == 0 {
        Seq::empty()
    } else {
        esc_byte(s[0]) + json_escape(s.drop_first())
    }
}

/// Appends the JSON escaping of `s` to `out`.
fn push_escaped(out: &mut Vec<u8>, s: &[u8])
    ensures
        final(out)@ == old(out)@ + json_escape(s@),
{
    let n = s.len();
    let mut k: usize = 0;
    proof {
        assert(s@.skip(0) =~= s@);
        assert(old(out)@ + Seq::<u8>::empty() =~= old(out)@);
    }
    while k < n
        invariant
            k <= n,
            n == s@.len(),
            old(out)@ + json_escape(s@) == out@ + json_escape(s@.skip(k as int)),
        decreases n - k,
    {
        proof {
            assert(s@.skip(k as int)[0] == s@[k as int]);
            assert(s@.skip(k as int).drop_first() =~= s@.skip(k as int + 1));
        }
        let ghost prev = out@;
        let b = s[k];
        if b == 34 {
            out.push(92);
            out.push(34);
        } else if b == 92 {
            out.push(92);
            out.push(92);
        } else if b == 8 {
            out.push(92);
            out.push(98);
        } else if b == 9 {
            out.push(92);
            out.push(116);
        } else if b == 10 {
            out.push(92);
            out.push(110);
        } else if b == 12 {
            out.push(92);
            out.push(102);
        } else if b == 13 {
            out.push(92);
            out.push(114);
        } else if b < 32 {
            out.push(92);
            out.push(117);
            out.push(48);
            out.push(48);
            let hi = b / 16;
            let lo = b % 16;
            out.push(
                if hi < 10 {
                    48 + hi
                } else {
                    87 + hi
                },
            );
            out.push(
                if lo < 10 {
                    48 + lo
                } else {
                    87 + lo
                },
            );
        } else {
            out.push(b);
        }
        proof {
            assert(out@ =~= prev + esc_byte(s@[k as int]));
            assert(prev + (esc_byte(s@[k as int]) + json_escape(s@.skip(k as int + 1))) =~= (prev
                + esc_byte(s@[k as int])) + json_escape(s@.skip(k as int + 1)));
        }
        k = k + 1;
    }
    proof {
        assert(s@.skip(n as int) =~= Seq::<u8>::empty());
        assert(out@ + Seq::<u8>::empty() =~= out@);
    }
}

// The fixed property values of every envelope.
pub open spec fn prop_type() -> Seq<u8> {
    "structured".spec_bytes()
}

pub open spec fn prop_source() -> Seq<u8> {
    "mh-events2pulsar".spec_bytes()
}

pub open spec fn prop_outcome() -> Seq<u8> {
    "OK".spec_bytes()
}

pub open spec fn prop_specversion() -> Seq<u8> {
    "1.0".spec_bytes()
}

pub open spec fn prop_content_type() -> Seq<u8> {
    "application/cloudevents+json; charset=utf-8".spec_bytes()
}

/// The closed property map carried beside the payload.
pub struct Properties {
    pub typ: Vec<u8>,
    pub source: Vec<u8>,
    pub subject: Vec<u8>,
    pub outcome: Vec<u8>,
    pub correlation_id: Vec<u8>,
    pub specversion: Vec<u8>,
    pub content_type: Vec<u8>,
}

/// Mathematical view of [`Properties`].
pub struct PropertiesV {
    pub typ: Seq<u8>,
    pub source: Seq<u8>,
    pub subject: Seq<u8>,
    pub outcome: Seq<u8>,
    pub correlation_id: Seq<u8>,
    pub specversion: Seq<u8>,
    pub content_type: Seq<u8>,
}

impl View for Properties {
    type V = PropertiesV;

    open spec fn view(&self) -> PropertiesV {
        PropertiesV {
            typ: self.typ@,
            source: self.source@,
            subject: self.subject@,
            outcome: self.outcome@,
            correlation_id: self.correlation_id@,
            specversion: self.specversion@,
            content_type: self.content_type@,
        }
    }
}

/// The broker message built from one event: payload bytes, properties, and
/// the event instant.
pub struct Envelope {
    pub payload: Vec<u8>,
    pub properties: Properties,
    pub event_time: i64,
}

/// Mathematical view of [`Envelope`].
pub struct EnvelopeV {
    pub payload: Seq<u8>,
    pub properties: PropertiesV,
    pub event_time: int,
}

impl View for Envelope {
    type V = EnvelopeV;

    open spec fn view(&self) -> EnvelopeV {
        EnvelopeV {
            payload: self.payload@,
            properties: self.properties@,
            event_time: self.event_time as int,
        }
    }
}

/// The payload bytes of an envelope: one JSON object embedding the event's
/// original bytes under `data.premis` and repeating the property values.
pub open spec fn spec_payload(data: Seq<u8>, subject: Seq<u8>, cid: Seq<u8>) -> Seq<u8> {
    "{\"content_type\":\"application/cloudevents+json; charset=utf-8\",\"correlation_id\":\"".spec_bytes()
        + cid + "\",\"data\":{\"premis\":\"".spec_bytes() + json_escape(data)
        + "\"},\"datacontenttype\":\"application/json\",\"outcome\":\"OK\",\"source\":\"mh-events2pulsar\",\"specversion\":\"1.0\",\"subject\":\"".spec_bytes()
        + json_escape(subject) + "\",\"type\":\"structured\"}".spec_bytes()
}

/// A lowercase hexadecimal digit byte.
pub open spec fn is_lower_hex(b: u8) -> bool {
    (48 <= b <= 57) || (97 <= b <= 102)
}

/// Relies on uuid::Uuid::new_v4 and its simple formatting: a freshly drawn
/// random identifier, rendered as exactly 32 lowercase hexadecimal digits.
/// Nothing relates two calls: every call may return a new value.
#[verifier::external_body]
fn new_correlation_id() -> (r: Vec<u8>)
    ensures
        r@.len() == 32,
        forall|k: int| 0 <= k < r@.len() ==> is_lower_hex(#[trigger] r@[k]),
{
    uuid::Uuid::new_v4().simple().to_string().into_bytes()
}

/// Assembles the envelope of a message around a given correlation
/// identifier. Everything here is a function of the arguments.
pub fn build_envelope(input: Message, correlation_id: Vec<u8>) -> (r: Envelope)
    ensures
        r@.payload == spec_payload(input@.data, input@.subject, correlation_id@),
        r@.properties.typ == prop_type(),
        r@.properties.source == prop_source(),
        r@.properties.subject == input@.subject,
        r@.properties.outcome == prop_outcome(),
        r@.properties.correlation_id == correlation_id@,
        r@.properties.specversion == prop_specversion(),
        r@.properties.content_type == prop_content_type(),
        r@.event_time == input@.event_time,
{
    let mut payload = vstd::slice::slice_to_vec(
        "{\"content_type\":\"application/cloudevents+json; charset=utf-8\",\"correlation_id\":\"".as_bytes(),
    );
    let mut cid_copy = vstd::slice::slice_to_vec(correlation_id.as_slice());
    payload.append(&mut cid_copy);
    let mut mid = vstd::slice::slice_to_vec("\",\"data\":{\"premis\":\"".as_bytes());
    payload.append(&mut mid);
    push_escaped(&mut payload, input.data.as_slice());
    let mut mid2 = vstd::slice::slice_to_vec(
        "\"},\"datacontenttype\":\"application/json\",\"outcome\":\"OK\",\"source\":\"mh-events2pulsar\",\"specversion\":\"1.0\",\"subject\":\"".as_bytes(),
    );
    payload.append(&mut mid2);
    push_escaped(&mut payload, input.subject.as_slice());
    let mut tail = vstd::slice::slice_to_vec("\",\"type\":\"structured\"}".as_bytes());
    payload.append(&mut tail);
    let properties = Properties {
        typ: vstd::slice::slice_to_vec("structured".as_bytes()),
        source: vstd::slice::slice_to_vec("mh-events2pulsar".as_bytes()),
        subject: input.subject,
        outcome: vstd::slice::slice_to_vec("OK".as_bytes()),
        correlation_id,
        specversion: vstd::slice::slice_to_vec("1.0".as_bytes()),
        content_type: vstd::slice::slice_to_vec(
            "application/cloudevents+json; charset=utf-8".as_bytes(),
        ),
    };
    Envelope { payload, properties, event_time: input.event_time }
}

impl Message {
    /// Builds the broker envelope for this message: a fresh correlation
    /// identifier is drawn, and everything else is determined by the
    /// message, as [`spec_payload`] and the property constants describe.
    pub fn serialize_message(input: Message) -> (r: Envelope)
        ensures
            r@.payload == spec_payload(input@.data, input@.subject, r@.properties.correlation_id),
            r@.properties.typ == prop_type(),
            r@.properties.source == prop_source(),
            r@.properties.subject == input@.subject,
            r@.properties.outcome == prop_outcome(),
            r@.properties.correlation_id.len() == 32,
            forall|k: int|
                0 <= k < r@.properties.correlation_id.len() ==> is_lower_hex(
                    #[trigger] r@.properties.correlation_id[k],
                ),
            r@.properties.specversion == prop_specversion(),
            r@.properties.content_type == prop_content_type(),
            r@.event_time == input@.event_time,
    {
        let cid = new_correlation_id();
        build_envelope(input, cid)
    }
}

} // verus!
