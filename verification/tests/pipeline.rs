use mh_events2pulsar::batch::{prepare_batch, prepare_publication, split_events};
use mh_events2pulsar::envelope::{build_envelope, pulsar_topic, routing_key, Message};
use mh_events2pulsar::model::{Event, ParseError};
use mh_events2pulsar::{default_pulsar_host, default_pulsar_namespace, default_pulsar_port};

fn valid_event(event_type: &str, subject: &str) -> String {
    format!(
        "<premis:event xmlns:premis=\"info:lc/xmlns/premis-v2\">\
         <premis:eventType>{}</premis:eventType>\
         <premis:eventDateTime>2019-03-30T05:28:40Z</premis:eventDateTime>\
         <premis:eventOutcomeInformation><premis:eventOutcome>OK</premis:eventOutcome>\
         </premis:eventOutcomeInformation>\
         <premis:linkingAgentIdentifier>\
         <premis:linkingAgentIdentifierType>MEDIAHAVEN_USER</premis:linkingAgentIdentifierType>\
         <premis:linkingAgentIdentifierValue>703a53d2</premis:linkingAgentIdentifierValue>\
         </premis:linkingAgentIdentifier>\
         <premis:linkingObjectIdentifier>\
         <premis:linkingObjectIdentifierType>EXTERNAL_ID</premis:linkingObjectIdentifierType>\
         <premis:linkingObjectIdentifierValue>{}</premis:linkingObjectIdentifierValue>\
         </premis:linkingObjectIdentifier>\
         </premis:event>",
        event_type, subject
    )
}

#[test]
fn topic_derivation() {
    assert_eq!(
        routing_key(b"FLOW.ARCHIVED"),
        b"be.mediahaven.flow.archived".to_vec()
    );
    // casing of the event type does not matter
    assert_eq!(routing_key(b"FLOW.ARCHIVED"), routing_key(b"flow.Archived"));
    assert_eq!(
        pulsar_topic(b"default", b"be.mediahaven.flow.archived"),
        b"persistent://public/default/be.mediahaven.flow.archived".to_vec()
    );
}

#[test]
fn batch_splits_into_exact_substrings_in_order() {
    let e1 = valid_event("FLOW.ARCHIVED", "a1");
    let e2 = valid_event("RECORDS.UPDATE", "b2");
    let body = format!("<events>\n  {}\n  {}\n</events>", e1, e2);
    let segs = split_events(body.as_bytes()).unwrap();
    assert_eq!(segs.len(), 2);
    assert_eq!(segs[0], e1.as_bytes().to_vec());
    assert_eq!(segs[1], e2.as_bytes().to_vec());
    // each substring round-trips through the parser byte for byte
    for seg in &segs {
        let ev = Event::new(seg.as_slice()).unwrap();
        assert_eq!(ev.to_xml(), seg.clone());
    }
}

#[test]
fn batch_ignores_other_children_and_misc() {
    let e1 = valid_event("FLOW.ARCHIVED", "a1");
    let body = format!(
        "<?xml version=\"1.0\"?><!-- a batch --><events><meta>x</meta>{}<!-- tail --></events>",
        e1
    );
    let segs = split_events(body.as_bytes()).unwrap();
    assert_eq!(segs.len(), 1);
    assert_eq!(segs[0], e1.as_bytes().to_vec());
}

#[test]
fn malformed_batch_rejected_whole() {
    assert_eq!(
        split_events(b"<events><event></events>"),
        Err(ParseError::MalformedBatch)
    );
    assert_eq!(split_events(b"no xml here"), Err(ParseError::MalformedBatch));
    let (pubs, err) = prepare_batch(b"<events><event></events>");
    assert_eq!(pubs.len(), 0);
    assert_eq!(err, Some(ParseError::MalformedBatch));
}

#[test]
fn empty_batch_publishes_nothing() {
    let (pubs, err) = prepare_batch(b"<events></events>");
    assert_eq!(pubs.len(), 0);
    assert_eq!(err, None);
}

#[test]
fn failure_propagation_stops_at_first_bad_event() {
    let e1 = valid_event("FLOW.ARCHIVED", "a1");
    // the second event has no eventType
    let e2 = "<event>\
              <eventDateTime>2019-03-30T05:28:40Z</eventDateTime>\
              <eventOutcomeInformation><eventOutcome>OK</eventOutcome>\
              </eventOutcomeInformation>\
              <linkingAgentIdentifier>\
              <linkingAgentIdentifierType>U</linkingAgentIdentifierType>\
              <linkingAgentIdentifierValue>u</linkingAgentIdentifierValue>\
              </linkingAgentIdentifier></event>";
    let e3 = valid_event("NEVER.REACHED", "c3");
    let body = format!("<events>{}{}{}</events>", e1, e2, e3);
    let (pubs, err) = prepare_batch(body.as_bytes());
    // the first event's publication stands; the second event's failure is
    // reported; the third event is not processed
    assert_eq!(pubs.len(), 1);
    assert_eq!(pubs[0].topic, b"be.mediahaven.flow.archived".to_vec());
    assert_eq!(err, Some(ParseError::MissingEventType));
}

#[test]
fn end_to_end_single_event() {
    let body = format!(
        "<events>{}</events>",
        valid_event("FLOW.ARCHIVED", "a1")
    );
    let (pubs, err) = prepare_batch(body.as_bytes());
    assert_eq!(err, None);
    assert_eq!(pubs.len(), 1);
    assert_eq!(pubs[0].topic, b"be.mediahaven.flow.archived".to_vec());
    assert_eq!(pubs[0].message.subject, b"a1".to_vec());
    assert_eq!(pubs[0].message.event_time, 1553923720000i64);
    let envelope = Message::serialize_message(Message {
        data: pubs[0].message.data.clone(),
        event_time: pubs[0].message.event_time,
        subject: pubs[0].message.subject.clone(),
    });
    assert_eq!(envelope.event_time, 1553923720000i64);
    assert_eq!(envelope.properties.subject, b"a1".to_vec());
    assert_eq!(envelope.properties.typ, b"structured".to_vec());
    assert_eq!(envelope.properties.source, b"mh-events2pulsar".to_vec());
    assert_eq!(envelope.properties.outcome, b"OK".to_vec());
    assert_eq!(envelope.properties.specversion, b"1.0".to_vec());
    assert_eq!(
        envelope.properties.content_type,
        b"application/cloudevents+json; charset=utf-8".to_vec()
    );
}

#[test]
fn correlation_ids_differ_between_envelopes() {
    let message = || Message {
        data: b"<event/>".to_vec(),
        event_time: 0,
        subject: b"s".to_vec(),
    };
    let a = Message::serialize_message(message());
    let b = Message::serialize_message(message());
    assert_eq!(a.properties.correlation_id.len(), 32);
    assert!(a
        .properties
        .correlation_id
        .iter()
        .all(|c| c.is_ascii_hexdigit() && !c.is_ascii_uppercase()));
    assert_ne!(a.properties.correlation_id, b.properties.correlation_id);
}

#[test]
fn payload_embeds_raw_xml_and_properties() {
    let input = Message {
        data: b"<a href=\"x\">1 \\ 2\n</a>".to_vec(),
        event_time: 7,
        subject: b"su\"b".to_vec(),
    };
    let envelope = build_envelope(input, b"0123456789abcdef0123456789abcdef".to_vec());
    let expected = "{\"content_type\":\"application/cloudevents+json; charset=utf-8\",\
                    \"correlation_id\":\"0123456789abcdef0123456789abcdef\",\
                    \"data\":{\"premis\":\"<a href=\\\"x\\\">1 \\\\ 2\\n</a>\"},\
                    \"datacontenttype\":\"application/json\",\
                    \"outcome\":\"OK\",\
                    \"source\":\"mh-events2pulsar\",\
                    \"specversion\":\"1.0\",\
                    \"subject\":\"su\\\"b\",\
                    \"type\":\"structured\"}";
    assert_eq!(envelope.payload, expected.as_bytes().to_vec());
    assert_eq!(envelope.event_time, 7);
}

#[test]
fn prepare_publication_reports_parse_errors() {
    let bad = "<event><eventType></eventType></event>";
    assert!(matches!(
        prepare_publication(bad.as_bytes()),
        Err(ParseError::MissingEventType)
    ));
    let good = valid_event("A.B", "s");
    let publication = prepare_publication(good.as_bytes()).unwrap();
    assert_eq!(publication.topic, b"be.mediahaven.a.b".to_vec());
}

#[test]
fn configuration_defaults() {
    assert_eq!(default_pulsar_host(), "localhost".to_string());
    assert_eq!(default_pulsar_port(), "6650".to_string());
    assert_eq!(default_pulsar_namespace(), "default".to_string());
}

#[test]
fn events_request_body_processed() {
    // the request body of the original events endpoint: one v2 event inside
    // an events wrapper, with indentation
    let body = r##"<events>
            <premis:event xmlns:premis="info:lc/xmlns/premis-v2">
            <premis:eventIdentifier>
                <premis:eventIdentifierType>MEDIAHAVEN_EVENT</premis:eventIdentifierType>
                <premis:eventIdentifierValue>111</premis:eventIdentifierValue>
            </premis:eventIdentifier>
            <premis:eventType>FLOW.ARCHIVED</premis:eventType>
            <premis:eventDateTime>2019-03-30T05:28:40Z</premis:eventDateTime>
            <premis:eventDetail>Ionic Defibulizer</premis:eventDetail>
            <premis:eventOutcomeInformation>
                <premis:eventOutcome>OK</premis:eventOutcome>
            </premis:eventOutcomeInformation>
            <premis:linkingAgentIdentifier>
                <premis:linkingAgentIdentifierType>MEDIAHAVEN_USER</premis:linkingAgentIdentifierType>
                <premis:linkingAgentIdentifierValue>703a53d2-dc66-4eb2-ab7f-73d5fd228852</premis:linkingAgentIdentifierValue>
            </premis:linkingAgentIdentifier>
            <premis:linkingObjectIdentifier>
                <premis:linkingObjectIdentifierType>MEDIAHAVEN_ID</premis:linkingObjectIdentifierType>
                <premis:linkingObjectIdentifierValue>a1b2c3</premis:linkingObjectIdentifierValue>
            </premis:linkingObjectIdentifier>
            <premis:linkingObjectIdentifier>
                <premis:linkingObjectIdentifierType>EXTERNAL_ID</premis:linkingObjectIdentifierType>
                <premis:linkingObjectIdentifierValue>a1</premis:linkingObjectIdentifierValue>
            </premis:linkingObjectIdentifier>
            </premis:event>
        </events>"##;
    let (pubs, err) = prepare_batch(body.as_bytes());
    assert_eq!(err, None);
    assert_eq!(pubs.len(), 1);
    assert_eq!(pubs[0].topic, b"be.mediahaven.flow.archived".to_vec());
    assert_eq!(pubs[0].message.subject, b"a1".to_vec());
    assert_eq!(pubs[0].message.event_time, 1553923720000i64);
    // the message carries the event's exact original substring
    let segs = split_events(body.as_bytes()).unwrap();
    assert_eq!(pubs[0].message.data, segs[0]);
}
