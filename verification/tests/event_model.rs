use mh_events2pulsar::model::ParseError;
use mh_events2pulsar::model::Event;

fn v2_event_body() -> &'static str {
    r##"<premis:event xmlns:premis="info:lc/xmlns/premis-v2">
            <premis:eventIdentifier>
                <premis:eventIdentifierType>MEDIAHAVEN_EVENT</premis:eventIdentifierType>
                <premis:eventIdentifierValue>111</premis:eventIdentifierValue>
            </premis:eventIdentifier>
            <premis:eventType>FLOW.ARCHIVED</premis:eventType>
            <premis:eventDateTime>2019-03-30T05:28:40Z</premis:eventDateTime>
            <premis:eventDetail>Ionic Defibulizer</premis:eventDetail>
            <premis:eventOutcomeInformation>
                <premis:eventOutcome>OK</premis:eventOutcome>
            </premis:eventOutcomeInformation>
            <premis:linkingAgentIdentifier>
                <premis:linkingAgentIdentifierType>MEDIAHAVEN_USER</premis:linkingAgentIdentifierType>
                <premis:linkingAgentIdentifierValue>703a53d2-dc66-4eb2-ab7f-73d5fd228852</premis:linkingAgentIdentifierValue>
            </premis:linkingAgentIdentifier>
            <premis:linkingObjectIdentifier>
                <premis:linkingObjectIdentifierType>MEDIAHAVEN_ID</premis:linkingObjectIdentifierType>
                <premis:linkingObjectIdentifierValue>a1b2c3</premis:linkingObjectIdentifierValue>
            </premis:linkingObjectIdentifier>
            <premis:linkingObjectIdentifier>
                <premis:linkingObjectIdentifierType>EXTERNAL_ID</premis:linkingObjectIdentifierType>
                <premis:linkingObjectIdentifierValue>a1</premis:linkingObjectIdentifierValue>
            </premis:linkingObjectIdentifier>
        </premis:event>"##
}

#[test]
fn test_trigger_export_request() {
    // Arrange
    let body = v2_event_body();
    // Act
    let event = Event::new(body.as_bytes()).unwrap();
    // Assert
    assert_eq!(event.event_type, b"FLOW.ARCHIVED".to_vec());
    assert_eq!(event.event_timestamp, 1553923720000i64);
    assert_eq!(event.event_payload, body.as_bytes().to_vec());
    assert_eq!(event.to_xml(), body.as_bytes().to_vec());
}

#[test]
fn test_trigger_export_request_v3_diff() {
    // Arrange
    let body = r##"<premis:event xmlns:premis="http://www.loc.gov/premis/v3">
            <premis:eventIdentifier>
                <premis:eventIdentifierType>MEDIAHAVEN_EVENT</premis:eventIdentifierType>
                <premis:eventIdentifierValue>111</premis:eventIdentifierValue>
            </premis:eventIdentifier>
            <premis:eventType>RECORDS.UPDATE</premis:eventType>
            <premis:eventDateTime>2024-08-12T15:01:08.751Z</premis:eventDateTime>
            <premis:eventDetailInformation>
                <premis:eventDetail />
                <premis:eventDetailExtension>
                    <mhs:Difference xmlns:mhs="https://zeticon.mediahaven.com/metadata/24.1/mhs/">
                        <mhs:MetadataFieldChange>
                            <mhs:DottedKey>Structural.FragmentStartFrames</mhs:DottedKey>
                            <mhs:ValueBefore>0000000000</mhs:ValueBefore>
                            <mhs:ValueAfter>0000000000</mhs:ValueAfter>
                        </mhs:MetadataFieldChange>
                        <mhs:MetadataFieldChange>
                            <mhs:DottedKey>RightsManagement.Permissions</mhs:DottedKey>
                            <mhs:ValueBefore>
                                <mh:Read xmlns:mh="https://zeticon.mediahaven.com/metadata/24.1/mh/">bce42e8b-7dfd-4b5d-96a1-2873aa310698</mh:Read>
                                <mh:Read xmlns:mh="https://zeticon.mediahaven.com/metadata/24.1/mh/">181aa247-7fbd-4a52-bb23-8a03c951bf16</mh:Read>
                                <mh:Read xmlns:mh="https://zeticon.mediahaven.com/metadata/24.1/mh/">ccf230e1-73bb-4efb-9472-e95bc00d6144</mh:Read>
                                <mh:Read xmlns:mh="https://zeticon.mediahaven.com/metadata/24.1/mh/">48447232-3997-45e6-b337-b4e51493a4e0</mh:Read>
                                <mh:Read xmlns:mh="https://zeticon.mediahaven.com/metadata/24.1/mh/">a5f55209-34ad-4d94-b96c-2061e03bf60a</mh:Read>
                                <mh:Write xmlns:mh="https://zeticon.mediahaven.com/metadata/24.1/mh/">bce42e8b-7dfd-4b5d-96a1-2873aa310698</mh:Write>
                                <mh:Write xmlns:mh="https://zeticon.mediahaven.com/metadata/24.1/mh/">181aa247-7fbd-4a52-bb23-8a03c951bf16</mh:Write>
                                <mh:Write xmlns:mh="https://zeticon.mediahaven.com/metadata/24.1/mh/">ccf230e1-73bb-4efb-9472-e95bc00d6144</mh:Write>
                                <mh:Write xmlns:mh="https://zeticon.mediahaven.com/metadata/24.1/mh/">48447232-3997-45e6-b337-b4e51493a4e0</mh:Write>
                                <mh:Write xmlns:mh="https://zeticon.mediahaven.com/metadata/24.1/mh/">a5f55209-34ad-4d94-b96c-2061e03bf60a</mh:Write>
                                <mh:Export xmlns:mh="https://zeticon.mediahaven.com/metadata/24.1/mh/">bce42e8b-7dfd-4b5d-96a1-2873aa310698</mh:Export>
                                <mh:Export xmlns:mh="https://zeticon.mediahaven.com/metadata/24.1/mh/">181aa247-7fbd-4a52-bb23-8a03c951bf16</mh:Export>
                                <mh:Export xmlns:mh="https://zeticon.mediahaven.com/metadata/24.1/mh/">ccf230e1-73bb-4efb-9472-e95bc00d6144</mh:Export>
                                <mh:Export xmlns:mh="https://zeticon.mediahaven.com/metadata/24.1/mh/">48447232-3997-45e6-b337-b4e51493a4e0</mh:Export>
                                <mh:Export xmlns:mh="https://zeticon.mediahaven.com/metadata/24.1/mh/">a5f55209-34ad-4d94-b96c-2061e03bf60a</mh:Export>
                            </mhs:ValueBefore>
                            <mhs:ValueAfter>
                                <mh:Read xmlns:mh="https://zeticon.mediahaven.com/metadata/24.1/mh/">ccf230e1-73bb-4efb-9472-e95bc00d6144</mh:Read>
                                <mh:Read xmlns:mh="https://zeticon.mediahaven.com/metadata/24.1/mh/">bce42e8b-7dfd-4b5d-96a1-2873aa310698</mh:Read>
                                <mh:Read xmlns:mh="https://zeticon.mediahaven.com/metadata/24.1/mh/">181aa247-7fbd-4a52-bb23-8a03c951bf16</mh:Read>
                                <mh:Write xmlns:mh="https://zeticon.mediahaven.com/metadata/24.1/mh/">ccf230e1-73bb-4efb-9472-e95bc00d6144</mh:Write>
                                <mh:Write xmlns:mh="https://zeticon.mediahaven.com/metadata/24.1/mh/">bce42e8b-7dfd-4b5d-96a1-2873aa310698</mh:Write>
                                <mh:Write xmlns:mh="https://zeticon.mediahaven.com/metadata/24.1/mh/">181aa247-7fbd-4a52-bb23-8a03c951bf16</mh:Write>
                                <mh:Export xmlns:mh="https://zeticon.mediahaven.com/metadata/24.1/mh/">ccf230e1-73bb-4efb-9472-e95bc00d6144</mh:Export>
                                <mh:Export xmlns:mh="https://zeticon.mediahaven.com/metadata/24.1/mh/">bce42e8b-7dfd-4b5d-96a1-2873aa310698</mh:Export>
                                <mh:Export xmlns:mh="https://zeticon.mediahaven.com/metadata/24.1/mh/">181aa247-7fbd-4a52-bb23-8a03c951bf16</mh:Export>
                            </mhs:ValueAfter>
                        </mhs:MetadataFieldChange>
                        <mhs:MetadataFieldChange>
                            <mhs:DottedKey>Structural.FragmentEndFrames</mhs:DottedKey>
                            <mhs:ValueBefore>0000000000</mhs:ValueBefore>
                            <mhs:ValueAfter>0000000000</mhs:ValueAfter>
                        </mhs:MetadataFieldChange>
                        <mhs:MetadataFieldChange>
                            <mhs:DottedKey>Dynamic.dc_types</mhs:DottedKey>
                            <mhs:ValueBefore />
                            <mhs:ValueAfter>
                                <mh:multiselect xmlns:mh="https://zeticon.mediahaven.com/metadata/24.1/mh/">Drama</mh:multiselect>
                            </mhs:ValueAfter>
                        </mhs:MetadataFieldChange>
                    </mhs:Difference>
                </premis:eventDetailExtension>
            </premis:eventDetailInformation>
            <premis:eventOutcomeInformation>
                <premis:eventOutcome>OK</premis:eventOutcome>
            </premis:eventOutcomeInformation>
            <premis:linkingAgentIdentifier>
                <premis:linkingAgentIdentifierType>MEDIAHAVEN_USER</premis:linkingAgentIdentifierType>
                <premis:linkingAgentIdentifierValue>7c741085-71db-4ab0-8d3d-f350a3fc4b1b</premis:linkingAgentIdentifierValue>
            </premis:linkingAgentIdentifier>
            <premis:linkingObjectIdentifier>
                <premis:linkingObjectIdentifierType>MEDIAHAVEN_ID</premis:linkingObjectIdentifierType>
                <premis:linkingObjectIdentifierValue>a1b2c3</premis:linkingObjectIdentifierValue>
            </premis:linkingObjectIdentifier>
            <premis:linkingObjectIdentifier>
                <premis:linkingObjectIdentifierType>EXTERNAL_ID</premis:linkingObjectIdentifierType>
                <premis:linkingObjectIdentifierValue>a1</premis:linkingObjectIdentifierValue>
            </premis:linkingObjectIdentifier>
        </premis:event>"##;

    // Act
    let event = Event::new(body.as_bytes()).unwrap();
    // Assert
    assert_eq!(event.event_type, b"RECORDS.UPDATE".to_vec());
    assert_eq!(event.event_timestamp, 1723474868751i64);
    assert_eq!(event.event_payload, body.as_bytes().to_vec());
    assert_eq!(event.to_xml(), body.as_bytes().to_vec());
}

#[test]
fn subject_found_after_other_identifiers() {
    let event = Event::new(v2_event_body().as_bytes()).unwrap();
    assert_eq!(event.subject(), b"a1".to_vec());
}

#[test]
fn subject_sentinel_when_absent() {
    let body = r##"<event>
        <eventType>FLOW.ARCHIVED</eventType>
        <eventDateTime>2019-03-30T05:28:40Z</eventDateTime>
        <eventOutcomeInformation><eventOutcome>OK</eventOutcome></eventOutcomeInformation>
        <linkingAgentIdentifier>
            <linkingAgentIdentifierType>USER</linkingAgentIdentifierType>
            <linkingAgentIdentifierValue>u1</linkingAgentIdentifierValue>
        </linkingAgentIdentifier>
        <linkingObjectIdentifier>
            <linkingObjectIdentifierType>MEDIAHAVEN_ID</linkingObjectIdentifierType>
            <linkingObjectIdentifierValue>m1</linkingObjectIdentifierValue>
        </linkingObjectIdentifier>
    </event>"##;
    let event = Event::new(body.as_bytes()).unwrap();
    assert_eq!(event.subject(), b"no_subject_found".to_vec());
}

#[test]
fn subject_single_external_id() {
    let body = r##"<event>
        <eventType>T</eventType>
        <eventDateTime>2019-03-30T05:28:40Z</eventDateTime>
        <eventOutcomeInformation><eventOutcome>OK</eventOutcome></eventOutcomeInformation>
        <linkingAgentIdentifier>
            <linkingAgentIdentifierType>USER</linkingAgentIdentifierType>
            <linkingAgentIdentifierValue>u1</linkingAgentIdentifierValue>
        </linkingAgentIdentifier>
        <linkingObjectIdentifier>
            <linkingObjectIdentifierType>EXTERNAL_ID</linkingObjectIdentifierType>
            <linkingObjectIdentifierValue>xyz</linkingObjectIdentifierValue>
        </linkingObjectIdentifier>
    </event>"##;
    let event = Event::new(body.as_bytes()).unwrap();
    assert_eq!(event.subject(), b"xyz".to_vec());
}

#[test]
fn missing_event_type_rejected() {
    let body = r##"<event>
        <eventDateTime>2019-03-30T05:28:40Z</eventDateTime>
        <eventOutcomeInformation><eventOutcome>OK</eventOutcome></eventOutcomeInformation>
        <linkingAgentIdentifier>
            <linkingAgentIdentifierType>USER</linkingAgentIdentifierType>
            <linkingAgentIdentifierValue>u1</linkingAgentIdentifierValue>
        </linkingAgentIdentifier>
    </event>"##;
    assert!(matches!(Event::new(body.as_bytes()), Err(ParseError::MissingEventType)));
}

#[test]
fn missing_event_date_time_rejected() {
    let body = r##"<event>
        <eventType>T</eventType>
        <eventOutcomeInformation><eventOutcome>OK</eventOutcome></eventOutcomeInformation>
        <linkingAgentIdentifier>
            <linkingAgentIdentifierType>USER</linkingAgentIdentifierType>
            <linkingAgentIdentifierValue>u1</linkingAgentIdentifierValue>
        </linkingAgentIdentifier>
    </event>"##;
    assert!(matches!(Event::new(body.as_bytes()), Err(ParseError::MissingEventDateTime)));
}

#[test]
fn invalid_event_date_time_rejected() {
    let body = r##"<event>
        <eventType>T</eventType>
        <eventDateTime>2019-03-30 05:28:40</eventDateTime>
        <eventOutcomeInformation><eventOutcome>OK</eventOutcome></eventOutcomeInformation>
        <linkingAgentIdentifier>
            <linkingAgentIdentifierType>USER</linkingAgentIdentifierType>
            <linkingAgentIdentifierValue>u1</linkingAgentIdentifierValue>
        </linkingAgentIdentifier>
    </event>"##;
    assert!(matches!(Event::new(body.as_bytes()), Err(ParseError::InvalidEventDateTime)));
}

#[test]
fn missing_outcome_rejected() {
    let body = r##"<event>
        <eventType>T</eventType>
        <eventDateTime>2019-03-30T05:28:40Z</eventDateTime>
        <linkingAgentIdentifier>
            <linkingAgentIdentifierType>USER</linkingAgentIdentifierType>
            <linkingAgentIdentifierValue>u1</linkingAgentIdentifierValue>
        </linkingAgentIdentifier>
    </event>"##;
    assert!(matches!(Event::new(body.as_bytes()), Err(ParseError::MissingEventOutcome)));
}

#[test]
fn missing_linking_agent_rejected() {
    let body = r##"<event>
        <eventType>T</eventType>
        <eventDateTime>2019-03-30T05:28:40Z</eventDateTime>
        <eventOutcomeInformation><eventOutcome>OK</eventOutcome></eventOutcomeInformation>
    </event>"##;
    assert!(matches!(Event::new(body.as_bytes()), Err(ParseError::MissingLinkingAgent)));
}

#[test]
fn mismatched_tags_rejected() {
    let body = "<event><eventType>T</wrong></event>";
    assert!(matches!(Event::new(body.as_bytes()), Err(ParseError::MalformedEvent)));
}

#[test]
fn fractional_seconds_truncate_to_millis() {
    let mk = |ts: &str| {
        format!(
            "<event><eventType>T</eventType><eventDateTime>{}</eventDateTime>\
             <eventOutcomeInformation><eventOutcome>OK</eventOutcome></eventOutcomeInformation>\
             <linkingAgentIdentifier><linkingAgentIdentifierType>U</linkingAgentIdentifierType>\
             <linkingAgentIdentifierValue>u</linkingAgentIdentifierValue></linkingAgentIdentifier>\
             </event>",
            ts
        )
    };
    let e1 = Event::new(mk("2024-08-12T15:01:08.7Z").as_bytes()).unwrap();
    assert_eq!(e1.event_timestamp, 1723474868700i64);
    let e2 = Event::new(mk("2024-08-12T15:01:08.7519Z").as_bytes()).unwrap();
    assert_eq!(e2.event_timestamp, 1723474868751i64);
    let e3 = Event::new(mk("1969-12-31T23:59:59Z").as_bytes()).unwrap();
    assert_eq!(e3.event_timestamp, -1000i64);
    assert!(matches!(
        Event::new(mk("2019-02-29T00:00:00Z").as_bytes()),
        Err(ParseError::InvalidEventDateTime)
    ));
    let e4 = Event::new(mk("2020-02-29T00:00:00Z").as_bytes()).unwrap();
    assert_eq!(e4.event_timestamp, 1582934400000i64);
}

#[test]
fn detail_optional_and_structured_detail_tolerated() {
    let body = r##"<event>
        <eventType>T</eventType>
        <eventDateTime>2019-03-30T05:28:40Z</eventDateTime>
        <eventDetailInformation><eventDetail /><other>x</other></eventDetailInformation>
        <eventOutcomeInformation><eventOutcome>OK</eventOutcome></eventOutcomeInformation>
        <linkingAgentIdentifier>
            <linkingAgentIdentifierType>USER</linkingAgentIdentifierType>
            <linkingAgentIdentifierValue>u1</linkingAgentIdentifierValue>
        </linkingAgentIdentifier>
    </event>"##;
    assert!(Event::new(body.as_bytes()).is_ok());
}

#[test]
fn error_descriptions() {
    assert_eq!(
        ParseError::MalformedBatch.describe(),
        "malformed batch document".to_string()
    );
    assert_eq!(ParseError::MissingEventType.describe(), "missing eventType".to_string());
}
