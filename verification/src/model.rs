//! The typed representation of one provenance event, together with the
//! errors the bridge can report while turning a request body into broker
//! messages.

use vstd::prelude::*;

verus! {

/// Why a request body or one of its events was rejected.
#[derive(Clone, Copy, PartialEq, Eq, Debug, Structural)]
pub enum ParseError {
    /// The request body is not a well-formed document.
    MalformedBatch,
    /// An event substring is not a well-formed element.
    MalformedEvent,
    /// The event has no `eventType` child, or an empty one.
    MissingEventType,
    /// The event has no `eventDateTime` child.
    MissingEventDateTime,
    /// The `eventDateTime` text is not an accepted timestamp.
    InvalidEventDateTime,
    /// The event has no `eventOutcomeInformation` with an `eventOutcome`.
    MissingEventOutcome,
    /// The event has no `linkingAgentIdentifier` with a type and a value.
    MissingLinkingAgent,
}

impl ParseError {
    /// A short description, suitable for an error response body.
    pub fn describe(&self) -> (r: String)
        ensures
            self is MalformedBatch ==> r@ == "malformed batch document"@,
            self is MalformedEvent ==> r@ == "malformed event element"@,
            self is MissingEventType ==> r@ == "missing eventType"@,
            self is MissingEventDateTime ==> r@ == "missing eventDateTime"@,
            self is InvalidEventDateTime ==> r@ == "invalid eventDateTime"@,
            self is MissingEventOutcome ==> r@ == "missing eventOutcomeInformation"@,
            self is MissingLinkingAgent ==> r@ == "missing linkingAgentIdentifier"@,
    {
        match self {
            ParseError::MalformedBatch => "malformed batch document".to_owned(),
            ParseError::MalformedEvent => "malformed event element".to_owned(),
            ParseError::MissingEventType => "missing eventType".to_owned(),
            ParseError::MissingEventDateTime => "missing eventDateTime".to_owned(),
            ParseError::InvalidEventDateTime => "invalid eventDateTime".to_owned(),
            ParseError::MissingEventOutcome => "missing eventOutcomeInformation".to_owned(),
            ParseError::MissingLinkingAgent => "missing linkingAgentIdentifier".to_owned(),
        }
    }
}

/// The `eventIdentifier` pair of an event.
pub struct EventIdentifier {
    pub event_identifier_type: Vec<u8>,
    pub event_identifier_value: Vec<u8>,
}

/// The `eventOutcomeInformation` block, reduced to its `eventOutcome` text.
pub struct EventOutcomeInformation {
    pub event_outcome: Vec<u8>,
}

/// The `linkingAgentIdentifier` pair naming the actor behind an event.
pub struct LinkingAgentIdentifier {
    pub linking_agent_identifier_type: Vec<u8>,
    pub linking_agent_identifier_value: Vec<u8>,
}

/// One `linkingObjectIdentifier` pair naming an object the event concerns.
pub struct LinkingObjectIdentifier {
    pub linking_object_identifier_type: Vec<u8>,
    pub linking_object_identifier_value: Vec<u8>,
}

/// Mathematical view of [`EventIdentifier`].
pub struct EventIdentifierV {
    pub typ: Seq<u8>,
    pub val: Seq<u8>,
}

/// Mathematical view of [`LinkingAgentIdentifier`].
pub struct LinkingAgentIdentifierV {
    pub typ: Seq<u8>,
    pub val: Seq<u8>,
}

/// Mathematical view of [`LinkingObjectIdentifier`].
pub struct LinkingObjectIdentifierV {
    pub typ: Seq<u8>,
    pub val: Seq<u8>,
}

impl View for EventIdentifier {
    type V = EventIdentifierV;

    open spec fn view(&self) -> EventIdentifierV {
        EventIdentifierV { typ: self.event_identifier_type@, val: self.event_identifier_value@ }
    }
}

impl View for LinkingAgentIdentifier {
    type V = LinkingAgentIdentifierV;

    open spec fn view(&self) -> LinkingAgentIdentifierV {
        LinkingAgentIdentifierV {
            typ: self.linking_agent_identifier_type@,
            val: self.linking_agent_identifier_value@,
        }
    }
}

impl View for LinkingObjectIdentifier {
    type V = LinkingObjectIdentifierV;

    open spec fn view(&self) -> LinkingObjectIdentifierV {
        LinkingObjectIdentifierV {
            typ: self.linking_object_identifier_type@,
            val: self.linking_object_identifier_value@,
        }
    }
}

/// One provenance event: the fields read from its element, and the exact
/// original bytes it was read from.
pub struct Event {
    /// The optional `eventIdentifier` pair; kept, not used for routing.
    pub event_identifier: Option<EventIdentifier>,
    /// The `eventType` text; never empty.
    pub event_type: Vec<u8>,
    /// The `eventDateTime`, as milliseconds since the Unix epoch.
    pub event_timestamp: i64,
    /// The optional `eventDetail` text.
    pub event_detail: Option<Vec<u8>>,
    /// The `eventOutcomeInformation` block.
    pub event_outcome_information: EventOutcomeInformation,
    /// The `linkingAgentIdentifier` pair.
    pub linking_agent_identifier: LinkingAgentIdentifier,
    /// All `linkingObjectIdentifier` pairs, in document order.
    pub linking_object_identifier: Vec<LinkingObjectIdentifier>,
    /// The exact bytes this event was parsed from.
    pub event_payload: Vec<u8>,
}

/// Mathematical view of [`Event`].
pub struct EventV {
    pub event_identifier: Option<EventIdentifierV>,
    pub event_type: Seq<u8>,
    pub event_timestamp: int,
    pub event_detail: Option<Seq<u8>>,
    pub event_outcome: Seq<u8>,
    pub linking_agent: LinkingAgentIdentifierV,
    pub linking_objects: Seq<LinkingObjectIdentifierV>,
    pub event_payload: Seq<u8>,
}

impl View for Event {
    type V = EventV;

    open spec fn view(&self) -> EventV {
        EventV {
            event_identifier: match self.event_identifier {
                Some(id) => Some(id@),
                None => None,
            },
            event_type: self.event_type@,
            event_timestamp: self.event_timestamp as int,
            event_detail: match self.event_detail {
                Some(d) => Some(d@),
                None => None,
            },
            event_outcome: self.event_outcome_information.event_outcome@,
            linking_agent: self.linking_agent_identifier@,
            linking_objects: Seq::new(
                self.linking_object_identifier@.len(),
                |k: int| self.linking_object_identifier@[k]@,
            ),
            event_payload: self.event_payload@,
        }
    }
}

/// The `linkingObjectIdentifierType` that names an event's subject.
pub open spec fn external_id_type() -> Seq<u8> {
    // the bytes of `EXTERNAL_ID`
    seq![69u8, 88u8, 84u8, 69u8, 82u8, 78u8, 65u8, 76u8, 95u8, 73u8, 68u8]
}

/// The subject reported when no linking object carries an external id.
pub open spec fn no_subject_found() -> Seq<u8> {
    // the bytes of `no_subject_found`
    seq![
        110u8, 111u8, 95u8, 115u8, 117u8, 98u8, 106u8, 101u8, 99u8, 116u8, 95u8, 102u8, 111u8,
        117u8, 110u8, 100u8,
    ]
}

/// The subject of a sequence of linking objects: the value of the first pair
/// whose type is `EXTERNAL_ID`, or the sentinel when there is none.
pub open spec fn spec_subject(objs: Seq<LinkingObjectIdentifierV>) -> Seq<u8>
    decreases objs.len(),
{
    if objs.len() == 0 {
        no_subject_found()
    } else if objs[0].typ == external_id_type() {
        objs[0].val
    } else {
        spec_subject(objs.drop_first())
    }
}

impl Event {
    /// The event's exact original serialized form; never a re-serialization
    /// of the parsed fields.
    pub fn to_xml(&self) -> (r: Vec<u8>)
        ensures
            r@ == self@.event_payload,
    {
        self.event_payload.clone()
    }

    /// The external identifier of the object this event concerns: the value
    /// of the first `linkingObjectIdentifier` of type `EXTERNAL_ID`, or
    /// `no_subject_found` when no such pair exists.
    pub fn subject(&self) -> (r: Vec<u8>)
        ensures
            r@ == spec_subject(self@.linking_objects),
    {
        let mut k: usize = 0;
        let n = self.linking_object_identifier.len();
        proof {
            assert(self@.linking_objects.skip(0) =~= self@.linking_objects);
        }
        while k < n
            invariant
                k <= n,
                n == self.linking_object_identifier@.len(),
                spec_subject(self@.linking_objects) == spec_subject(
                    self@.linking_objects.skip(k as int),
                ),
            decreases n - k,
        {
            proof {
                assert(self@.linking_objects.skip(k as int)[0] == self@.linking_objects[k as int]);
            }
            let obj = &self.linking_object_identifier[k];
            if bytes_is_external_id(&obj.linking_object_identifier_type) {
                return obj.linking_object_identifier_value.clone();
            }
            proof {
                assert(self@.linking_objects.skip(k as int).drop_first() =~= self@.linking_objects
                    .skip(k as int + 1));
            }
            k = k + 1;
        }
        proof {
            assert(self@.linking_objects.skip(n as int) =~= Seq::<
                LinkingObjectIdentifierV,
            >::empty());
        }
        no_subject_found_bytes()
    }
}

/// Whether `b` holds exactly the bytes of `EXTERNAL_ID`.
pub fn bytes_is_external_id(b: &Vec<u8>) -> (r: bool)
    ensures
        r == (b@ == external_id_type()),
{
    if b.len() != 11 {
        assert(b@.len() != external_id_type().len());
        return false;
    }
    let r = b[0] == 69 && b[1] == 88 && b[2] == 84 && b[3] == 69 && b[4] == 82 && b[5] == 78 && b[6]
        == 65 && b[7] == 76 && b[8] == 95 && b[9] == 73 && b[10] == 68;
    proof {
        if r {
            assert(b@ =~= external_id_type());
        } else {
            assert(b@ != external_id_type());
        }
    }
    r
}

/// The sentinel subject, as bytes.
pub fn no_subject_found_bytes() -> (r: Vec<u8>)
    ensures
        r@ == no_subject_found(),
{
    let mut v: Vec<u8> = Vec::new();
    v.push(110);
    v.push(111);
    v.push(95);
    v.push(115);
    v.push(117);
    v.push(98);
    v.push(106);
    v.push(101);
    v.push(99);
    v.push(116);
    v.push(95);
    v.push(102);
    v.push(111);
    v.push(117);
    v.push(110);
    v.push(100);
    proof {
        assert(v@ =~= no_subject_found());
    }
    v
}

/// No linking object of type `EXTERNAL_ID` means the sentinel subject.
pub proof fn lemma_subject_absent(objs: Seq<LinkingObjectIdentifierV>)
    requires
        forall|k: int| 0 <= k < objs.len() ==> (#[trigger] objs[k]).typ != external_id_type(),
    ensures
        spec_subject(objs) == no_subject_found(),
    decreases objs.len(),
{
    if objs.len() > 0 {
        assert(objs[0].typ != external_id_type());
        lemma_subject_absent(objs.drop_first());
    }
}

/// The first linking object of type `EXTERNAL_ID` decides the subject, even
/// when other pairs stand before it.
pub proof fn lemma_subject_first_external(objs: Seq<LinkingObjectIdentifierV>, k: int)
    requires
        0 <= k < objs.len(),
        objs[k].typ == external_id_type(),
        forall|m: int| 0 <= m < k ==> (#[trigger] objs[m]).typ != external_id_type(),
    ensures
        spec_subject(objs) == objs[k].val,
    decreases objs.len(),
{
    if k > 0 {
        assert(objs[0].typ != external_id_type());
        assert(objs.drop_first()[k - 1] == objs[k]);
        assert(forall|m: int|
            0 <= m < k - 1 ==> (#[trigger] objs.drop_first()[m]) == objs[m + 1]);
        lemma_subject_first_external(objs.drop_first(), k - 1);
    }
}

} // verus!
