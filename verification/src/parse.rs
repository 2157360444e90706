//! Parsing one event element into the typed model.
//!
//! [`spec_parse`] is the grammar: it says, for every byte string, whether it
//! is an accepted event and which model it denotes, or which error rejects
//! it. [`Event::new`] computes exactly that. Element names are matched by
//! their local name, so any namespace prefix is accepted.

use vstd::prelude::*;
use vstd::string::StringSliceAdditionalSpecFns;

use crate::model::{
    Event, EventIdentifier, EventIdentifierV, EventOutcomeInformation, EventV,
    LinkingAgentIdentifier, LinkingAgentIdentifierV, LinkingObjectIdentifier,
    LinkingObjectIdentifierV, ParseError,
};
use crate::time::{parse_timestamp, parse_ts};
use crate::xml::{
    bytes_eq_range, lemma_scan_elem_bounds, lemma_scan_kids_bounds, scan_elem, scan_elem_x,
    scan_kids, scan_kids_x, skip_ws, skip_ws_x, spans_of, ElemSpan, ElemSpanX,
};

verus! {

// The element names the parser looks for.
pub open spec fn n_event() -> Seq<u8> {
    "event".spec_bytes()
}

pub open spec fn n_event_identifier() -> Seq<u8> {
    "eventIdentifier".spec_bytes()
}

pub open spec fn n_event_identifier_type() -> Seq<u8> {
    "eventIdentifierType".spec_bytes()
}

pub open spec fn n_event_identifier_value() -> Seq<u8> {
    "eventIdentifierValue".spec_bytes()
}

pub open spec fn n_event_type() -> Seq<u8> {
    "eventType".spec_bytes()
}

pub open spec fn n_event_date_time() -> Seq<u8> {
    "eventDateTime".spec_bytes()
}

pub open spec fn n_event_detail() -> Seq<u8> {
    "eventDetail".spec_bytes()
}

pub open spec fn n_event_outcome_information() -> Seq<u8> {
    "eventOutcomeInformation".spec_bytes()
}

pub open spec fn n_event_outcome() -> Seq<u8> {
    "eventOutcome".spec_bytes()
}

pub open spec fn n_linking_agent_identifier() -> Seq<u8> {
    "linkingAgentIdentifier".spec_bytes()
}

pub open spec fn n_linking_agent_identifier_type() -> Seq<u8> {
    "linkingAgentIdentifierType".spec_bytes()
}

pub open spec fn n_linking_agent_identifier_value() -> Seq<u8> {
    "linkingAgentIdentifierValue".spec_bytes()
}

pub open spec fn n_linking_object_identifier() -> Seq<u8> {
    "linkingObjectIdentifier".spec_bytes()
}

pub open spec fn n_linking_object_identifier_type() -> Seq<u8> {
    "linkingObjectIdentifierType".spec_bytes()
}

pub open spec fn n_linking_object_identifier_value() -> Seq<u8> {
    "linkingObjectIdentifierValue".spec_bytes()
}

/// The first `:` in `[lo, hi)`, if any.
pub open spec fn first_colon(s: Seq<u8>, lo: int, hi: int) -> Option<int>
    decreases hi - lo,
{
    if !(0 <= lo && lo < hi && hi <= s.len()) {
        None
    } else if s[lo] == 58 {
        Some(lo)
    } else {
        first_colon(s, lo + 1, hi)
    }
}

/// The local name of an element: its name with any `prefix:` removed.
pub open spec fn local_name(s: Seq<u8>, es: ElemSpan) -> Seq<u8> {
    match first_colon(s, es.name_lo, es.name_hi) {
        Some(c) => s.subrange(c + 1, es.name_hi),
        None => s.subrange(es.name_lo, es.name_hi),
    }
}

/// The raw content bytes of an element.
pub open spec fn text_of(s: Seq<u8>, es: ElemSpan) -> Seq<u8> {
    s.subrange(es.content_lo, es.content_hi)
}

/// The direct children of a well-formed element.
pub open spec fn kids_of(s: Seq<u8>, es: ElemSpan) -> Seq<ElemSpan> {
    if es.sc {
        Seq::empty()
    } else {
        match scan_kids(s, es.content_lo, s.subrange(es.name_lo, es.name_hi)) {
            Some(ke) => ke.kids,
            None => Seq::empty(),
        }
    }
}

/// The first of `kids` whose local name is `name`.
pub open spec fn first_named(s: Seq<u8>, kids: Seq<ElemSpan>, name: Seq<u8>) -> Option<ElemSpan>
    decreases kids.len(),
{
    if kids.len() == 0 {
        None
    } else if local_name(s, kids[0]) == name {
        Some(kids[0])
    } else {
        first_named(s, kids.drop_first(), name)
    }
}

/// All of `kids` whose local name is `name`, in order.
pub open spec fn collect_named(s: Seq<u8>, kids: Seq<ElemSpan>, name: Seq<u8>) -> Seq<ElemSpan>
    decreases kids.len(),
{
    if kids.len() == 0 {
        Seq::empty()
    } else if local_name(s, kids[0]) == name {
        seq![kids[0]] + collect_named(s, kids.drop_first(), name)
    } else {
        collect_named(s, kids.drop_first(), name)
    }
}

/// The type and value texts of an identifier-pair element, read from its
/// children with the given local names.
pub open spec fn spec_pair(s: Seq<u8>, es: ElemSpan, tn: Seq<u8>, vn: Seq<u8>) -> Option<
    (Seq<u8>, Seq<u8>),
> {
    let kids = kids_of(s, es);
    match first_named(s, kids, tn) {
        None => None,
        Some(t) => match first_named(s, kids, vn) {
            None => None,
            Some(v) => Some((text_of(s, t), text_of(s, v))),
        },
    }
}

/// The linking-object pairs denoted by the given elements; every element
/// must carry both a type and a value.
pub open spec fn spec_objects(s: Seq<u8>, objs: Seq<ElemSpan>) -> Option<
    Seq<LinkingObjectIdentifierV>,
>
    decreases objs.len(),
{
    if objs.len() == 0 {
        Some(Seq::empty())
    } else {
        match spec_pair(
            s,
            objs[0],
            n_linking_object_identifier_type(),
            n_linking_object_identifier_value(),
        ) {
            None => None,
            Some((t, v)) => match spec_objects(s, objs.drop_first()) {
                None => None,
                Some(rest) => Some(
                    seq![LinkingObjectIdentifierV { typ: t, val: v }] + rest,
                ),
            },
        }
    }
}

/// The model denoted by the fields of an event element with children
/// `kids` and original bytes `payload`.
pub open spec fn spec_fields(s: Seq<u8>, kids: Seq<ElemSpan>, payload: Seq<u8>) -> Result<
    EventV,
    ParseError,
> {
    match first_named(s, kids, n_event_type()) {
        None => Err(ParseError::MissingEventType),
        Some(et) => {
            if text_of(s, et).len() == 0 {
                Err(ParseError::MissingEventType)
            } else {
                match first_named(s, kids, n_event_date_time()) {
                    None => Err(ParseError::MissingEventDateTime),
                    Some(dt) => match parse_ts(text_of(s, dt)) {
                        None => Err(ParseError::InvalidEventDateTime),
                        Some(ms) => match first_named(s, kids, n_event_outcome_information()) {
                            None => Err(ParseError::MissingEventOutcome),
                            Some(oi) => match first_named(
                                s,
                                kids_of(s, oi),
                                n_event_outcome(),
                            ) {
                                None => Err(ParseError::MissingEventOutcome),
                                Some(oc) => match first_named(
                                    s,
                                    kids,
                                    n_linking_agent_identifier(),
                                ) {
                                    None => Err(ParseError::MissingLinkingAgent),
                                    Some(ag) => match spec_pair(
                                        s,
                                        ag,
                                        n_linking_agent_identifier_type(),
                                        n_linking_agent_identifier_value(),
                                    ) {
                                        None => Err(ParseError::MissingLinkingAgent),
                                        Some((at, av)) => match first_named(
                                            s,
                                            kids,
                                            n_event_identifier(),
                                        ) {
                                            Some(idel) => match spec_pair(
                                                s,
                                                idel,
                                                n_event_identifier_type(),
                                                n_event_identifier_value(),
                                            ) {
                                                None => Err(ParseError::MalformedEvent),
                                                Some((it, iv)) => spec_finish(
                                                    s,
                                                    kids,
                                                    payload,
                                                    Some(EventIdentifierV { typ: it, val: iv }),
                                                    text_of(s, et),
                                                    ms,
                                                    text_of(s, oc),
                                                    at,
                                                    av,
                                                ),
                                            },
                                            None => spec_finish(
                                                s,
                                                kids,
                                                payload,
                                                None,
                                                text_of(s, et),
                                                ms,
                                                text_of(s, oc),
                                                at,
                                                av,
                                            ),
                                        },
                                    },
                                },
                            },
                        },
                    },
                }
            }
        },
    }
}

/// Assembles the model once the required fields are in hand: the optional
/// detail and the linking objects remain to be read.
pub open spec fn spec_finish(
    s: Seq<u8>,
    kids: Seq<ElemSpan>,
    payload: Seq<u8>,
    ident: Option<EventIdentifierV>,
    et: Seq<u8>,
    ms: int,
    oc: Seq<u8>,
    at: Seq<u8>,
    av: Seq<u8>,
) -> Result<EventV, ParseError> {
    match spec_objects(s, collect_named(s, kids, n_linking_object_identifier())) {
        None => Err(ParseError::MalformedEvent),
        Some(objs) => Ok(
            EventV {
                event_identifier: ident,
                event_type: et,
                event_timestamp: ms,
                event_detail: match first_named(s, kids, n_event_detail()) {
                    Some(de) => Some(text_of(s, de)),
                    None => None,
                },
                event_outcome: oc,
                linking_agent: LinkingAgentIdentifierV { typ: at, val: av },
                linking_objects: objs,
                event_payload: payload,
            },
        ),
    }
}

/// The event grammar: which byte strings are accepted as one event, which
/// model they denote, and which error rejects the others. The bytes must
/// hold exactly one well-formed element, between optional whitespace; the
/// denoted model keeps the whole input as its payload.
pub open spec fn spec_parse(s: Seq<u8>) -> Result<EventV, ParseError> {
    let i = skip_ws(s, 0);
    match scan_elem(s, i) {
        None => Err(ParseError::MalformedEvent),
        Some(root) => {
            if skip_ws(s, root.hi) != s.len() {
                Err(ParseError::MalformedEvent)
            } else {
                spec_fields(s, kids_of(s, root), s)
            }
        },
    }
}

fn first_colon_x(s: &[u8], lo: usize, hi: usize) -> (r: Option<usize>)
    requires
        lo <= hi <= s@.len(),
    ensures
        (r is Some) == (first_colon(s@, lo as int, hi as int) is Some),
        r is Some ==> r->0 as int == first_colon(s@, lo as int, hi as int)->0,
        r is Some ==> lo <= r->0 < hi,
{
    let mut j = lo;
    while j < hi && s[j] != 58
        invariant
            lo <= j <= hi <= s@.len(),
            first_colon(s@, lo as int, hi as int) == first_colon(s@, j as int, hi as int),
        decreases hi - j,
    {
        j = j + 1;
    }
    if j < hi {
        Some(j)
    } else {
        None
    }
}

/// Whether the element's local name is `name`.
pub(crate) fn match_local(s: &[u8], es: &ElemSpanX, name: &[u8]) -> (r: bool)
    requires
        scan_elem(s@, es@.lo) == Some(es@),
    ensures
        r == (local_name(s@, es@) == name@),
{
    proof {
        lemma_scan_elem_bounds(s@, es@.lo);
    }
    let ls = match first_colon_x(s, es.name_lo, es.name_hi) {
        Some(c) => c + 1,
        None => es.name_lo,
    };
    bytes_eq_range(s, ls, es.name_hi, name)
}

/// The first child whose local name is `name`, as [`first_named`] describes.
fn first_named_x(s: &[u8], kids: &Vec<ElemSpanX>, name: &[u8]) -> (r: Option<ElemSpanX>)
    requires
        forall|k: int|
            0 <= k < kids@.len() ==> scan_elem(s@, (#[trigger] kids@[k])@.lo) == Some(kids@[k]@),
    ensures
        (r is Some) == (first_named(s@, spans_of(kids@), name@) is Some),
        r is Some ==> r->0@ == first_named(s@, spans_of(kids@), name@)->0,
        r is Some ==> scan_elem(s@, r->0@.lo) == Some(r->0@),
{
    let ghost all = spans_of(kids@);
    let n = kids.len();
    let mut k: usize = 0;
    proof {
        assert(all.skip(0) =~= all);
    }
    while k < n
        invariant
            k <= n,
            n == kids@.len(),
            all == spans_of(kids@),
            forall|m: int|
                0 <= m < kids@.len() ==> scan_elem(s@, (#[trigger] kids@[m])@.lo) == Some(
                    kids@[m]@,
                ),
            first_named(s@, all, name@) == first_named(s@, all.skip(k as int), name@),
        decreases n - k,
    {
        proof {
            assert(all.skip(k as int)[0] == all[k as int]);
        }
        let es = kids[k];
        if match_local(s, &es, name) {
            return Some(es);
        }
        proof {
            assert(all.skip(k as int).drop_first() =~= all.skip(k as int + 1));
        }
        k = k + 1;
    }
    proof {
        assert(all.skip(n as int) =~= Seq::<ElemSpan>::empty());
    }
    None
}

/// All children whose local name is `name`, as [`collect_named`] describes.
fn collect_named_x(s: &[u8], kids: &Vec<ElemSpanX>, name: &[u8]) -> (r: Vec<ElemSpanX>)
    requires
        forall|k: int|
            0 <= k < kids@.len() ==> scan_elem(s@, (#[trigger] kids@[k])@.lo) == Some(kids@[k]@),
    ensures
        spans_of(r@) == collect_named(s@, spans_of(kids@), name@),
        forall|k: int|
            0 <= k < r@.len() ==> scan_elem(s@, (#[trigger] r@[k])@.lo) == Some(r@[k]@),
{
    let ghost all = spans_of(kids@);
    let n = kids.len();
    let mut k: usize = 0;
    let mut acc: Vec<ElemSpanX> = Vec::new();
    proof {
        assert(all.skip(0) =~= all);
        assert(spans_of(acc@) + collect_named(s@, all.skip(0), name@) =~= collect_named(
            s@,
            all,
            name@,
        ));
    }
    while k < n
        invariant
            k <= n,
            n == kids@.len(),
            all == spans_of(kids@),
            forall|m: int|
                0 <= m < kids@.len() ==> scan_elem(s@, (#[trigger] kids@[m])@.lo) == Some(
                    kids@[m]@,
                ),
            forall|m: int|
                0 <= m < acc@.len() ==> scan_elem(s@, (#[trigger] acc@[m])@.lo) == Some(acc@[m]@),
            collect_named(s@, all, name@) == spans_of(acc@) + collect_named(
                s@,
                all.skip(k as int),
                name@,
            ),
        decreases n - k,
    {
        proof {
            assert(all.skip(k as int)[0] == all[k as int]);
            assert(all.skip(k as int).drop_first() =~= all.skip(k as int + 1));
        }
        let es = kids[k];
        let ghost old_acc = acc@;
        if match_local(s, &es, name) {
            acc.push(es);
            proof {
                assert(spans_of(old_acc) + (seq![all[k as int]] + collect_named(
                    s@,
                    all.skip(k as int + 1),
                    name@,
                )) =~= spans_of(acc@) + collect_named(s@, all.skip(k as int + 1), name@));
            }
        }
        k = k + 1;
    }
    proof {
        assert(all.skip(n as int) =~= Seq::<ElemSpan>::empty());
        assert(spans_of(acc@) + collect_named(s@, all.skip(n as int), name@) =~= spans_of(acc@));
    }
    acc
}

/// The element's raw content bytes.
fn text_of_x(s: &[u8], es: &ElemSpanX) -> (r: Vec<u8>)
    requires
        scan_elem(s@, es@.lo) == Some(es@),
    ensures
        r@ == text_of(s@, es@),
{
    proof {
        lemma_scan_elem_bounds(s@, es@.lo);
    }
    vstd::slice::slice_to_vec(vstd::slice::slice_subrange(s, es.content_lo, es.content_hi))
}

/// The element's direct children, as [`kids_of`] describes.
pub(crate) fn kids_of_x(s: &[u8], es: &ElemSpanX) -> (r: Vec<ElemSpanX>)
    requires
        scan_elem(s@, es@.lo) == Some(es@),
    ensures
        spans_of(r@) == kids_of(s@, es@),
        forall|k: int|
            0 <= k < r@.len() ==> scan_elem(s@, (#[trigger] r@[k])@.lo) == Some(r@[k]@),
{
    proof {
        lemma_scan_elem_bounds(s@, es@.lo);
    }
    if es.sc {
        let r: Vec<ElemSpanX> = Vec::new();
        proof {
            assert(spans_of(r@) =~= kids_of(s@, es@));
        }
        r
    } else {
        proof {
            lemma_scan_elem_kids(s@, es@.lo);
        }
        let name = vstd::slice::slice_subrange(s, es.name_lo, es.name_hi);
        match scan_kids_x(s, es.content_lo, name) {
            Some(ke) => {
                proof {
                    lemma_scan_kids_bounds(s@, es@.content_lo, name@);
                    let sk = scan_kids(s@, es@.content_lo, name@)->0;
                    assert forall|k: int| 0 <= k < ke.kids@.len() implies scan_elem(
                        s@,
                        (#[trigger] ke.kids@[k])@.lo,
                    ) == Some(ke.kids@[k]@) by {
                        assert(spans_of(ke.kids@)[k] == ke.kids@[k]@);
                        assert(sk.kids[k] == ke.kids@[k]@);
                    }
                }
                ke.kids
            },
            None => {
                proof {
                    assert(false);
                }
                Vec::new()
            },
        }
    }
}

/// The type and value texts of an identifier pair, as [`spec_pair`]
/// describes.
fn pair_x(s: &[u8], es: &ElemSpanX, tn: &[u8], vn: &[u8]) -> (r: Option<(Vec<u8>, Vec<u8>)>)
    requires
        scan_elem(s@, es@.lo) == Some(es@),
    ensures
        (r is Some) == (spec_pair(s@, es@, tn@, vn@) is Some),
        r is Some ==> ((r->0).0@, (r->0).1@) == spec_pair(s@, es@, tn@, vn@)->0,
{
    let kids = kids_of_x(s, es);
    match first_named_x(s, &kids, tn) {
        None => None,
        Some(t) => match first_named_x(s, &kids, vn) {
            None => None,
            Some(v) => Some((text_of_x(s, &t), text_of_x(s, &v))),
        },
    }
}

/// The linking-object pairs, as [`spec_objects`] describes.
fn objects_x(s: &[u8], objs: &Vec<ElemSpanX>) -> (r: Option<Vec<LinkingObjectIdentifier>>)
    requires
        forall|k: int|
            0 <= k < objs@.len() ==> scan_elem(s@, (#[trigger] objs@[k])@.lo) == Some(objs@[k]@),
    ensures
        (r is Some) == (spec_objects(s@, spans_of(objs@)) is Some),
        r is Some ==> Seq::new(r->0@.len(), |k: int| r->0@[k]@) == spec_objects(
            s@,
            spans_of(objs@),
        )->0,
{
    let ghost all = spans_of(objs@);
    let n = objs.len();
    let mut k: usize = 0;
    let mut acc: Vec<LinkingObjectIdentifier> = Vec::new();
    proof {
        assert(all.skip(0) =~= all);
    }
    while k < n
        invariant
            k <= n,
            n == objs@.len(),
            all == spans_of(objs@),
            forall|m: int|
                0 <= m < objs@.len() ==> scan_elem(s@, (#[trigger] objs@[m])@.lo) == Some(
                    objs@[m]@,
                ),
            acc@.len() == k,
            (spec_objects(s@, all) is Some) == (spec_objects(s@, all.skip(k as int)) is Some),
            spec_objects(s@, all) is Some ==> spec_objects(s@, all)->0 == Seq::new(
                acc@.len(),
                |m: int| acc@[m]@,
            ) + spec_objects(s@, all.skip(k as int))->0,
        decreases n - k,
    {
        proof {
            assert(all.skip(k as int)[0] == all[k as int]);
            assert(all.skip(k as int).drop_first() =~= all.skip(k as int + 1));
        }
        let es = objs[k];
        let ghost old_acc = acc@;
        match pair_x(
            s,
            &es,
            "linkingObjectIdentifierType".as_bytes(),
            "linkingObjectIdentifierValue".as_bytes(),
        ) {
            None => {
                return None;
            },
            Some((t, v)) => {
                acc.push(
                    LinkingObjectIdentifier {
                        linking_object_identifier_type: t,
                        linking_object_identifier_value: v,
                    },
                );
                proof {
                    if spec_objects(s@, all) is Some {
                        let head = spec_pair(
                            s@,
                            all[k as int],
                            n_linking_object_identifier_type(),
                            n_linking_object_identifier_value(),
                        )->0;
                        assert(Seq::new(old_acc.len(), |m: int| old_acc[m]@) + (seq![
                            LinkingObjectIdentifierV { typ: head.0, val: head.1 },
                        ] + spec_objects(s@, all.skip(k as int + 1))->0) =~= Seq::new(
                            acc@.len(),
                            |m: int| acc@[m]@,
                        ) + spec_objects(s@, all.skip(k as int + 1))->0);
                    }
                }
            },
        }
        k = k + 1;
    }
    proof {
        assert(all.skip(n as int) =~= Seq::<ElemSpan>::empty());
        if spec_objects(s@, all) is Some {
            assert(Seq::new(acc@.len(), |m: int| acc@[m]@) + spec_objects(
                s@,
                all.skip(n as int),
            )->0 =~= Seq::new(acc@.len(), |m: int| acc@[m]@));
        }
    }
    Some(acc)
}

impl Event {
    /// Parses one event element, as [`spec_parse`] describes: the returned
    /// model carries the input bytes verbatim as its payload, and every
    /// rejected input is reported with the error the grammar assigns to it.
    pub fn new(body: &[u8]) -> (r: Result<Event, ParseError>)
        ensures
            (r is Ok) == (spec_parse(body@) is Ok),
            r is Ok ==> r->Ok_0@ == spec_parse(body@)->Ok_0,
            r is Err ==> Err::<EventV, ParseError>(r->Err_0) == spec_parse(body@),
    {
        let i = skip_ws_x(body, 0);
        let root = match scan_elem_x(body, i) {
            None => {
                return Err(ParseError::MalformedEvent);
            },
            Some(root) => root,
        };
        proof {
            lemma_scan_elem_bounds(body@, i as int);
        }
        let j = skip_ws_x(body, root.hi);
        if j != body.len() {
            return Err(ParseError::MalformedEvent);
        }
        let kids = kids_of_x(body, &root);
        let et = match first_named_x(body, &kids, "eventType".as_bytes()) {
            None => {
                return Err(ParseError::MissingEventType);
            },
            Some(e) => e,
        };
        let et_text = text_of_x(body, &et);
        if et_text.len() == 0 {
            return Err(ParseError::MissingEventType);
        }
        let dt = match first_named_x(body, &kids, "eventDateTime".as_bytes()) {
            None => {
                return Err(ParseError::MissingEventDateTime);
            },
            Some(e) => e,
        };
        let dt_text = text_of_x(body, &dt);
        let ms = match parse_timestamp(dt_text.as_slice()) {
            None => {
                return Err(ParseError::InvalidEventDateTime);
            },
            Some(m) => m,
        };
        let oi = match first_named_x(body, &kids, "eventOutcomeInformation".as_bytes()) {
            None => {
                return Err(ParseError::MissingEventOutcome);
            },
            Some(e) => e,
        };
        let oi_kids = kids_of_x(body, &oi);
        let oc = match first_named_x(body, &oi_kids, "eventOutcome".as_bytes()) {
            None => {
                return Err(ParseError::MissingEventOutcome);
            },
            Some(e) => e,
        };
        let oc_text = text_of_x(body, &oc);
        let ag = match first_named_x(body, &kids, "linkingAgentIdentifier".as_bytes()) {
            None => {
                return Err(ParseError::MissingLinkingAgent);
            },
            Some(e) => e,
        };
        let agp = match pair_x(
            body,
            &ag,
            "linkingAgentIdentifierType".as_bytes(),
            "linkingAgentIdentifierValue".as_bytes(),
        ) {
            None => {
                return Err(ParseError::MissingLinkingAgent);
            },
            Some(p) => p,
        };
        let ident = match first_named_x(body, &kids, "eventIdentifier".as_bytes()) {
            Some(idel) => match pair_x(
                body,
                &idel,
                "eventIdentifierType".as_bytes(),
                "eventIdentifierValue".as_bytes(),
            ) {
                None => {
                    return Err(ParseError::MalformedEvent);
                },
                Some(p) => Some(
                    EventIdentifier {
                        event_identifier_type: p.0,
                        event_identifier_value: p.1,
                    },
                ),
            },
            None => None,
        };
        let objels = collect_named_x(body, &kids, "linkingObjectIdentifier".as_bytes());
        let objs = match objects_x(body, &objels) {
            None => {
                return Err(ParseError::MalformedEvent);
            },
            Some(o) => o,
        };
        let detail = match first_named_x(body, &kids, "eventDetail".as_bytes()) {
            Some(de) => Some(text_of_x(body, &de)),
            None => None,
        };
        let ev = Event {
            event_identifier: ident,
            event_type: et_text,
            event_timestamp: ms,
            event_detail: detail,
            event_outcome_information: EventOutcomeInformation { event_outcome: oc_text },
            linking_agent_identifier: LinkingAgentIdentifier {
                linking_agent_identifier_type: agp.0,
                linking_agent_identifier_value: agp.1,
            },
            linking_object_identifier: objs,
            event_payload: vstd::slice::slice_to_vec(body),
        };
        Ok(ev)
    }
}

/// Round trip of the raw payload: whatever bytes parse as an event are kept
/// verbatim as its payload, so re-emitting the event reproduces them
/// byte for byte, whatever whitespace, attribute order or namespace
/// prefixes they use.
pub proof fn lemma_parse_round_trip(s: Seq<u8>)
    requires
        spec_parse(s) is Ok,
    ensures
        spec_parse(s)->Ok_0.event_payload == s,
{
}

/// A well-formed, non-self-closing element's content scan succeeds.
pub proof fn lemma_scan_elem_kids(s: Seq<u8>, i: int)
    requires
        scan_elem(s, i) is Some,
        !scan_elem(s, i)->0.sc,
    ensures
        ({
            let es = scan_elem(s, i)->0;
            let ke = scan_kids(s, es.content_lo, s.subrange(es.name_lo, es.name_hi));
            &&& ke is Some
            &&& ke->0.kids == kids_of(s, es)
            &&& ke->0.content_hi == es.content_hi
            &&& ke->0.hi == es.hi
        }),
{
}

} // verus!
