//! Splitting one request body into its event substrings, and preparing the
//! broker publication of each.
//!
//! The splitter yields, for every `event` child of the document root (any
//! namespace prefix), the exact original bytes of that child — never a
//! re-serialization — so that the payload republished downstream is
//! byte-for-byte the payload received.

use vstd::prelude::*;

use crate::envelope::{routing_key, spec_routing_key, Message, MessageV};
use crate::model::{spec_subject, Event, ParseError};
use crate::parse::{kids_of, kids_of_x, local_name, match_local, n_event, spec_parse};
use crate::xml::{
    comment_close, find_sub, is_window, lemma_find_sub_bounds, lemma_scan_elem_bounds,
    lemma_shift_scan_elem, pi_close, scan_elem, scan_elem_x, shift_span, skip_ws, skip_ws_x,
    spans_of, ElemSpan, ElemSpanX,
};

verus! {

/// The byte sequences held by a sequence of byte vectors.
pub open spec fn segs_of(v: Seq<Vec<u8>>) -> Seq<Seq<u8>> {
    Seq::new(v.len(), |k: int| v[k]@)
}

/// Skips whitespace, comments and processing instructions from `i`: the
/// position of the next markup or content, or `None` when a comment or
/// instruction never closes.
pub open spec fn scan_misc(s: Seq<u8>, i: int) -> Option<int>
    decreases s.len() - i,
{
    let j = skip_ws(s, i);
    if j + 3 < s.len() && s[j] == 60 && s[j + 1] == 33 && s[j + 2] == 45 && s[j + 3] == 45 {
        match find_sub(s, j + 4, comment_close()) {
            None => None,
            Some(k) => if i < k <= s.len() {
                scan_misc(s, k)
            } else {
                None
            },
        }
    } else if j + 1 < s.len() && s[j] == 60 && s[j + 1] == 63 {
        match find_sub(s, j + 2, pi_close()) {
            None => None,
            Some(k) => if i < k <= s.len() {
                scan_misc(s, k)
            } else {
                None
            },
        }
    } else {
        Some(j)
    }
}

/// The root element of a whole document: optional miscellany, one element,
/// optional miscellany, end of input.
pub open spec fn spec_doc(s: Seq<u8>) -> Option<ElemSpan> {
    match scan_misc(s, 0) {
        None => None,
        Some(i) => match scan_elem(s, i) {
            None => None,
            Some(root) => match scan_misc(s, root.hi) {
                None => None,
                Some(j) => if j == s.len() {
                    Some(root)
                } else {
                    None
                },
            },
        },
    }
}

/// The original bytes of every child from position `k` on whose local name
/// is `event`, in document order.
pub open spec fn event_segs_from(s: Seq<u8>, kids: Seq<ElemSpan>, k: int) -> Seq<Seq<u8>>
    decreases kids.len() - k,
{
    if !(0 <= k < kids.len()) {
        Seq::empty()
    } else {
        let rest = event_segs_from(s, kids, k + 1);
        if local_name(s, kids[k]) == n_event() {
            seq![s.subrange(kids[k].lo, kids[k].hi)] + rest
        } else {
            rest
        }
    }
}

/// The batch grammar: for a well-formed document, the exact substrings of
/// the root's `event` children, in document order; `None` for a malformed
/// document.
pub open spec fn spec_split(s: Seq<u8>) -> Option<Seq<Seq<u8>>> {
    match spec_doc(s) {
        None => None,
        Some(root) => Some(event_segs_from(s, kids_of(s, root), 0)),
    }
}

/// The spans of the `event` children from position `k` on, in document
/// order; [`event_segs_from`] holds their bytes.
pub open spec fn event_spans_from(s: Seq<u8>, kids: Seq<ElemSpan>, k: int) -> Seq<ElemSpan>
    decreases kids.len() - k,
{
    if !(0 <= k < kids.len()) {
        Seq::empty()
    } else {
        let rest = event_spans_from(s, kids, k + 1);
        if local_name(s, kids[k]) == n_event() {
            seq![kids[k]] + rest
        } else {
            rest
        }
    }
}

/// The positions, among `kids`, of the `event` children from `k` on.
pub open spec fn event_idx_from(s: Seq<u8>, kids: Seq<ElemSpan>, k: int) -> Seq<int>
    decreases kids.len() - k,
{
    if !(0 <= k < kids.len()) {
        Seq::empty()
    } else {
        let rest = event_idx_from(s, kids, k + 1);
        if local_name(s, kids[k]) == n_event() {
            seq![k] + rest
        } else {
            rest
        }
    }
}

/// The three filtered sequences correspond: the bytes are the subranges of
/// the spans, the spans are the children at the listed positions, and the
/// positions are strictly increasing.
pub proof fn lemma_event_filter(s: Seq<u8>, kids: Seq<ElemSpan>, k: int)
    ensures
        ({
            let segs = event_segs_from(s, kids, k);
            let spans = event_spans_from(s, kids, k);
            let idx = event_idx_from(s, kids, k);
            &&& segs.len() == spans.len()
            &&& idx.len() == spans.len()
            &&& forall|j: int|
                0 <= j < segs.len() ==> #[trigger] segs[j] == s.subrange(
                    spans[j].lo,
                    spans[j].hi,
                )
            &&& forall|j: int|
                0 <= j < idx.len() ==> k <= #[trigger] idx[j] < kids.len() && spans[j] == kids[
                    idx[j]
                ] && local_name(s, kids[idx[j]]) == n_event()
            &&& forall|j: int| 0 <= j && j + 1 < idx.len() ==> #[trigger] idx[j] < idx[j + 1]
        }),
    decreases kids.len() - k,
{
    if 0 <= k < kids.len() {
        lemma_event_filter(s, kids, k + 1);
        let segs = event_segs_from(s, kids, k);
        let spans = event_spans_from(s, kids, k);
        let idx = event_idx_from(s, kids, k);
        let rsegs = event_segs_from(s, kids, k + 1);
        let rspans = event_spans_from(s, kids, k + 1);
        let ridx = event_idx_from(s, kids, k + 1);
        if local_name(s, kids[k]) == n_event() {
            assert forall|j: int| 0 <= j < segs.len() implies #[trigger] segs[j] == s.subrange(
                spans[j].lo,
                spans[j].hi,
            ) by {
                if j > 0 {
                    assert(segs[j] == rsegs[j - 1]);
                    assert(spans[j] == rspans[j - 1]);
                }
            }
            assert forall|j: int| 0 <= j < idx.len() implies k <= #[trigger] idx[j] < kids.len()
                && spans[j] == kids[idx[j]] && local_name(s, kids[idx[j]]) == n_event() by {
                if j > 0 {
                    assert(idx[j] == ridx[j - 1]);
                    assert(spans[j] == rspans[j - 1]);
                }
            }
            assert forall|j: int| 0 <= j && j + 1 < idx.len() implies #[trigger] idx[j] < idx[j
                + 1] by {
                assert(idx[j + 1] == ridx[j]);
                if j > 0 {
                    assert(idx[j] == ridx[j - 1]);
                }
            }
        }
    }
}

/// Children reported by one content scan lie one after the other: any
/// earlier child ends before a later one begins.
pub proof fn lemma_kids_monotone(kids: Seq<ElemSpan>, m1: int, m2: int)
    requires
        forall|m: int| 0 <= m && m + 1 < kids.len() ==> (#[trigger] kids[m]).hi <= kids[m + 1].lo,
        forall|m: int| 0 <= m < kids.len() ==> (#[trigger] kids[m]).lo < kids[m].hi,
        0 <= m1 < m2 < kids.len(),
    ensures
        kids[m1].hi <= kids[m2].lo,
    decreases m2 - m1,
{
    if m1 + 1 < m2 {
        lemma_kids_monotone(kids, m1 + 1, m2);
    }
}

/// Batch splitting keeps the wire bytes: every returned substring is the
/// exact original subrange of the request body covered by one `event` child
/// of the root, the substrings appear in document order without overlap,
/// and each begins at a well-formed element whose local name is `event`.
pub proof fn lemma_split_exact_substrings(s: Seq<u8>)
    requires
        spec_split(s) is Some,
    ensures
        ({
            let segs = spec_split(s)->0;
            let root = spec_doc(s)->0;
            let spans = event_spans_from(s, kids_of(s, root), 0);
            &&& segs.len() == spans.len()
            &&& forall|j: int|
                0 <= j < segs.len() ==> #[trigger] segs[j] == s.subrange(
                    spans[j].lo,
                    spans[j].hi,
                )
            &&& forall|j: int|
                0 <= j < spans.len() ==> 0 <= (#[trigger] spans[j]).lo < spans[j].hi <= s.len()
            &&& forall|j: int|
                0 <= j && j + 1 < spans.len() ==> (#[trigger] spans[j]).hi <= spans[j + 1].lo
            &&& forall|j: int|
                0 <= j < spans.len() ==> scan_elem(s, (#[trigger] spans[j]).lo) == Some(spans[j])
                    && local_name(s, spans[j]) == n_event()
        }),
{
    let root = spec_doc(s)->0;
    let kids = kids_of(s, root);
    let i = scan_misc(s, 0)->0;
    lemma_scan_elem_bounds(s, i);
    if !root.sc {
        crate::parse::lemma_scan_elem_kids(s, i);
        crate::xml::lemma_scan_kids_bounds(
            s,
            root.content_lo,
            s.subrange(root.name_lo, root.name_hi),
        );
    }
    assert forall|m: int| 0 <= m < kids.len() implies (#[trigger] kids[m]).lo < kids[m].hi by {
        lemma_scan_elem_bounds(s, kids[m].lo);
    }
    lemma_event_filter(s, kids, 0);
    let spans = event_spans_from(s, kids, 0);
    let idx = event_idx_from(s, kids, 0);
    assert forall|j: int| 0 <= j < spans.len() implies 0 <= (#[trigger] spans[j]).lo < spans[j].hi
        <= s.len() by {
        lemma_scan_elem_bounds(s, kids[idx[j]].lo);
    }
    assert forall|j: int| 0 <= j && j + 1 < spans.len() implies (#[trigger] spans[j]).hi <= spans[j
        + 1].lo by {
        lemma_kids_monotone(kids, idx[j], idx[j + 1]);
    }
    assert forall|j: int| 0 <= j < spans.len() implies scan_elem(s, (#[trigger] spans[j]).lo)
        == Some(spans[j]) && local_name(s, spans[j]) == n_event() by {
        assert(spans[j] == kids[idx[j]]);
        if !root.sc {
            let ke = crate::xml::scan_kids(
                s,
                root.content_lo,
                s.subrange(root.name_lo, root.name_hi),
            )->0;
            assert(kids == ke.kids);
            assert(scan_elem(s, ke.kids[idx[j]].lo) == Some(ke.kids[idx[j]]));
        }
    }
}

fn scan_misc_x(s: &[u8], i: usize) -> (r: Option<usize>)
    requires
        i <= s@.len(),
    ensures
        (r is Some) == (scan_misc(s@, i as int) is Some),
        r is Some ==> r->0 as int == scan_misc(s@, i as int)->0,
        r is Some ==> r->0 <= s@.len(),
{
    let mut cur = i;
    loop
        invariant
            i <= cur <= s@.len(),
            scan_misc(s@, i as int) == scan_misc(s@, cur as int),
        decreases s@.len() - cur,
    {
        let j = skip_ws_x(s, cur);
        if s.len() - j > 3 && s[j] == 60 && s[j + 1] == 33 && s[j + 2] == 45 && s[j + 3] == 45 {
            let mut p: Vec<u8> = Vec::new();
            p.push(45);
            p.push(45);
            p.push(62);
            proof {
                assert(p@ =~= comment_close());
            }
            match crate::xml::find_sub_x(s, j + 4, p.as_slice()) {
                None => {
                    return None;
                },
                Some(k) => {
                    proof {
                        lemma_find_sub_bounds(s@, j + 4, comment_close());
                    }
                    cur = k;
                },
            }
        } else if s.len() - j > 1 && s[j] == 60 && s[j + 1] == 63 {
            let mut p: Vec<u8> = Vec::new();
            p.push(63);
            p.push(62);
            proof {
                assert(p@ =~= pi_close());
            }
            match crate::xml::find_sub_x(s, j + 2, p.as_slice()) {
                None => {
                    return None;
                },
                Some(k) => {
                    proof {
                        lemma_find_sub_bounds(s@, j + 2, pi_close());
                    }
                    cur = k;
                },
            }
        } else {
            return Some(j);
        }
    }
}

/// Splits a request body into the exact original bytes of its `event`
/// children, as [`spec_split`] describes. A malformed document rejects the
/// whole batch.
pub fn split_events(body: &[u8]) -> (r: Result<Vec<Vec<u8>>, ParseError>)
    ensures
        (r is Ok) == (spec_split(body@) is Some),
        r is Ok ==> segs_of(r->Ok_0@) == spec_split(body@)->0,
        r is Err ==> r->Err_0 == ParseError::MalformedBatch,
{
    let i = match scan_misc_x(body, 0) {
        None => {
            return Err(ParseError::MalformedBatch);
        },
        Some(i) => i,
    };
    let root = match scan_elem_x(body, i) {
        None => {
            return Err(ParseError::MalformedBatch);
        },
        Some(root) => root,
    };
    proof {
        lemma_scan_elem_bounds(body@, i as int);
    }
    let j = match scan_misc_x(body, root.hi) {
        None => {
            return Err(ParseError::MalformedBatch);
        },
        Some(j) => j,
    };
    if j != body.len() {
        return Err(ParseError::MalformedBatch);
    }
    let kids = kids_of_x(body, &root);
    let ghost all = spans_of(kids@);
    let n = kids.len();
    let mut out: Vec<Vec<u8>> = Vec::new();
    let mut k: usize = 0;
    proof {
        assert(segs_of(out@) + event_segs_from(body@, all, 0) =~= event_segs_from(
            body@,
            all,
            0,
        ));
    }
    while k < n
        invariant
            k <= n,
            n == kids@.len(),
            all == spans_of(kids@),
            forall|m: int|
                0 <= m < kids@.len() ==> scan_elem(body@, (#[trigger] kids@[m])@.lo) == Some(
                    kids@[m]@,
                ),
            event_segs_from(body@, all, 0) == segs_of(out@) + event_segs_from(
                body@,
                all,
                k as int,
            ),
        decreases n - k,
    {
        let es = kids[k];
        let ghost old_out = segs_of(out@);
        if match_local(body, &es, "event".as_bytes()) {
            proof {
                lemma_scan_elem_bounds(body@, es@.lo);
            }
            let seg = vstd::slice::slice_to_vec(
                vstd::slice::slice_subrange(body, es.lo, es.hi),
            );
            out.push(seg);
            proof {
                assert(segs_of(out@) =~= old_out.push(body@.subrange(es@.lo, es@.hi)));
                assert(old_out + (seq![body@.subrange(all[k as int].lo, all[k as int].hi)]
                    + event_segs_from(body@, all, k as int + 1)) =~= segs_of(out@)
                    + event_segs_from(body@, all, k as int + 1));
            }
        }
        k = k + 1;
    }
    proof {
        assert(event_segs_from(body@, all, n as int) =~= Seq::<Seq<u8>>::empty());
        assert(segs_of(out@) + event_segs_from(body@, all, n as int) =~= segs_of(out@));
    }
    Ok(out)
}

/// One pending broker publication: the routing key and the message.
pub struct Publication {
    pub topic: Vec<u8>,
    pub message: Message,
}

/// Mathematical view of [`Publication`].
pub struct PublicationV {
    pub topic: Seq<u8>,
    pub message: MessageV,
}

impl View for Publication {
    type V = PublicationV;

    open spec fn view(&self) -> PublicationV {
        PublicationV { topic: self.topic@, message: self.message@ }
    }
}

/// The publication one event substring gives rise to: the routing key from
/// its type, and the message carrying its original bytes, instant and
/// subject.
pub open spec fn spec_prepare(s: Seq<u8>) -> Result<PublicationV, ParseError> {
    match spec_parse(s) {
        Err(e) => Err(e),
        Ok(ev) => Ok(
            PublicationV {
                topic: spec_routing_key(ev.event_type),
                message: MessageV {
                    data: ev.event_payload,
                    event_time: ev.event_timestamp,
                    subject: spec_subject(ev.linking_objects),
                },
            },
        ),
    }
}

/// Parses one event substring and derives its publication, as
/// [`spec_prepare`] describes.
pub fn prepare_publication(sub: &[u8]) -> (r: Result<Publication, ParseError>)
    ensures
        (r is Ok) == (spec_prepare(sub@) is Ok),
        r is Ok ==> r->Ok_0@ == spec_prepare(sub@)->Ok_0,
        r is Err ==> Err::<PublicationV, ParseError>(r->Err_0) == spec_prepare(sub@),
{
    match Event::new(sub) {
        Err(e) => Err(e),
        Ok(ev) => {
            let topic = routing_key(ev.event_type.as_slice());
            let message = Message::from_event(&ev);
            Ok(Publication { topic, message })
        },
    }
}

/// The batch pipeline from position `k` on: the publications of the leading
/// events that parse, and the error of the first that does not.
pub open spec fn batch_from(segs: Seq<Seq<u8>>, k: int) -> (Seq<PublicationV>, Option<ParseError>)
    decreases segs.len() - k,
{
    if !(0 <= k < segs.len()) {
        (Seq::empty(), None)
    } else {
        match spec_prepare(segs[k]) {
            Err(e) => (Seq::empty(), Some(e)),
            Ok(p) => {
                let (rest, e) = batch_from(segs, k + 1);
                (seq![p] + rest, e)
            },
        }
    }
}

/// The whole request pipeline: split, then prepare each event in document
/// order, stopping at the first failure. A malformed document prepares
/// nothing and reports the batch error.
pub open spec fn spec_prepare_batch(s: Seq<u8>) -> (Seq<PublicationV>, Option<ParseError>) {
    match spec_split(s) {
        None => (Seq::empty(), Some(ParseError::MalformedBatch)),
        Some(segs) => batch_from(segs, 0),
    }
}

/// Splits a request body and prepares the publication of each event, in
/// document order, stopping at the first event that fails to parse, as
/// [`spec_prepare_batch`] describes. Publications before the failure are
/// returned beside the error: the caller publishes them and reports the
/// failure, so a bad event never rolls back its predecessors.
pub fn prepare_batch(body: &[u8]) -> (r: (Vec<Publication>, Option<ParseError>))
    ensures
        Seq::new(r.0@.len(), |k: int| r.0@[k]@) == spec_prepare_batch(body@).0,
        r.1 == spec_prepare_batch(body@).1,
{
    let segs = match split_events(body) {
        Err(e) => {
            let out: Vec<Publication> = Vec::new();
            proof {
                assert(Seq::new(out@.len(), |k: int| out@[k]@) =~= Seq::<PublicationV>::empty());
            }
            return (out, Some(ParseError::MalformedBatch));
        },
        Ok(segs) => segs,
    };
    let ghost segv = segs_of(segs@);
    let n = segs.len();
    let mut out: Vec<Publication> = Vec::new();
    let mut k: usize = 0;
    proof {
        assert(Seq::new(out@.len(), |m: int| out@[m]@) + batch_from(segv, 0).0 =~= batch_from(
            segv,
            0,
        ).0);
    }
    while k < n
        invariant
            k <= n,
            n == segs@.len(),
            segv == segs_of(segs@),
            spec_split(body@) == Some(segv),
            batch_from(segv, 0).0 == Seq::new(out@.len(), |m: int| out@[m]@) + batch_from(
                segv,
                k as int,
            ).0,
            batch_from(segv, 0).1 == batch_from(segv, k as int).1,
        decreases n - k,
    {
        let ghost old_out = out@;
        match prepare_publication(segs[k].as_slice()) {
            Err(e) => {
                proof {
                    assert(Seq::new(out@.len(), |m: int| out@[m]@) + Seq::<
                        PublicationV,
                    >::empty() =~= Seq::new(out@.len(), |m: int| out@[m]@));
                }
                return (out, Some(e));
            },
            Ok(p) => {
                out.push(p);
                proof {
                    let pv = spec_prepare(segv[k as int])->Ok_0;
                    assert(Seq::new(old_out.len(), |m: int| old_out[m]@) + (seq![pv] + batch_from(
                        segv,
                        k as int + 1,
                    ).0) =~= Seq::new(out@.len(), |m: int| out@[m]@) + batch_from(
                        segv,
                        k as int + 1,
                    ).0);
                }
            },
        }
        k = k + 1;
    }
    proof {
        assert(Seq::new(out@.len(), |m: int| out@[m]@) + batch_from(segv, n as int).0 =~= Seq::new(
            out@.len(),
            |m: int| out@[m]@,
        ));
    }
    (out, None)
}

/// The pipeline from `j` on, when everything from `j` up to a failing event
/// at `k` parses: exactly the leading publications are prepared, and the
/// failing event's error is reported.
pub proof fn lemma_batch_from_failure(segs: Seq<Seq<u8>>, j: int, k: int)
    requires
        0 <= j <= k < segs.len(),
        forall|m: int| j <= m < k ==> spec_prepare(#[trigger] segs[m]) is Ok,
        spec_prepare(segs[k]) is Err,
    ensures
        batch_from(segs, j).0.len() == k - j,
        forall|m: int|
            j <= m < k ==> batch_from(segs, j).0[m - j] == spec_prepare(#[trigger] segs[m])->Ok_0,
        batch_from(segs, j).1 == Some(spec_prepare(segs[k])->Err_0),
    decreases k - j,
{
    if j < k {
        lemma_batch_from_failure(segs, j + 1, k);
        let p = spec_prepare(segs[j])->Ok_0;
        let rest = batch_from(segs, j + 1);
        assert(batch_from(segs, j).0 == seq![p] + rest.0);
        assert forall|m: int| j <= m < k implies batch_from(segs, j).0[m - j] == spec_prepare(
            #[trigger] segs[m],
        )->Ok_0 by {
            if m > j {
                assert((seq![p] + rest.0)[m - j] == rest.0[m - j - 1]);
            }
        }
    }
}

/// The pipeline from `j` on, when every remaining event parses: every
/// publication is prepared, in order, and no error is reported.
pub proof fn lemma_batch_from_all_ok(segs: Seq<Seq<u8>>, j: int)
    requires
        0 <= j <= segs.len(),
        forall|m: int| j <= m < segs.len() ==> spec_prepare(#[trigger] segs[m]) is Ok,
    ensures
        batch_from(segs, j).0.len() == segs.len() - j,
        forall|m: int|
            j <= m < segs.len() ==> batch_from(segs, j).0[m - j] == spec_prepare(
                #[trigger] segs[m],
            )->Ok_0,
        batch_from(segs, j).1 is None,
    decreases segs.len() - j,
{
    if j < segs.len() {
        lemma_batch_from_all_ok(segs, j + 1);
        let p = spec_prepare(segs[j])->Ok_0;
        let rest = batch_from(segs, j + 1);
        assert(batch_from(segs, j).0 == seq![p] + rest.0);
        assert forall|m: int| j <= m < segs.len() implies batch_from(segs, j).0[m - j]
            == spec_prepare(#[trigger] segs[m])->Ok_0 by {
            if m > j {
                assert((seq![p] + rest.0)[m - j] == rest.0[m - j - 1]);
            }
        }
    }
}

/// Failure propagation: when a batch splits into events of which the first
/// fails to parse at position `k`, the pipeline prepares exactly the
/// publications of the events before `k`, and reports that event's error;
/// nothing after `k` is processed. In particular, with a valid first event
/// and a second one that does not parse, the first publication stands and
/// the second event's error is reported.
pub proof fn lemma_batch_first_failure(s: Seq<u8>, k: int)
    requires
        spec_split(s) is Some,
        0 <= k < spec_split(s)->0.len(),
        forall|m: int| 0 <= m < k ==> spec_prepare(#[trigger] spec_split(s)->0[m]) is Ok,
        spec_prepare(spec_split(s)->0[k]) is Err,
    ensures
        spec_prepare_batch(s).0.len() == k,
        forall|m: int|
            0 <= m < k ==> spec_prepare_batch(s).0[m] == spec_prepare(
                #[trigger] spec_split(s)->0[m],
            )->Ok_0,
        spec_prepare_batch(s).1 == Some(spec_prepare(spec_split(s)->0[k])->Err_0),
{
    lemma_batch_from_failure(spec_split(s)->0, 0, k);
}

/// A batch whose every event parses is prepared whole, in document order,
/// with no error.
pub proof fn lemma_batch_all_ok(s: Seq<u8>)
    requires
        spec_split(s) is Some,
        forall|m: int|
            0 <= m < spec_split(s)->0.len() ==> spec_prepare(#[trigger] spec_split(s)->0[m]) is Ok,
    ensures
        spec_prepare_batch(s).0.len() == spec_split(s)->0.len(),
        forall|m: int|
            0 <= m < spec_split(s)->0.len() ==> spec_prepare_batch(s).0[m] == spec_prepare(
                #[trigger] spec_split(s)->0[m],
            )->Ok_0,
        spec_prepare_batch(s).1 is None,
{
    lemma_batch_from_all_ok(spec_split(s)->0, 0);
}

/// Every substring the splitter yields stands on its own: scanned from its
/// first byte, it is one well-formed element that covers the substring
/// exactly. Together with the round trip of the raw payload, whenever such
/// a substring parses as an event, re-emitting the event reproduces the
/// substring byte for byte.
pub proof fn lemma_split_segments_standalone(s: Seq<u8>)
    requires
        spec_split(s) is Some,
    ensures
        forall|j: int|
            0 <= j < spec_split(s)->0.len() ==> {
                let seg = #[trigger] spec_split(s)->0[j];
                &&& seg.len() > 0
                &&& scan_elem(seg, 0) is Some
                &&& scan_elem(seg, 0)->0.hi == seg.len()
                &&& spec_parse(seg) is Ok ==> spec_parse(seg)->Ok_0.event_payload == seg
            },
{
    lemma_split_exact_substrings(s);
    let segs = spec_split(s)->0;
    let root = spec_doc(s)->0;
    let spans = event_spans_from(s, kids_of(s, root), 0);
    assert forall|j: int| 0 <= j < segs.len() implies {
        let seg = #[trigger] segs[j];
        &&& seg.len() > 0
        &&& scan_elem(seg, 0) is Some
        &&& scan_elem(seg, 0)->0.hi == seg.len()
        &&& spec_parse(seg) is Ok ==> spec_parse(seg)->Ok_0.event_payload == seg
    } by {
        let seg = segs[j];
        let sp = spans[j];
        assert(seg == s.subrange(sp.lo, sp.hi));
        assert(is_window(s, seg, sp.lo));
        lemma_shift_scan_elem(s, seg, sp.lo, sp.lo);
        assert(scan_elem(seg, 0) == Some(shift_span(sp, sp.lo)));
    }
}

} // verus!
