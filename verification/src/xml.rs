//! A byte-exact scanner for the XML shape the bridge consumes.
//!
//! The scanner never builds a tree and never re-serializes: it locates the
//! spans of elements inside the original byte string, so that every event can
//! be re-emitted verbatim. It understands start tags with quoted attribute
//! values, end tags, self-closing tags, comments, CDATA sections and
//! processing instructions; an end tag must repeat the start tag's name
//! exactly. Anything else makes the enclosing scan fail.

use vstd::prelude::*;

verus! {

/// XML whitespace: space, tab, line feed, carriage return.
pub open spec fn is_ws(b: u8) -> bool {
    b == 32 || b == 9 || b == 10 || b == 13
}

/// First position at or after `i` holding a non-whitespace byte, or `s.len()`.
pub open spec fn skip_ws(s: Seq<u8>, i: int) -> int
    decreases s.len() - i,
{
    if 0 <= i < s.len() && is_ws(s[i]) {
        skip_ws(s, i + 1)
    } else {
        i
    }
}

pub proof fn lemma_skip_ws_bounds(s: Seq<u8>, i: int)
    requires
        0 <= i <= s.len(),
    ensures
        i <= skip_ws(s, i) <= s.len(),
        skip_ws(s, i) < s.len() ==> !is_ws(s[skip_ws(s, i)]),
    decreases s.len() - i,
{
    if i < s.len() && is_ws(s[i]) {
        lemma_skip_ws_bounds(s, i + 1);
    }
}

/// First position at or after `i` holding byte `b`, if any.
pub open spec fn find_byte(s: Seq<u8>, i: int, b: u8) -> Option<int>
    decreases s.len() - i,
{
    if !(0 <= i < s.len()) {
        None
    } else if s[i] == b {
        Some(i)
    } else {
        find_byte(s, i + 1, b)
    }
}

pub proof fn lemma_find_byte_bounds(s: Seq<u8>, i: int, b: u8)
    requires
        find_byte(s, i, b) is Some,
    ensures
        i <= find_byte(s, i, b)->0 < s.len(),
        s[find_byte(s, i, b)->0] == b,
    decreases s.len() - i,
{
    if 0 <= i < s.len() && s[i] != b {
        lemma_find_byte_bounds(s, i + 1, b);
    }
}

/// Position just past the first occurrence of `pat` at or after `i`, if any.
pub open spec fn find_sub(s: Seq<u8>, i: int, pat: Seq<u8>) -> Option<int>
    decreases s.len() - i,
{
    if !(0 <= i && 0 < pat.len() && i + pat.len() <= s.len()) {
        None
    } else if s.subrange(i, i + pat.len()) == pat {
        Some(i + pat.len())
    } else {
        find_sub(s, i + 1, pat)
    }
}

pub proof fn lemma_find_sub_bounds(s: Seq<u8>, i: int, pat: Seq<u8>)
    requires
        find_sub(s, i, pat) is Some,
    ensures
        i + pat.len() <= find_sub(s, i, pat)->0 <= s.len(),
    decreases s.len() - i,
{
    if 0 <= i && 0 < pat.len() && i + pat.len() <= s.len() && s.subrange(i, i + pat.len())
        != pat {
        lemma_find_sub_bounds(s, i + 1, pat);
    }
}

/// Position of the `>` that closes the tag whose inside starts at `i`,
/// skipping over single- and double-quoted attribute values.
pub open spec fn scan_tag_end(s: Seq<u8>, i: int) -> Option<int>
    decreases s.len() - i,
{
    if !(0 <= i < s.len()) {
        None
    } else if s[i] == 62 {  // '>'
        Some(i)
    } else if s[i] == 34 || s[i] == 39 {  // '"' or '\''
        match find_byte(s, i + 1, s[i]) {
            None => None,
            Some(q) => {
                if i < q + 1 <= s.len() {
                    scan_tag_end(s, q + 1)
                } else {
                    None
                }
            },
        }
    } else {
        scan_tag_end(s, i + 1)
    }
}

pub proof fn lemma_scan_tag_end_bounds(s: Seq<u8>, i: int)
    requires
        scan_tag_end(s, i) is Some,
    ensures
        i <= scan_tag_end(s, i)->0 < s.len(),
        s[scan_tag_end(s, i)->0] == 62,
    decreases s.len() - i,
{
    if 0 <= i < s.len() {
        if s[i] == 62 {
        } else if s[i] == 34 || s[i] == 39 {
            if let Some(q) = find_byte(s, i + 1, s[i]) {
                if i < q + 1 <= s.len() {
                    lemma_scan_tag_end_bounds(s, q + 1);
                }
            }
        } else {
            lemma_scan_tag_end_bounds(s, i + 1);
        }
    }
}

/// A byte that may continue an element name. A name runs until whitespace,
/// `/`, `>`, `=` or `<`.
pub open spec fn is_name_byte(b: u8) -> bool {
    !is_ws(b) && b != 47 && b != 62 && b != 60 && b != 61
}

/// First position at or after `i` that cannot belong to a name, or `s.len()`.
pub open spec fn name_end(s: Seq<u8>, i: int) -> int
    decreases s.len() - i,
{
    if 0 <= i < s.len() && is_name_byte(s[i]) {
        name_end(s, i + 1)
    } else {
        i
    }
}

pub proof fn lemma_name_end_bounds(s: Seq<u8>, i: int)
    requires
        0 <= i <= s.len(),
    ensures
        i <= name_end(s, i) <= s.len(),
    decreases s.len() - i,
{
    if i < s.len() && is_name_byte(s[i]) {
        lemma_name_end_bounds(s, i + 1);
    }
}

/// The bytes `-->` that close a comment.
pub open spec fn comment_close() -> Seq<u8> {
    seq![45u8, 45u8, 62u8]
}

/// The bytes `]]>` that close a CDATA section.
pub open spec fn cdata_close() -> Seq<u8> {
    seq![93u8, 93u8, 62u8]
}

/// The bytes `?>` that close a processing instruction.
pub open spec fn pi_close() -> Seq<u8> {
    seq![63u8, 62u8]
}

/// The location of one element inside the scanned byte string: the element
/// occupies `[lo, hi)`, its name `[name_lo, name_hi)`, and its content (the
/// bytes between the start tag and the matching end tag) `[content_lo,
/// content_hi)`. A self-closing element (`sc`) has empty content.
pub struct ElemSpan {
    pub lo: int,
    pub name_lo: int,
    pub name_hi: int,
    pub content_lo: int,
    pub content_hi: int,
    pub hi: int,
    pub sc: bool,
}

/// The result of scanning element content up to the matching end tag: the
/// child elements in document order, the position where the end tag starts,
/// and the position just past it.
pub struct KidsEnd {
    pub kids: Seq<ElemSpan>,
    pub content_hi: int,
    pub hi: int,
}

/// Scans one element whose start tag begins at `i` (so `s[i]` must be `<`).
/// Yields its span, or `None` if no well-formed element starts there.
pub open spec fn scan_elem(s: Seq<u8>, i: int) -> Option<ElemSpan>
    decreases s.len() - i, 0int,
{
    if !(0 <= i < s.len() && s[i] == 60) {
        None
    } else {
        let nl = i + 1;
        let ne = name_end(s, nl);
        if ne <= nl {
            None
        } else {
            match scan_tag_end(s, ne) {
                None => None,
                Some(te) => {
                    if te > ne && s[te - 1] == 47 {
                        Some(
                            ElemSpan {
                                lo: i,
                                name_lo: nl,
                                name_hi: ne,
                                content_lo: te + 1,
                                content_hi: te + 1,
                                hi: te + 1,
                                sc: true,
                            },
                        )
                    } else if i < te + 1 <= s.len() {
                        match scan_kids(s, te + 1, s.subrange(nl, ne)) {
                            None => None,
                            Some(ke) => Some(
                                ElemSpan {
                                    lo: i,
                                    name_lo: nl,
                                    name_hi: ne,
                                    content_lo: te + 1,
                                    content_hi: ke.content_hi,
                                    hi: ke.hi,
                                    sc: false,
                                },
                            ),
                        }
                    } else {
                        None
                    }
                },
            }
        }
    }
}

/// Scans element content from `i` until the end tag named `close_name`,
/// collecting the child elements and skipping text, comments, CDATA sections
/// and processing instructions. The end tag must repeat `close_name` exactly.
pub open spec fn scan_kids(s: Seq<u8>, i: int, close_name: Seq<u8>) -> Option<KidsEnd>
    decreases s.len() - i, 1int,
{
    if !(0 <= i < s.len()) {
        None
    } else if s[i] == 60 {
        if i + 1 < s.len() && s[i + 1] == 47 {
            // the end tag
            let nl = i + 2;
            let ne = name_end(s, nl);
            let j = skip_ws(s, ne);
            if ne > nl && s.subrange(nl, ne) == close_name && j < s.len() && s[j] == 62 {
                Some(KidsEnd { kids: Seq::empty(), content_hi: i, hi: j + 1 })
            } else {
                None
            }
        } else if i + 3 < s.len() && s[i + 1] == 33 && s[i + 2] == 45 && s[i + 3] == 45 {
            // a comment
            match find_sub(s, i + 4, comment_close()) {
                None => None,
                Some(j) => if i < j <= s.len() {
                    scan_kids(s, j, close_name)
                } else {
                    None
                },
            }
        } else if i + 8 < s.len() && s[i + 1] == 33 && s[i + 2] == 91 && s[i + 3] == 67 && s[i + 4]
            == 68 && s[i + 5] == 65 && s[i + 6] == 84 && s[i + 7] == 65 && s[i + 8] == 91 {
            // a CDATA section, opened by `<![CDATA[`
            match find_sub(s, i + 9, cdata_close()) {
                None => None,
                Some(j) => if i < j <= s.len() {
                    scan_kids(s, j, close_name)
                } else {
                    None
                },
            }
        } else if i + 1 < s.len() && s[i + 1] == 63 {
            // a processing instruction
            match find_sub(s, i + 2, pi_close()) {
                None => None,
                Some(j) => if i < j <= s.len() {
                    scan_kids(s, j, close_name)
                } else {
                    None
                },
            }
        } else if i + 1 < s.len() && s[i + 1] == 33 {
            // any other `<!` declaration is not accepted inside content
            None
        } else {
            // a child element
            match scan_elem(s, i) {
                None => None,
                Some(es) => {
                    if i < es.hi <= s.len() {
                        match scan_kids(s, es.hi, close_name) {
                            None => None,
                            Some(ke) => Some(
                                KidsEnd {
                                    kids: seq![es] + ke.kids,
                                    content_hi: ke.content_hi,
                                    hi: ke.hi,
                                },
                            ),
                        }
                    } else {
                        None
                    }
                },
            }
        }
    } else {
        // text, up to the next markup
        match find_byte(s, i, 60) {
            None => None,
            Some(j) => if i < j <= s.len() {
                scan_kids(s, j, close_name)
            } else {
                None
            },
        }
    }
}

pub proof fn lemma_scan_elem_bounds(s: Seq<u8>, i: int)
    requires
        scan_elem(s, i) is Some,
    ensures
        ({
            let es = scan_elem(s, i)->0;
            &&& es.lo == i
            &&& es.name_lo == i + 1
            &&& es.name_lo < es.name_hi <= es.content_lo
            &&& es.content_lo <= es.content_hi <= es.hi <= s.len()
            &&& 0 <= i
            &&& s[i] == 60
        }),
    decreases s.len() - i, 0int,
{
    let nl = i + 1;
    let ne = name_end(s, nl);
    lemma_name_end_bounds(s, nl);
    let te = scan_tag_end(s, ne)->0;
    lemma_scan_tag_end_bounds(s, ne);
    if !(te > ne && s[te - 1] == 47) {
        lemma_scan_kids_bounds(s, te + 1, s.subrange(nl, ne));
    }
}

pub proof fn lemma_scan_kids_bounds(s: Seq<u8>, i: int, close_name: Seq<u8>)
    requires
        scan_kids(s, i, close_name) is Some,
    ensures
        ({
            let ke = scan_kids(s, i, close_name)->0;
            &&& 0 <= i <= ke.content_hi < ke.hi <= s.len()
            &&& forall|k: int|
                0 <= k < ke.kids.len() ==> (#[trigger] ke.kids[k]).lo >= i && ke.kids[k].hi
                    <= ke.content_hi && scan_elem(s, ke.kids[k].lo) == Some(ke.kids[k])
            &&& forall|k: int|
                0 <= k && k + 1 < ke.kids.len() ==> (#[trigger] ke.kids[k]).hi <= ke.kids[k
                    + 1].lo
        }),
    decreases s.len() - i, 1int,
{
    let ke = scan_kids(s, i, close_name)->0;
    if s[i] == 60 {
        if i + 1 < s.len() && s[i + 1] == 47 {
            let ne = name_end(s, i + 2);
            lemma_name_end_bounds(s, i + 2);
            lemma_skip_ws_bounds(s, ne);
        } else if i + 3 < s.len() && s[i + 1] == 33 && s[i + 2] == 45 && s[i + 3] == 45 {
            let j = find_sub(s, i + 4, comment_close())->0;
            lemma_scan_kids_bounds(s, j, close_name);
        } else if i + 8 < s.len() && s[i + 1] == 33 && s[i + 2] == 91 && s[i + 3] == 67 && s[i + 4]
            == 68 && s[i + 5] == 65 && s[i + 6] == 84 && s[i + 7] == 65 && s[i + 8] == 91 {
            let j = find_sub(s, i + 9, cdata_close())->0;
            lemma_scan_kids_bounds(s, j, close_name);
        } else if i + 1 < s.len() && s[i + 1] == 63 {
            let j = find_sub(s, i + 2, pi_close())->0;
            lemma_scan_kids_bounds(s, j, close_name);
        } else {
            let es = scan_elem(s, i)->0;
            lemma_scan_elem_bounds(s, i);
            lemma_scan_kids_bounds(s, es.hi, close_name);
            let rest = scan_kids(s, es.hi, close_name)->0;
            assert(ke.kids == seq![es] + rest.kids);
            assert(seq![es].len() == 1);
            assert forall|k: int| 0 <= k < ke.kids.len() implies #[trigger] ke.kids[k] == (if k
                == 0 {
                es
            } else {
                rest.kids[k - 1]
            }) by {
                assert(ke.kids[k] == (seq![es] + rest.kids)[k]);
            }
            assert forall|k: int| 0 <= k && k + 1 < ke.kids.len() implies (#[trigger] ke.kids[
                k]).hi <= ke.kids[k + 1].lo by {
                assert(ke.kids[k + 1] == (seq![es] + rest.kids)[k + 1]);
                if k == 0 {
                    assert(ke.kids[1] == rest.kids[0]);
                    assert(rest.kids[0].lo >= es.hi);
                } else {
                    assert(ke.kids[k] == rest.kids[k - 1]);
                    assert(rest.kids[k - 1].hi <= rest.kids[(k - 1) + 1].lo);
                }
            }
        }
    } else {
        let j = find_byte(s, i, 60)->0;
        lemma_scan_kids_bounds(s, j, close_name);
    }
}

/// Executable counterpart of [`ElemSpan`], with machine indices.
#[derive(Clone, Copy)]
pub struct ElemSpanX {
    pub lo: usize,
    pub name_lo: usize,
    pub name_hi: usize,
    pub content_lo: usize,
    pub content_hi: usize,
    pub hi: usize,
    pub sc: bool,
}

impl View for ElemSpanX {
    type V = ElemSpan;

    open spec fn view(&self) -> ElemSpan {
        ElemSpan {
            lo: self.lo as int,
            name_lo: self.name_lo as int,
            name_hi: self.name_hi as int,
            content_lo: self.content_lo as int,
            content_hi: self.content_hi as int,
            hi: self.hi as int,
            sc: self.sc,
        }
    }
}

/// Executable counterpart of [`KidsEnd`].
pub struct KidsEndX {
    pub kids: Vec<ElemSpanX>,
    pub content_hi: usize,
    pub hi: usize,
}

/// The spans of the elements in `kids`, in order.
pub open spec fn spans_of(kids: Seq<ElemSpanX>) -> Seq<ElemSpan> {
    Seq::new(kids.len(), |k: int| kids[k]@)
}

impl View for KidsEndX {
    type V = KidsEnd;

    open spec fn view(&self) -> KidsEnd {
        KidsEnd {
            kids: spans_of(self.kids@),
            content_hi: self.content_hi as int,
            hi: self.hi as int,
        }
    }
}

pub fn skip_ws_x(s: &[u8], i: usize) -> (r: usize)
    requires
        i <= s@.len(),
    ensures
        r == skip_ws(s@, i as int),
        i <= r <= s@.len(),
{
    let mut j = i;
    while j < s.len() && (s[j] == 32 || s[j] == 9 || s[j] == 10 || s[j] == 13)
        invariant
            i <= j <= s@.len(),
            skip_ws(s@, i as int) == skip_ws(s@, j as int),
        decreases s@.len() - j,
    {
        j = j + 1;
    }
    j
}

pub fn find_byte_x(s: &[u8], i: usize, b: u8) -> (r: Option<usize>)
    requires
        i <= s@.len(),
    ensures
        (r is Some) == (find_byte(s@, i as int, b) is Some),
        r is Some ==> r->0 as int == find_byte(s@, i as int, b)->0,
{
    let mut j = i;
    while j < s.len() && s[j] != b
        invariant
            i <= j <= s@.len(),
            find_byte(s@, i as int, b) == find_byte(s@, j as int, b),
        decreases s@.len() - j,
    {
        j = j + 1;
    }
    if j < s.len() {
        Some(j)
    } else {
        None
    }
}

/// Whether `s[lo..hi]` equals `pat`, byte for byte.
pub fn bytes_eq_range(s: &[u8], lo: usize, hi: usize, pat: &[u8]) -> (r: bool)
    requires
        lo <= hi <= s@.len(),
    ensures
        r == (s@.subrange(lo as int, hi as int) == pat@),
{
    if hi - lo != pat.len() {
        assert(s@.subrange(lo as int, hi as int).len() != pat@.len());
        return false;
    }
    let mut k: usize = 0;
    while k < pat.len()
        invariant
            lo <= hi <= s@.len(),
            hi - lo == pat@.len(),
            k <= pat@.len(),
            forall|m: int| 0 <= m < k ==> s@.subrange(lo as int, hi as int)[m] == pat@[m],
        decreases pat@.len() - k,
    {
        if s[lo + k] != pat[k] {
            assert(s@.subrange(lo as int, hi as int)[k as int] != pat@[k as int]);
            return false;
        }
        k = k + 1;
    }
    proof {
        assert(s@.subrange(lo as int, hi as int) =~= pat@);
    }
    true
}

pub fn find_sub_x(s: &[u8], i: usize, pat: &[u8]) -> (r: Option<usize>)
    requires
        i <= s@.len(),
        pat@.len() > 0,
    ensures
        (r is Some) == (find_sub(s@, i as int, pat@) is Some),
        r is Some ==> r->0 as int == find_sub(s@, i as int, pat@)->0,
{
    let mut j = i;
    loop
        invariant
            i <= j,
            i <= s@.len(),
            pat@.len() > 0,
            find_sub(s@, i as int, pat@) == find_sub(s@, j as int, pat@),
        decreases s@.len() - j,
    {
        if j > s.len() || pat.len() > s.len() - j {
            return None;
        }
        if bytes_eq_range(s, j, j + pat.len(), pat) {
            return Some(j + pat.len());
        }
        j = j + 1;
    }
}

pub fn scan_tag_end_x(s: &[u8], i: usize) -> (r: Option<usize>)
    requires
        i <= s@.len(),
    ensures
        (r is Some) == (scan_tag_end(s@, i as int) is Some),
        r is Some ==> r->0 as int == scan_tag_end(s@, i as int)->0,
        r is Some ==> i <= r->0 < s@.len(),
{
    let mut j = i;
    loop
        invariant
            i <= j,
            i <= s@.len(),
            scan_tag_end(s@, i as int) == scan_tag_end(s@, j as int),
        decreases s@.len() - j,
    {
        if j >= s.len() {
            return None;
        }
        let b = s[j];
        if b == 62 {
            proof {
                lemma_scan_tag_end_bounds(s@, i as int);
            }
            return Some(j);
        } else if b == 34 || b == 39 {
            match find_byte_x(s, j + 1, b) {
                None => {
                    return None;
                },
                Some(q) => {
                    proof {
                        lemma_find_byte_bounds(s@, j + 1, b);
                    }
                    j = q + 1;
                },
            }
        } else {
            j = j + 1;
        }
    }
}

pub fn name_end_x(s: &[u8], i: usize) -> (r: usize)
    requires
        i <= s@.len(),
    ensures
        r == name_end(s@, i as int),
        i <= r <= s@.len(),
{
    let mut j = i;
    while j < s.len() && !(s[j] == 32 || s[j] == 9 || s[j] == 10 || s[j] == 13 || s[j] == 47 || s[j]
        == 62 || s[j] == 60 || s[j] == 61)
        invariant
            i <= j <= s@.len(),
            name_end(s@, i as int) == name_end(s@, j as int),
        decreases s@.len() - j,
    {
        j = j + 1;
    }
    j
}

/// Scans the element starting at `i`, as [`scan_elem`] describes.
pub fn scan_elem_x(s: &[u8], i: usize) -> (r: Option<ElemSpanX>)
    requires
        i <= s@.len(),
    ensures
        (r is Some) == (scan_elem(s@, i as int) is Some),
        r is Some ==> r->0@ == scan_elem(s@, i as int)->0,
    decreases s@.len() - i, 0int,
{
    if i >= s.len() || s[i] != 60 {
        return None;
    }
    let nl = i + 1;
    let ne = name_end_x(s, nl);
    if ne <= nl {
        return None;
    }
    match scan_tag_end_x(s, ne) {
        None => None,
        Some(te) => {
            if te > ne && s[te - 1] == 47 {
                Some(
                    ElemSpanX {
                        lo: i,
                        name_lo: nl,
                        name_hi: ne,
                        content_lo: te + 1,
                        content_hi: te + 1,
                        hi: te + 1,
                        sc: true,
                    },
                )
            } else {
                let name = vstd::slice::slice_subrange(s, nl, ne);
                match scan_kids_x(s, te + 1, name) {
                    None => None,
                    Some(kex) => Some(
                        ElemSpanX {
                            lo: i,
                            name_lo: nl,
                            name_hi: ne,
                            content_lo: te + 1,
                            content_hi: kex.content_hi,
                            hi: kex.hi,
                            sc: false,
                        },
                    ),
                }
            }
        },
    }
}

/// Scans element content from `i` up to the end tag named `close_name`, as
/// [`scan_kids`] describes.
pub fn scan_kids_x(s: &[u8], i: usize, close_name: &[u8]) -> (r: Option<KidsEndX>)
    requires
        i <= s@.len(),
    ensures
        (r is Some) == (scan_kids(s@, i as int, close_name@) is Some),
        r is Some ==> r->0@ == scan_kids(s@, i as int, close_name@)->0,
    decreases s@.len() - i, 1int,
{
    let ghost target = scan_kids(s@, i as int, close_name@);
    let mut acc: Vec<ElemSpanX> = Vec::new();
    let mut cur = i;
    loop
        invariant
            i <= cur <= s@.len(),
            target == scan_kids(s@, i as int, close_name@),
            (target is Some) == (scan_kids(s@, cur as int, close_name@) is Some),
            target is Some ==> {
                let a = target->0;
                let b = scan_kids(s@, cur as int, close_name@)->0;
                a.kids == spans_of(acc@) + b.kids && a.content_hi == b.content_hi && a.hi == b.hi
            },
        decreases s@.len() - cur,
    {
        if cur >= s.len() {
            return None;
        }
        if s[cur] == 60 {
            if cur + 1 < s.len() && s[cur + 1] == 47 {
                let nl = cur + 2;
                let ne = name_end_x(s, nl);
                let j = skip_ws_x(s, ne);
                if ne > nl && bytes_eq_range(s, nl, ne, close_name) && j < s.len() && s[j] == 62 {
                    proof {
                        let b = scan_kids(s@, cur as int, close_name@)->0;
                        assert(b.kids =~= Seq::<ElemSpan>::empty());
                        assert(spans_of(acc@) + b.kids =~= spans_of(acc@));
                    }
                    return Some(KidsEndX { kids: acc, content_hi: cur, hi: j + 1 });
                } else {
                    return None;
                }
            } else if s.len() - cur > 3 && s[cur + 1] == 33 && s[cur + 2] == 45 && s[cur + 3]
                == 45 {
                let mut p: Vec<u8> = Vec::new();
                p.push(45);
                p.push(45);
                p.push(62);
                proof {
                    assert(p@ =~= comment_close());
                }
                match find_sub_x(s, cur + 4, p.as_slice()) {
                    None => {
                        return None;
                    },
                    Some(j) => {
                        proof {
                            lemma_find_sub_bounds(s@, cur + 4, comment_close());
                        }
                        cur = j;
                    },
                }
            } else if s.len() - cur > 8 && s[cur + 1] == 33 && s[cur + 2] == 91 && s[cur + 3] == 67
                && s[cur + 4] == 68 && s[cur + 5] == 65 && s[cur + 6] == 84 && s[cur + 7] == 65 && s[
                cur + 8] == 91 {
                let mut p: Vec<u8> = Vec::new();
                p.push(93);
                p.push(93);
                p.push(62);
                proof {
                    assert(p@ =~= cdata_close());
                }
                match find_sub_x(s, cur + 9, p.as_slice()) {
                    None => {
                        return None;
                    },
                    Some(j) => {
                        proof {
                            lemma_find_sub_bounds(s@, cur + 9, cdata_close());
                        }
                        cur = j;
                    },
                }
            } else if cur + 1 < s.len() && s[cur + 1] == 63 {
                let mut p: Vec<u8> = Vec::new();
                p.push(63);
                p.push(62);
                proof {
                    assert(p@ =~= pi_close());
                }
                match find_sub_x(s, cur + 2, p.as_slice()) {
                    None => {
                        return None;
                    },
                    Some(j) => {
                        proof {
                            lemma_find_sub_bounds(s@, cur + 2, pi_close());
                        }
                        cur = j;
                    },
                }
            } else if cur + 1 < s.len() && s[cur + 1] == 33 {
                return None;
            } else {
                match scan_elem_x(s, cur) {
                    None => {
                        return None;
                    },
                    Some(esx) => {
                        proof {
                            lemma_scan_elem_bounds(s@, cur as int);
                        }
                        let ghost old_acc = acc@;
                        let ghost es = scan_elem(s@, cur as int)->0;
                        let hi = esx.hi;
                        acc.push(esx);
                        proof {
                            if target is Some {
                                let rest = scan_kids(s@, es.hi, close_name@)->0;
                                assert(spans_of(old_acc) + (seq![es] + rest.kids) =~= spans_of(
                                    acc@,
                                ) + rest.kids);
                            }
                        }
                        cur = hi;
                    },
                }
            }
        } else {
            match find_byte_x(s, cur, 60) {
                None => {
                    return None;
                },
                Some(j) => {
                    proof {
                        lemma_find_byte_bounds(s@, cur as int, 60);
                    }
                    cur = j;
                },
            }
        }
    }
}

/// A span, re-addressed into a window that starts `d` bytes into the
/// original string.
pub open spec fn shift_span(es: ElemSpan, d: int) -> ElemSpan {
    ElemSpan {
        lo: es.lo - d,
        name_lo: es.name_lo - d,
        name_hi: es.name_hi - d,
        content_lo: es.content_lo - d,
        content_hi: es.content_hi - d,
        hi: es.hi - d,
        sc: es.sc,
    }
}

/// Spans, re-addressed into a window.
pub open spec fn shift_spans(kids: Seq<ElemSpan>, d: int) -> Seq<ElemSpan> {
    Seq::new(kids.len(), |k: int| shift_span(kids[k], d))
}

/// Whether `t` is the window of `s` that starts at `d`.
pub open spec fn is_window(s: Seq<u8>, t: Seq<u8>, d: int) -> bool {
    &&& 0 <= d
    &&& d + t.len() <= s.len()
    &&& t == s.subrange(d, d + t.len())
}

pub proof fn lemma_shift_skip_ws(s: Seq<u8>, t: Seq<u8>, d: int, i: int)
    requires
        is_window(s, t, d),
        d <= i <= d + t.len(),
        skip_ws(s, i) <= d + t.len(),
    ensures
        skip_ws(t, i - d) == skip_ws(s, i) - d,
    decreases s.len() - i,
{
    let m = d + t.len();
    if i < m {
        assert(t[i - d] == s[i]);
        if is_ws(s[i]) {
            lemma_skip_ws_bounds(s, i + 1);
            lemma_shift_skip_ws(s, t, d, i + 1);
        }
    } else {
        lemma_skip_ws_bounds(s, i);
    }
}

pub proof fn lemma_shift_name_end(s: Seq<u8>, t: Seq<u8>, d: int, i: int)
    requires
        is_window(s, t, d),
        d <= i <= d + t.len(),
        name_end(s, i) <= d + t.len(),
    ensures
        name_end(t, i - d) == name_end(s, i) - d,
    decreases s.len() - i,
{
    let m = d + t.len();
    if i < m {
        assert(t[i - d] == s[i]);
        if is_name_byte(s[i]) {
            lemma_name_end_bounds(s, i + 1);
            lemma_shift_name_end(s, t, d, i + 1);
        }
    } else {
        lemma_name_end_bounds(s, i);
    }
}

pub proof fn lemma_shift_find_byte(s: Seq<u8>, t: Seq<u8>, d: int, i: int, b: u8)
    requires
        is_window(s, t, d),
        d <= i,
        find_byte(s, i, b) is Some,
        find_byte(s, i, b)->0 < d + t.len(),
    ensures
        find_byte(t, i - d, b) == Some(find_byte(s, i, b)->0 - d),
    decreases s.len() - i,
{
    lemma_find_byte_bounds(s, i, b);
    assert(t[i - d] == s[i]);
    if s[i] != b {
        lemma_shift_find_byte(s, t, d, i + 1, b);
    }
}

pub proof fn lemma_shift_find_sub(s: Seq<u8>, t: Seq<u8>, d: int, i: int, pat: Seq<u8>)
    requires
        is_window(s, t, d),
        d <= i,
        pat.len() > 0,
        find_sub(s, i, pat) is Some,
        find_sub(s, i, pat)->0 <= d + t.len(),
    ensures
        find_sub(t, i - d, pat) == Some(find_sub(s, i, pat)->0 - d),
    decreases s.len() - i,
{
    let m = d + t.len();
    lemma_find_sub_bounds(s, i, pat);
    let j = find_sub(s, i, pat)->0;
    assert(i + pat.len() <= j <= m);
    assert(t.subrange(i - d, i - d + pat.len()) =~= s.subrange(i, i + pat.len()));
    if s.subrange(i, i + pat.len()) != pat {
        lemma_shift_find_sub(s, t, d, i + 1, pat);
    }
}

pub proof fn lemma_shift_scan_tag_end(s: Seq<u8>, t: Seq<u8>, d: int, i: int)
    requires
        is_window(s, t, d),
        d <= i,
        scan_tag_end(s, i) is Some,
        scan_tag_end(s, i)->0 < d + t.len(),
    ensures
        scan_tag_end(t, i - d) == Some(scan_tag_end(s, i)->0 - d),
    decreases s.len() - i,
{
    let m = d + t.len();
    lemma_scan_tag_end_bounds(s, i);
    let te = scan_tag_end(s, i)->0;
    assert(t[i - d] == s[i]);
    if s[i] == 62 {
    } else if s[i] == 34 || s[i] == 39 {
        let q = find_byte(s, i + 1, s[i])->0;
        lemma_find_byte_bounds(s, i + 1, s[i]);
        lemma_scan_tag_end_bounds(s, q + 1);
        assert(q + 1 <= te);
        lemma_shift_find_byte(s, t, d, i + 1, s[i]);
        lemma_shift_scan_tag_end(s, t, d, q + 1);
    } else {
        lemma_shift_scan_tag_end(s, t, d, i + 1);
    }
}

/// An element scan depends only on the bytes of the element itself: inside
/// any window that contains the element, the scan succeeds at the same
/// place with the same, re-addressed span.
pub proof fn lemma_shift_scan_elem(s: Seq<u8>, t: Seq<u8>, d: int, i: int)
    requires
        is_window(s, t, d),
        d <= i,
        scan_elem(s, i) is Some,
        scan_elem(s, i)->0.hi <= d + t.len(),
    ensures
        scan_elem(t, i - d) == Some(shift_span(scan_elem(s, i)->0, d)),
    decreases s.len() - i, 0int,
{
    let m = d + t.len();
    let es = scan_elem(s, i)->0;
    lemma_scan_elem_bounds(s, i);
    assert(i < es.hi <= m);
    assert(t[i - d] == s[i]);
    let nl = i + 1;
    let ne = name_end(s, nl);
    lemma_name_end_bounds(s, nl);
    let te = scan_tag_end(s, ne)->0;
    lemma_scan_tag_end_bounds(s, ne);
    assert(te + 1 <= es.hi);
    lemma_shift_name_end(s, t, d, nl);
    lemma_shift_scan_tag_end(s, t, d, ne);
    assert(t[te - 1 - d] == s[te - 1]);
    if te > ne && s[te - 1] == 47 {
    } else {
        let nm = s.subrange(nl, ne);
        assert(t.subrange(nl - d, ne - d) =~= nm);
        lemma_scan_kids_bounds(s, te + 1, nm);
        lemma_shift_scan_kids(s, t, d, te + 1, nm);
    }
}

/// A content scan depends only on the bytes up to its end tag: inside any
/// window that contains them, it finds the same, re-addressed children and
/// end positions.
pub proof fn lemma_shift_scan_kids(s: Seq<u8>, t: Seq<u8>, d: int, i: int, close_name: Seq<u8>)
    requires
        is_window(s, t, d),
        d <= i,
        scan_kids(s, i, close_name) is Some,
        scan_kids(s, i, close_name)->0.hi <= d + t.len(),
    ensures
        scan_kids(t, i - d, close_name) == Some(
            KidsEnd {
                kids: shift_spans(scan_kids(s, i, close_name)->0.kids, d),
                content_hi: scan_kids(s, i, close_name)->0.content_hi - d,
                hi: scan_kids(s, i, close_name)->0.hi - d,
            },
        ),
    decreases s.len() - i, 3int,
{
    let m = d + t.len();
    let ke = scan_kids(s, i, close_name)->0;
    lemma_scan_kids_bounds(s, i, close_name);
    assert(t[i - d] == s[i]);
    if s[i] == 60 {
        if i + 1 < s.len() && s[i + 1] == 47 {
            lemma_shift_kids_end_tag(s, t, d, i, close_name);
        } else if i + 3 < s.len() && s[i + 1] == 33 && s[i + 2] == 45 && s[i + 3] == 45 {
            lemma_shift_kids_skip(s, t, d, i, close_name, 0);
        } else if i + 8 < s.len() && s[i + 1] == 33 && s[i + 2] == 91 && s[i + 3] == 67 && s[i + 4]
            == 68 && s[i + 5] == 65 && s[i + 6] == 84 && s[i + 7] == 65 && s[i + 8] == 91 {
            lemma_shift_kids_skip(s, t, d, i, close_name, 1);
        } else if i + 1 < s.len() && s[i + 1] == 63 {
            lemma_shift_kids_skip(s, t, d, i, close_name, 2);
        } else {
            lemma_shift_kids_child(s, t, d, i, close_name);
        }
    } else {
        let j = find_byte(s, i, 60)->0;
        lemma_find_byte_bounds(s, i, 60);
        lemma_scan_kids_bounds(s, j, close_name);
        assert(j <= ke.content_hi < m);
        lemma_shift_find_byte(s, t, d, i, 60);
        lemma_shift_scan_kids(s, t, d, j, close_name);
    }
}

/// The end-tag case of [`lemma_shift_scan_kids`].
proof fn lemma_shift_kids_end_tag(s: Seq<u8>, t: Seq<u8>, d: int, i: int, close_name: Seq<u8>)
    requires
        is_window(s, t, d),
        d <= i,
        scan_kids(s, i, close_name) is Some,
        scan_kids(s, i, close_name)->0.hi <= d + t.len(),
        0 <= i < s.len() && s[i] == 60,
        i + 1 < s.len() && s[i + 1] == 47,
    ensures
        scan_kids(t, i - d, close_name) == Some(
            KidsEnd {
                kids: shift_spans(scan_kids(s, i, close_name)->0.kids, d),
                content_hi: scan_kids(s, i, close_name)->0.content_hi - d,
                hi: scan_kids(s, i, close_name)->0.hi - d,
            },
        ),
{
    let m = d + t.len();
    let ke = scan_kids(s, i, close_name)->0;
    lemma_scan_kids_bounds(s, i, close_name);
    assert(t[i - d] == s[i]);
    let nl = i + 2;
    let ne = name_end(s, nl);
    lemma_name_end_bounds(s, nl);
    let j = skip_ws(s, ne);
    lemma_skip_ws_bounds(s, ne);
    assert(j + 1 == ke.hi);
    assert(i + 1 < m);
    assert(t[i + 1 - d] == s[i + 1]);
    lemma_shift_name_end(s, t, d, nl);
    lemma_shift_skip_ws(s, t, d, ne);
    assert(t[j - d] == s[j]);
    assert(t.subrange(nl - d, ne - d) =~= s.subrange(nl, ne));
    assert(shift_spans(ke.kids, d) =~= Seq::<ElemSpan>::empty());
}

/// The comment, CDATA and processing-instruction cases of
/// [`lemma_shift_scan_kids`], told apart by `which`.
proof fn lemma_shift_kids_skip(
    s: Seq<u8>,
    t: Seq<u8>,
    d: int,
    i: int,
    close_name: Seq<u8>,
    which: int,
)
    requires
        is_window(s, t, d),
        d <= i,
        scan_kids(s, i, close_name) is Some,
        scan_kids(s, i, close_name)->0.hi <= d + t.len(),
        0 <= i < s.len() && s[i] == 60,
        !(i + 1 < s.len() && s[i + 1] == 47),
        which == 0 ==> i + 3 < s.len() && s[i + 1] == 33 && s[i + 2] == 45 && s[i + 3] == 45,
        which == 1 ==> i + 8 < s.len() && s[i + 1] == 33 && s[i + 2] == 91 && s[i + 3] == 67 && s[
            i + 4] == 68 && s[i + 5] == 65 && s[i + 6] == 84 && s[i + 7] == 65 && s[i + 8] == 91,
        which == 2 ==> i + 1 < s.len() && s[i + 1] == 63 && s[i + 1] != 33,
        0 <= which <= 2,
    ensures
        scan_kids(t, i - d, close_name) == Some(
            KidsEnd {
                kids: shift_spans(scan_kids(s, i, close_name)->0.kids, d),
                content_hi: scan_kids(s, i, close_name)->0.content_hi - d,
                hi: scan_kids(s, i, close_name)->0.hi - d,
            },
        ),
    decreases s.len() - i, 2int,
{
    let m = d + t.len();
    let ke = scan_kids(s, i, close_name)->0;
    lemma_scan_kids_bounds(s, i, close_name);
    assert(t[i - d] == s[i]);
    if which == 0 {
        let j = find_sub(s, i + 4, comment_close())->0;
        lemma_find_sub_bounds(s, i + 4, comment_close());
        lemma_scan_kids_bounds(s, j, close_name);
        assert(j <= ke.content_hi < m);
        assert(i + 3 < m);
        assert(t[i + 1 - d] == s[i + 1] && t[i + 2 - d] == s[i + 2] && t[i + 3 - d] == s[i + 3]);
        lemma_shift_find_sub(s, t, d, i + 4, comment_close());
        lemma_shift_scan_kids(s, t, d, j, close_name);
    } else if which == 1 {
        let j = find_sub(s, i + 9, cdata_close())->0;
        lemma_find_sub_bounds(s, i + 9, cdata_close());
        lemma_scan_kids_bounds(s, j, close_name);
        assert(j <= ke.content_hi < m);
        assert(i + 8 < m);
        assert(t[i + 1 - d] == s[i + 1] && t[i + 2 - d] == s[i + 2] && t[i + 3 - d] == s[i + 3]
            && t[i + 4 - d] == s[i + 4] && t[i + 5 - d] == s[i + 5] && t[i + 6 - d] == s[i + 6]
            && t[i + 7 - d] == s[i + 7] && t[i + 8 - d] == s[i + 8]);
        lemma_shift_find_sub(s, t, d, i + 9, cdata_close());
        lemma_shift_scan_kids(s, t, d, j, close_name);
    } else {
        let j = find_sub(s, i + 2, pi_close())->0;
        lemma_find_sub_bounds(s, i + 2, pi_close());
        lemma_scan_kids_bounds(s, j, close_name);
        assert(j <= ke.content_hi < m);
        assert(i + 1 < m);
        assert(t[i + 1 - d] == s[i + 1]);
        lemma_shift_find_sub(s, t, d, i + 2, pi_close());
        lemma_shift_scan_kids(s, t, d, j, close_name);
    }
}

/// The child-element case of [`lemma_shift_scan_kids`].
proof fn lemma_shift_kids_child(s: Seq<u8>, t: Seq<u8>, d: int, i: int, close_name: Seq<u8>)
    requires
        is_window(s, t, d),
        d <= i,
        scan_kids(s, i, close_name) is Some,
        scan_kids(s, i, close_name)->0.hi <= d + t.len(),
        0 <= i < s.len() && s[i] == 60,
        !(i + 1 < s.len() && s[i + 1] == 47),
        !(i + 3 < s.len() && s[i + 1] == 33 && s[i + 2] == 45 && s[i + 3] == 45),
        !(i + 8 < s.len() && s[i + 1] == 33 && s[i + 2] == 91 && s[i + 3] == 67 && s[i + 4] == 68
            && s[i + 5] == 65 && s[i + 6] == 84 && s[i + 7] == 65 && s[i + 8] == 91),
        !(i + 1 < s.len() && s[i + 1] == 63),
        !(i + 1 < s.len() && s[i + 1] == 33),
    ensures
        scan_kids(t, i - d, close_name) == Some(
            KidsEnd {
                kids: shift_spans(scan_kids(s, i, close_name)->0.kids, d),
                content_hi: scan_kids(s, i, close_name)->0.content_hi - d,
                hi: scan_kids(s, i, close_name)->0.hi - d,
            },
        ),
    decreases s.len() - i, 2int,
{
    let m = d + t.len();
    let ke = scan_kids(s, i, close_name)->0;
    lemma_scan_kids_bounds(s, i, close_name);
    assert(t[i - d] == s[i]);
    let es = scan_elem(s, i)->0;
    lemma_scan_elem_bounds(s, i);
    lemma_scan_kids_bounds(s, es.hi, close_name);
    let rest = scan_kids(s, es.hi, close_name)->0;
    assert(es.hi <= rest.content_hi < m);
    assert(i + 1 < es.hi);
    assert(t[i + 1 - d] == s[i + 1]);
    lemma_shift_scan_elem(s, t, d, i);
    lemma_shift_scan_kids(s, t, d, es.hi, close_name);
    assert(shift_spans(ke.kids, d) =~= seq![shift_span(es, d)] + shift_spans(rest.kids, d));
}

} // verus!
