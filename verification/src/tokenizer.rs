use vstd::prelude::*;
use crate::errors::RewritingError;
use crate::units::{
    Span,
    AttrSpans,
    TokenShape,
    LexUnit,
    raws,
    lemma_raws_push,
    unit_ok,
    text_unit_ok,
    is_tag_start_byte,
    is_name_delim,
    doctype_keyword,
    cdata_marker,
};
use crate::text::{is_ascii_alpha, lower_seq, to_lower};
use crate::text::copy_range;

verus! {

/// The named states of the tokenizer's finite state machine, mirroring the
/// standard HTML tokenization states that this engine distinguishes.
#[derive(Debug, Copy, Clone, PartialEq, Eq, Structural)]
pub enum State {
    Data,
    TagOpen,
    EndTagOpen,
    TagName,
    BeforeAttrName,
    AttrName,
    AfterAttrName,
    BeforeAttrValue,
    AttrValueDq,
    AttrValueSq,
    AttrValueUnq,
    AfterAttrValueQuoted,
    SelfClosingStartTag,
    MarkupDeclaration,
    CommentBody,
    CommentEndDash,
    CommentEnd,
    Doctype,
    BogusComment,
    CdataBody,
    CdataBracket,
    CdataEnd,
}

enum SeqMatch {
    Matched,
    Mismatch,
    NeedMore,
}

enum MetaStep {
    Advanced,
    Park,
}

/// Ranks states so that every transition that does not consume a byte moves
/// to a strictly lower rank; used for loop termination.
pub open spec fn state_rank(s: State) -> int {
    match s {
        State::Data => 0,
        State::BeforeAttrName => 1,
        State::BogusComment => 1,
        _ => 2,
    }
}

/// Whether a shape's part ranges all lie within `limit` bytes.
pub open spec fn shape_wf(shape: &TokenShape, limit: int) -> bool {
    match shape {
        TokenShape::Text => true,
        TokenShape::StartTag { name, attrs, self_closing } => {
            &&& name.wf(limit)
            &&& forall|i: int| 0 <= i < attrs@.len() ==> (#[trigger] attrs@[i]).wf(limit)
        },
        TokenShape::EndTag { name } => name.wf(limit),
        TokenShape::Comment => true,
        TokenShape::Doctype => true,
        TokenShape::Cdata => true,
    }
}

/// The fixed head of an in-flight tag: `<` (and `/` for an end tag) followed
/// by an alphabetic first name character at the name span's start.
pub open spec fn tag_head_ok(buf: Seq<u8>, is_end_tag: bool, name: Span) -> bool {
    &&& buf.len() >= 1
    &&& buf[0] == 60
    &&& (if is_end_tag {
        name.start == 2 && buf.len() >= 3 && buf[1] == 47 && is_ascii_alpha(buf[2])
    } else {
        name.start == 1 && buf.len() >= 2 && is_ascii_alpha(buf[1])
    })
}

/// A closed name span: a non-empty delimiter-free run ended by a delimiter,
/// strictly before the scan position.
pub open spec fn name_closed_ok(buf: Seq<u8>, name: Span, pos: int) -> bool {
    &&& name.start < name.end < pos
    &&& pos <= buf.len()
    &&& forall|k: int| name.start <= k < name.end ==> !is_name_delim(#[trigger] buf[k])
    &&& is_name_delim(buf[name.end as int])
}

/// What each state guarantees of the in-flight bytes: the facts from which a
/// completed unit's shape is proved at emission time.
pub open spec fn sketch_ok(state: State, buf: Seq<u8>, pos: int, is_end_tag: bool, name: Span) -> bool {
    match state {
        State::Data => text_unit_ok(buf.subrange(0, pos)) && (pos >= 1 && pos < buf.len() && buf[
            pos - 1
        ] == 60 ==> !is_tag_start_byte(buf[pos])),
        State::TagOpen => pos == 1 && buf.len() >= 1 && buf[0] == 60,
        State::EndTagOpen => pos == 2 && buf.len() >= 2 && buf[0] == 60 && buf[1] == 47,
        State::TagName => tag_head_ok(buf, is_end_tag, name) && name.start < pos && (forall|k: int|
            name.start <= k < pos ==> !is_name_delim(#[trigger] buf[k])),
        State::BeforeAttrName => tag_head_ok(buf, is_end_tag, name) && name_closed_ok(
            buf,
            name,
            pos,
        ),
        State::AttrName => tag_head_ok(buf, is_end_tag, name) && name_closed_ok(buf, name, pos),
        State::AfterAttrName => tag_head_ok(buf, is_end_tag, name) && name_closed_ok(
            buf,
            name,
            pos,
        ),
        State::BeforeAttrValue => tag_head_ok(buf, is_end_tag, name) && name_closed_ok(
            buf,
            name,
            pos,
        ),
        State::AttrValueDq => tag_head_ok(buf, is_end_tag, name) && name_closed_ok(buf, name, pos),
        State::AttrValueSq => tag_head_ok(buf, is_end_tag, name) && name_closed_ok(buf, name, pos),
        State::AttrValueUnq => tag_head_ok(buf, is_end_tag, name) && name_closed_ok(
            buf,
            name,
            pos,
        ),
        State::AfterAttrValueQuoted => tag_head_ok(buf, is_end_tag, name) && name_closed_ok(
            buf,
            name,
            pos,
        ),
        State::SelfClosingStartTag => tag_head_ok(buf, is_end_tag, name) && name_closed_ok(
            buf,
            name,
            pos,
        ),
        State::MarkupDeclaration => pos == 2 && buf.len() >= 2 && buf[0] == 60 && buf[1] == 33,
        State::CommentBody => pos >= 4 && buf.len() >= 2 && buf[0] == 60 && buf[1] == 33,
        State::CommentEndDash => pos >= 4 && buf.len() >= 2 && buf[0] == 60 && buf[1] == 33,
        State::CommentEnd => pos >= 4 && buf.len() >= 2 && buf[0] == 60 && buf[1] == 33,
        State::Doctype => pos >= 9 && buf.len() >= 9 && buf[0] == 60 && buf[1] == 33 && lower_seq(
            buf.subrange(2, 9),
        ) == doctype_keyword(),
        State::BogusComment => pos >= 2 && buf.len() >= 2 && buf[0] == 60 && (buf[1] == 33 || buf[1]
            == 47 || buf[1] == 63),
        State::CdataBody => pos >= 9 && buf.len() >= 9 && buf.subrange(0, 9) == cdata_marker(),
        State::CdataBracket => pos >= 10 && buf.len() >= 10 && buf.subrange(0, 9) == cdata_marker()
            && buf[pos - 1] == 93,
        State::CdataEnd => pos >= 11 && buf.len() >= 11 && buf.subrange(0, 9) == cdata_marker()
            && buf[pos - 1] == 93 && buf[pos - 2] == 93,
    }
}

fn is_ws(b: u8) -> (r: bool)
    ensures
        r == (b == 32 || b == 9 || b == 10 || b == 13 || b == 12),
{
    b == 32 || b == 9 || b == 10 || b == 13 || b == 12
}

fn is_alpha(b: u8) -> (r: bool)
    ensures
        r == crate::text::is_ascii_alpha(b),
{
    (65 <= b && b <= 90) || (97 <= b && b <= 122)
}

/// Compares `pat` against the buffer contents at `pos`: reports a match, a
/// mismatch, or that the buffer ends before the comparison can finish.
fn match_keyword(buf: &Vec<u8>, pos: usize, pat: &Vec<u8>, ignore_case: bool) -> (r: SeqMatch)
    requires
        pos <= buf@.len(),
    ensures
        r is Matched ==> pos + pat@.len() <= buf@.len(),
        r is Matched ==> forall|k: int|
            0 <= k < pat@.len() ==> (if ignore_case {
                to_lower(#[trigger] buf@[pos + k]) == to_lower(pat@[k])
            } else {
                buf@[pos + k] == pat@[k]
            }),
        r is NeedMore ==> buf@.len() < pos + pat@.len(),
{
    let mut j: usize = 0;
    while j < pat.len()
        invariant
            j <= pat@.len(),
            pos + j <= buf@.len(),
            forall|k: int|
                0 <= k < j ==> (if ignore_case {
                    to_lower(#[trigger] buf@[pos + k]) == to_lower(pat@[k])
                } else {
                    buf@[pos + k] == pat@[k]
                }),
        decreases pat@.len() - j,
    {
        if buf.len() - pos == j {
            return SeqMatch::NeedMore;
        }
        let a = buf[pos + j];
        let b = pat[j];
        let av: u8 = if ignore_case && 65 <= a && a <= 90 {
            a + 32
        } else {
            a
        };
        let bv: u8 = if ignore_case && 65 <= b && b <= 90 {
            b + 32
        } else {
            b
        };
        if av != bv {
            return SeqMatch::Mismatch;
        }
        j = j + 1;
    }
    SeqMatch::Matched
}

proof fn lemma_doctype_match(buf: Seq<u8>, pat: Seq<u8>)
    requires
        pat =~= seq![68u8, 79u8, 67u8, 84u8, 89u8, 80u8, 69u8],
        buf.len() >= 9,
        forall|k: int| 0 <= k < pat.len() ==> to_lower(#[trigger] buf[2 + k]) == to_lower(pat[k]),
    ensures
        lower_seq(buf.subrange(2, 9)) == doctype_keyword(),
{
    assert forall|k: int| 0 <= k < 7 implies lower_seq(buf.subrange(2, 9))[k]
        == doctype_keyword()[k] by {
        assert(to_lower(buf[2 + k]) == to_lower(pat[k]));
        assert(buf.subrange(2, 9)[k] == buf[2 + k]);
    }
    assert(lower_seq(buf.subrange(2, 9)) =~= doctype_keyword());
}

proof fn lemma_cdata_match(buf: Seq<u8>, pat: Seq<u8>)
    requires
        pat =~= seq![91u8, 67u8, 68u8, 65u8, 84u8, 65u8, 91u8],
        buf.len() >= 9,
        buf[0] == 60,
        buf[1] == 33,
        forall|k: int| 0 <= k < pat.len() ==> #[trigger] buf[2 + k] == pat[k],
    ensures
        buf.subrange(0, 9) == cdata_marker(),
{
    assert forall|k: int| 0 <= k < 9 implies buf.subrange(0, 9)[k] == cdata_marker()[k] by {
        if k >= 2 {
            assert(buf[2 + (k - 2)] == pat[k - 2]);
        }
    }
    assert(buf.subrange(0, 9) =~= cdata_marker());
}

/// The tokenizer: a finite-state machine over byte positions in a rolling
/// buffer. The buffer holds exactly the bytes of the in-flight lexical unit
/// (plus any not-yet-scanned tail of the current chunk while a call is in
/// progress); everything recognized earlier has been handed out as units.
pub struct Tokenizer {
    buf: Vec<u8>,
    pos: usize,
    state: State,
    is_end_tag: bool,
    name: Span,
    attrs: Vec<AttrSpans>,
    cur: AttrSpans,
    self_closing: bool,
    capacity: usize,
    failed: bool,
    fed: Ghost<Seq<u8>>,
    drained: Ghost<Seq<u8>>,
}

impl Tokenizer {
    /// Every byte ever accepted by `feed`.
    pub closed spec fn fed_view(&self) -> Seq<u8> {
        self.fed@
    }

    /// The concatenation of the raw bytes of every unit emitted so far.
    pub closed spec fn drained_view(&self) -> Seq<u8> {
        self.drained@
    }

    /// The bytes of the in-flight lexical unit retained across calls.
    pub closed spec fn buffered(&self) -> Seq<u8> {
        self.buf@
    }

    pub closed spec fn capacity_view(&self) -> usize {
        self.capacity
    }

    pub closed spec fn has_failed(&self) -> bool {
        self.failed
    }

    /// Between calls the machine is parked consistently: the in-flight bytes
    /// carry the facts the current state claims of them, and a park in the
    /// text state always has an empty buffer (pending text is flushed).
    pub closed spec fn parked_ok(&self) -> bool {
        &&& sketch_ok(self.state, self.buf@, self.pos as int, self.is_end_tag, self.name)
        &&& (self.state == State::Data ==> self.pos == 0 && self.buf@.len() == 0)
    }

    /// Internal consistency: no byte is lost — what was emitted plus what is
    /// buffered is exactly what was fed — and all in-flight part ranges lie
    /// within the scanned prefix of the buffer.
    pub closed spec fn wf(&self) -> bool {
        &&& self.pos <= self.buf@.len()
        &&& self.drained@ + self.buf@ == self.fed@
        &&& self.name.wf(self.pos as int)
        &&& self.cur.wf(self.pos as int)
        &&& forall|i: int|
            0 <= i < self.attrs@.len() ==> (#[trigger] self.attrs@[i]).wf(self.pos as int)
    }

    /// What was emitted plus what is buffered is exactly what was fed.
    pub proof fn lemma_accounting(&self)
        requires
            self.wf(),
        ensures
            self.drained_view() + self.buffered() == self.fed_view(),
    {
    }

    /// A fresh tokenizer with the given in-flight capacity bound.
    pub fn new(capacity: usize) -> (r: Tokenizer)
        ensures
            r.wf(),
            r.parked_ok(),
            !r.has_failed(),
            r.fed_view() == Seq::<u8>::empty(),
            r.drained_view() == Seq::<u8>::empty(),
            r.buffered() == Seq::<u8>::empty(),
            r.capacity_view() == capacity,
    {
        Tokenizer {
            buf: Vec::new(),
            pos: 0,
            state: State::Data,
            is_end_tag: false,
            name: Span { start: 0, end: 0 },
            attrs: Vec::new(),
            cur: AttrSpans { name: Span { start: 0, end: 0 }, value: Span { start: 0, end: 0 } },
            self_closing: false,
            capacity,
            failed: false,
            fed: Ghost(Seq::empty()),
            drained: Ghost(Seq::empty()),
        }
    }

    /// Detaches the first `end` buffered bytes as a completed unit with the
    /// given shape, and rewinds the machine to the start of the next unit.
    fn take_unit(&mut self, end: usize, shape: TokenShape) -> (u: LexUnit)
        requires
            old(self).wf(),
            end <= old(self).buf@.len(),
            shape_wf(&shape, end as int),
        ensures
            final(self).wf(),
            u.wf(),
            u.raw@ == old(self).buf@.subrange(0, end as int),
            u.shape == shape,
            final(self).buf@ == old(self).buf@.subrange(end as int, old(self).buf@.len() as int),
            final(self).pos == 0,
            final(self).state == State::Data,
            sketch_ok(State::Data, final(self).buf@, 0, final(self).is_end_tag, final(self).name),
            final(self).fed@ == old(self).fed@,
            final(self).drained@ == old(self).drained@ + u.raw@,
            final(self).capacity == old(self).capacity,
            final(self).failed == old(self).failed,
    {
        let raw = copy_range(self.buf.as_slice(), 0, end);
        let rest = copy_range(self.buf.as_slice(), end, self.buf.len());
        self.buf = rest;
        self.pos = 0;
        self.state = State::Data;
        self.name = Span { start: 0, end: 0 };
        self.cur = AttrSpans { name: Span { start: 0, end: 0 }, value: Span { start: 0, end: 0 } };
        self.attrs = Vec::new();
        proof {
            assert(old(self).buf@.subrange(0, end as int) + old(self).buf@.subrange(
                end as int,
                old(self).buf@.len() as int,
            ) =~= old(self).buf@);
        }
        self.drained = Ghost(self.drained@ + raw@);
        proof {
            assert((old(self).drained@ + raw@) + rest@ =~= old(self).drained@ + (raw@ + rest@));
            assert(self.drained@ + self.buf@ == self.fed@);
            assert(self.buf@.subrange(0, 0) =~= Seq::<u8>::empty());
        }
        LexUnit { raw, shape }
    }

    /// Consumes one chunk of input: appends it to the rolling buffer, runs
    /// the state machine as far as the available bytes allow, and returns the
    /// lexical units completed along the way, in document order. Text pending
    /// at the end of the chunk is flushed as a unit of its own, so only an
    /// unclosed non-text construct is retained; if that in-flight construct
    /// (or any single completed non-text unit) grows past the capacity bound,
    /// the pipeline fails with `CapacityExceeded`.
    #[verifier::rlimit(100)]
    pub fn feed(&mut self, chunk: &[u8]) -> (r: Result<Vec<LexUnit>, RewritingError>)
        requires
            old(self).wf(),
            old(self).parked_ok(),
            !old(self).has_failed(),
        ensures
            match r {
                Ok(units) => {
                    &&& final(self).wf()
                    &&& final(self).parked_ok()
                    &&& !final(self).has_failed()
                    &&& final(self).fed_view() == old(self).fed_view() + chunk@
                    &&& final(self).drained_view() == old(self).drained_view() + raws(units@)
                    &&& final(self).drained_view() + final(self).buffered()
                        == final(self).fed_view()
                    &&& final(self).buffered().len() <= final(self).capacity_view()
                    &&& final(self).capacity_view() == old(self).capacity_view()
                    &&& forall|i: int| 0 <= i < units@.len() ==> (#[trigger] units@[i]).wf()
                    &&& forall|i: int| 0 <= i < units@.len() ==> unit_ok(#[trigger] units@[i])
                    &&& forall|i: int|
                        0 <= i < units@.len() ==> ((#[trigger] units@[i]).shape is Text
                            || units@[i].raw@.len() <= final(self).capacity_view())
                },
                Err(e) => final(self).has_failed() && e == RewritingError::CapacityExceeded,
            },
    {
        let mut units: Vec<LexUnit> = Vec::new();
        crate::text::push_bytes(&mut self.buf, chunk);
        self.fed = Ghost(self.fed@ + chunk@);
        let ghost fed0 = self.fed@;
        let ghost drained0 = self.drained@;
        let ghost cap0 = self.capacity;
        proof {
            assert(self.drained@ + self.buf@ =~= (self.drained@ + old(self).buf@) + chunk@);
            assert(raws(units@) =~= Seq::<u8>::empty());
            assert(drained0 + raws(units@) =~= drained0);
            if self.state == State::Data {
                assert(self.buf@.subrange(0, self.pos as int) =~= Seq::<u8>::empty());
            }
            assert(forall|k: int|
                0 <= k < old(self).buf@.len() ==> #[trigger] self.buf@[k] == old(self).buf@[k]);
            if self.state == State::Doctype || self.state == State::CdataBody || self.state
                == State::CdataBracket || self.state == State::CdataEnd {
                assert(self.buf@.subrange(0, 9) =~= old(self).buf@.subrange(0, 9));
                assert(self.buf@.subrange(2, 9) =~= old(self).buf@.subrange(2, 9));
            }
            assert(sketch_ok(self.state, self.buf@, self.pos as int, self.is_end_tag, self.name));
        }
        loop
            invariant
                self.wf(),
                !self.failed,
                self.capacity == cap0,
                self.fed@ == fed0,
                self.drained@ == drained0 + raws(units@),
                forall|i: int|
                    0 <= i < units@.len() ==> ((#[trigger] units@[i]).wf() && unit_ok(units@[i])
                        && (units@[i].shape is Text || units@[i].raw@.len() <= cap0)),
                sketch_ok(self.state, self.buf@, self.pos as int, self.is_end_tag, self.name),
            ensures
                self.state == State::Data ==> self.pos == self.buf@.len(),
                sketch_ok(self.state, self.buf@, self.pos as int, self.is_end_tag, self.name),
                forall|i: int|
                    0 <= i < units@.len() ==> ((#[trigger] units@[i]).wf() && unit_ok(units@[i])
                        && (units@[i].shape is Text || units@[i].raw@.len() <= cap0)),
            decreases
                    3 * (self.buf@.len() - self.pos) + state_rank(self.state),
                    self.pos,
        {
            if self.pos >= self.buf.len() {
                break;
            }
            let b = self.buf[self.pos];
            match self.state {
                State::Data => {
                    if b == 60 {
                        if self.pos > 0 {
                            let ghost b0 = self.buf@;
                            let ghost p0 = self.pos as int;
                            let end = self.pos;
                            let u = self.take_unit(end, TokenShape::Text);
                            proof {
                                assert(u.raw@ == b0.subrange(0, p0));
                                assert(unit_ok(u));
                                lemma_raws_push(units@, u);
                            }
                            units.push(u);
                            proof {
                                assert(self.drained@ =~= drained0 + raws(units@));
                            }
                        } else {
                            self.state = State::TagOpen;
                            self.pos = 1;
                        }
                    } else {
                        self.pos = self.pos + 1;
                    }
                },
                State::TagOpen => {
                    if is_alpha(b) {
                        self.is_end_tag = false;
                        self.self_closing = false;
                        self.name = Span { start: self.pos, end: self.pos };
                        self.state = State::TagName;
                        self.pos = self.pos + 1;
                    } else if b == 47 {
                        self.state = State::EndTagOpen;
                        self.pos = self.pos + 1;
                    } else if b == 33 {
                        self.state = State::MarkupDeclaration;
                        self.pos = self.pos + 1;
                    } else if b == 63 {
                        self.state = State::BogusComment;
                        self.pos = self.pos + 1;
                    } else {
                        // recovery: the `<` was literal text
                        self.state = State::Data;
                    }
                },
                State::EndTagOpen => {
                    if is_alpha(b) {
                        self.is_end_tag = true;
                        self.self_closing = false;
                        self.name = Span { start: self.pos, end: self.pos };
                        self.state = State::TagName;
                        self.pos = self.pos + 1;
                    } else {
                        self.state = State::BogusComment;
                    }
                },
                State::TagName => {
                    if is_ws(b) {
                        self.name.end = self.pos;
                        self.state = State::BeforeAttrName;
                        self.pos = self.pos + 1;
                    } else if b == 47 {
                        self.name.end = self.pos;
                        self.state = State::SelfClosingStartTag;
                        self.pos = self.pos + 1;
                    } else if b == 62 {
                        self.name.end = self.pos;
                        match self.emit_tag(&mut units) {
                            Ok(()) => {
                                proof {
                                    assert(self.drained@ =~= drained0 + raws(units@));
                                }
                            },
                            Err(e) => {
                                return Err(e);
                            },
                        }
                    } else {
                        self.pos = self.pos + 1;
                    }
                },
                State::BeforeAttrName => {
                    if is_ws(b) {
                        self.pos = self.pos + 1;
                    } else if b == 47 {
                        self.state = State::SelfClosingStartTag;
                        self.pos = self.pos + 1;
                    } else if b == 62 {
                        match self.emit_tag(&mut units) {
                            Ok(()) => {
                                proof {
                                    assert(self.drained@ =~= drained0 + raws(units@));
                                }
                            },
                            Err(e) => {
                                return Err(e);
                            },
                        }
                    } else {
                        self.cur = AttrSpans {
                            name: Span { start: self.pos, end: self.pos },
                            value: Span { start: self.pos, end: self.pos },
                        };
                        self.state = State::AttrName;
                        self.pos = self.pos + 1;
                    }
                },
                State::AttrName => {
                    if is_ws(b) {
                        self.cur.name.end = self.pos;
                        self.state = State::AfterAttrName;
                        self.pos = self.pos + 1;
                    } else if b == 61 {
                        self.cur.name.end = self.pos;
                        self.state = State::BeforeAttrValue;
                        self.pos = self.pos + 1;
                    } else if b == 47 {
                        self.cur.name.end = self.pos;
                        self.finish_attr();
                        self.state = State::SelfClosingStartTag;
                        self.pos = self.pos + 1;
                    } else if b == 62 {
                        self.cur.name.end = self.pos;
                        self.finish_attr();
                        match self.emit_tag(&mut units) {
                            Ok(()) => {
                                proof {
                                    assert(self.drained@ =~= drained0 + raws(units@));
                                }
                            },
                            Err(e) => {
                                return Err(e);
                            },
                        }
                    } else {
                        self.pos = self.pos + 1;
                    }
                },
                State::AfterAttrName => {
                    if is_ws(b) {
                        self.pos = self.pos + 1;
                    } else if b == 61 {
                        self.state = State::BeforeAttrValue;
                        self.pos = self.pos + 1;
                    } else if b == 47 {
                        self.finish_attr();
                        self.state = State::SelfClosingStartTag;
                        self.pos = self.pos + 1;
                    } else if b == 62 {
                        self.finish_attr();
                        match self.emit_tag(&mut units) {
                            Ok(()) => {
                                proof {
                                    assert(self.drained@ =~= drained0 + raws(units@));
                                }
                            },
                            Err(e) => {
                                return Err(e);
                            },
                        }
                    } else {
                        self.finish_attr();
                        self.cur = AttrSpans {
                            name: Span { start: self.pos, end: self.pos },
                            value: Span { start: self.pos, end: self.pos },
                        };
                        self.state = State::AttrName;
                        self.pos = self.pos + 1;
                    }
                },
                State::BeforeAttrValue => {
                    if is_ws(b) {
                        self.pos = self.pos + 1;
                    } else if b == 34 {
                        self.cur.value = Span { start: self.pos + 1, end: self.pos + 1 };
                        self.state = State::AttrValueDq;
                        self.pos = self.pos + 1;
                    } else if b == 39 {
                        self.cur.value = Span { start: self.pos + 1, end: self.pos + 1 };
                        self.state = State::AttrValueSq;
                        self.pos = self.pos + 1;
                    } else if b == 62 {
                        self.finish_attr();
                        match self.emit_tag(&mut units) {
                            Ok(()) => {
                                proof {
                                    assert(self.drained@ =~= drained0 + raws(units@));
                                }
                            },
                            Err(e) => {
                                return Err(e);
                            },
                        }
                    } else {
                        self.cur.value = Span { start: self.pos, end: self.pos };
                        self.state = State::AttrValueUnq;
                        self.pos = self.pos + 1;
                    }
                },
                State::AttrValueDq => {
                    if b == 34 {
                        self.cur.value.end = self.pos;
                        self.finish_attr();
                        self.state = State::AfterAttrValueQuoted;
                        self.pos = self.pos + 1;
                    } else {
                        self.pos = self.pos + 1;
                    }
                },
                State::AttrValueSq => {
                    if b == 39 {
                        self.cur.value.end = self.pos;
                        self.finish_attr();
                        self.state = State::AfterAttrValueQuoted;
                        self.pos = self.pos + 1;
                    } else {
                        self.pos = self.pos + 1;
                    }
                },
                State::AttrValueUnq => {
                    if is_ws(b) {
                        self.cur.value.end = self.pos;
                        self.finish_attr();
                        self.state = State::BeforeAttrName;
                        self.pos = self.pos + 1;
                    } else if b == 62 {
                        self.cur.value.end = self.pos;
                        self.finish_attr();
                        match self.emit_tag(&mut units) {
                            Ok(()) => {
                                proof {
                                    assert(self.drained@ =~= drained0 + raws(units@));
                                }
                            },
                            Err(e) => {
                                return Err(e);
                            },
                        }
                    } else {
                        self.pos = self.pos + 1;
                    }
                },
                State::AfterAttrValueQuoted => {
                    if is_ws(b) {
                        self.state = State::BeforeAttrName;
                        self.pos = self.pos + 1;
                    } else if b == 47 {
                        self.state = State::SelfClosingStartTag;
                        self.pos = self.pos + 1;
                    } else if b == 62 {
                        match self.emit_tag(&mut units) {
                            Ok(()) => {
                                proof {
                                    assert(self.drained@ =~= drained0 + raws(units@));
                                }
                            },
                            Err(e) => {
                                return Err(e);
                            },
                        }
                    } else {
                        self.state = State::BeforeAttrName;
                    }
                },
                State::SelfClosingStartTag => {
                    if b == 62 {
                        self.self_closing = true;
                        match self.emit_tag(&mut units) {
                            Ok(()) => {
                                proof {
                                    assert(self.drained@ =~= drained0 + raws(units@));
                                }
                            },
                            Err(e) => {
                                return Err(e);
                            },
                        }
                    } else {
                        self.state = State::BeforeAttrName;
                    }
                },
                State::MarkupDeclaration => {
                    match self.step_markup_decl(b) {
                        MetaStep::Advanced => (),
                        MetaStep::Park => {
                            break;
                        },
                    }
                },
                State::CommentBody => {
                    if b == 45 {
                        self.state = State::CommentEndDash;
                    }
                    self.pos = self.pos + 1;
                },
                State::CommentEndDash => {
                    if b == 45 {
                        self.state = State::CommentEnd;
                    } else {
                        self.state = State::CommentBody;
                    }
                    self.pos = self.pos + 1;
                },
                State::CommentEnd => {
                    if b == 62 {
                        match self.emit_simple(&mut units) {
                            Ok(()) => {
                                proof {
                                    assert(self.drained@ =~= drained0 + raws(units@));
                                }
                            },
                            Err(e) => {
                                return Err(e);
                            },
                        }
                    } else if b == 45 {
                        self.pos = self.pos + 1;
                    } else {
                        self.state = State::CommentBody;
                        self.pos = self.pos + 1;
                    }
                },
                State::Doctype => {
                    if b == 62 {
                        match self.emit_simple(&mut units) {
                            Ok(()) => {
                                proof {
                                    assert(self.drained@ =~= drained0 + raws(units@));
                                }
                            },
                            Err(e) => {
                                return Err(e);
                            },
                        }
                    } else {
                        self.pos = self.pos + 1;
                    }
                },
                State::BogusComment => {
                    if b == 62 {
                        match self.emit_simple(&mut units) {
                            Ok(()) => {
                                proof {
                                    assert(self.drained@ =~= drained0 + raws(units@));
                                }
                            },
                            Err(e) => {
                                return Err(e);
                            },
                        }
                    } else {
                        self.pos = self.pos + 1;
                    }
                },
                State::CdataBody => {
                    if b == 93 {
                        self.state = State::CdataBracket;
                    }
                    self.pos = self.pos + 1;
                },
                State::CdataBracket => {
                    if b == 93 {
                        self.state = State::CdataEnd;
                    } else {
                        self.state = State::CdataBody;
                    }
                    self.pos = self.pos + 1;
                },
                State::CdataEnd => {
                    if b == 62 {
                        match self.emit_simple(&mut units) {
                            Ok(()) => {
                                proof {
                                    assert(self.drained@ =~= drained0 + raws(units@));
                                }
                            },
                            Err(e) => {
                                return Err(e);
                            },
                        }
                    } else if b == 93 {
                        self.pos = self.pos + 1;
                    } else {
                        self.state = State::CdataBody;
                        self.pos = self.pos + 1;
                    }
                },
            }
        }
        // Parked. A pending text run is flushed as a unit so that text never
        // counts against the in-flight capacity.
        if self.state == State::Data && self.buf.len() > 0 {
            let ghost b0 = self.buf@;
            let end = self.buf.len();
            let u = self.take_unit(end, TokenShape::Text);
            proof {
                assert(u.raw@ == b0.subrange(0, b0.len() as int));
                assert(b0.subrange(0, b0.len() as int) =~= b0);
                assert(unit_ok(u));
                lemma_raws_push(units@, u);
            }
            units.push(u);
            proof {
                assert(self.drained@ =~= drained0 + raws(units@));
            }
        }
        if self.buf.len() > self.capacity {
            self.failed = true;
            return Err(RewritingError::CapacityExceeded);
        }
        Ok(units)
    }

    /// Closes the attribute under construction and adds it to the in-flight
    /// tag's attribute list.
    fn finish_attr(&mut self)
        requires
            old(self).wf(),
        ensures
            final(self).wf(),
            *final(self) == (Tokenizer { attrs: final(self).attrs, ..*old(self) }),
            final(self).attrs@ == old(self).attrs@.push(old(self).cur),
    {
        let c = self.cur;
        self.attrs.push(c);
    }

    /// Emits the in-flight tag: its unit ends just past the current byte
    /// (the closing `>`).
    fn emit_tag(&mut self, units: &mut Vec<LexUnit>) -> (r: Result<(), RewritingError>)
        requires
            old(self).wf(),
            old(self).pos < old(self).buf@.len(),
            !old(self).failed,
            old(self).buf@[old(self).pos as int] == 62,
            tag_head_ok(old(self).buf@, old(self).is_end_tag, old(self).name),
            old(self).name.start < old(self).name.end <= old(self).pos,
            forall|k: int|
                old(self).name.start <= k < old(self).name.end ==> !is_name_delim(
                    #[trigger] old(self).buf@[k],
                ),
            is_name_delim(old(self).buf@[old(self).name.end as int]),
        ensures
            match r {
                Ok(()) => {
                    &&& final(self).wf()
                    &&& !final(self).failed
                    &&& final(self).fed@ == old(self).fed@
                    &&& final(self).capacity == old(self).capacity
                    &&& final(self).state == State::Data
                    &&& final(self).pos == 0
                    &&& final(self).buf@.len() == old(self).buf@.len() - old(self).pos - 1
                    &&& final(self).drained@ == old(self).drained@ + final(units)@.last().raw@
                    &&& raws(final(units)@) == raws(old(units)@) + final(units)@.last().raw@
                    &&& final(units)@ == old(units)@.push(final(units)@.last())
                    &&& final(units)@.last().wf()
                    &&& unit_ok(final(units)@.last())
                    &&& final(units)@.last().raw@.len() <= old(self).capacity
                    &&& sketch_ok(
                        final(self).state,
                        final(self).buf@,
                        final(self).pos as int,
                        final(self).is_end_tag,
                        final(self).name,
                    )
                },
                Err(e) => final(self).failed && e == RewritingError::CapacityExceeded,
            },
    {
        let blen = self.buf.len();
        let end = self.pos + 1;
        proof {
            assert(end <= blen);
        }
        let mut attrs_out: Vec<AttrSpans> = Vec::new();
        core::mem::swap(&mut attrs_out, &mut self.attrs);
        let shape = if self.is_end_tag {
            TokenShape::EndTag { name: self.name }
        } else {
            TokenShape::StartTag {
                name: self.name,
                attrs: attrs_out,
                self_closing: self.self_closing,
            }
        };
        let u = self.take_unit(end, shape);
        proof {
            assert(u.raw@.len() == end as int);
            assert(forall|k: int| 0 <= k < end ==> #[trigger] u.raw@[k] == old(self).buf@[k]);
            assert(u.raw@[end - 1] == 62);
            assert(unit_ok(u));
        }
        if u.raw.len() > self.capacity {
            self.failed = true;
            return Err(RewritingError::CapacityExceeded);
        }
        proof {
            lemma_raws_push(units@, u);
        }
        units.push(u);
        Ok(())
    }

    /// One byte in the markup-declaration state: picks the comment, doctype,
    /// CDATA or bogus-comment continuation, or parks when the distinguishing
    /// keyword is cut off by the chunk boundary.
    fn step_markup_decl(&mut self, b: u8) -> (r: MetaStep)
        requires
            old(self).wf(),
            !old(self).failed,
            old(self).state == State::MarkupDeclaration,
            old(self).pos < old(self).buf@.len(),
            b == old(self).buf@[old(self).pos as int],
            sketch_ok(
                old(self).state,
                old(self).buf@,
                old(self).pos as int,
                old(self).is_end_tag,
                old(self).name,
            ),
        ensures
            final(self).wf(),
            !final(self).failed,
            final(self).buf == old(self).buf,
            final(self).fed == old(self).fed,
            final(self).drained == old(self).drained,
            final(self).capacity == old(self).capacity,
            final(self).name == old(self).name,
            final(self).is_end_tag == old(self).is_end_tag,
            sketch_ok(
                final(self).state,
                final(self).buf@,
                final(self).pos as int,
                final(self).is_end_tag,
                final(self).name,
            ),
            match r {
                MetaStep::Advanced => 3 * (final(self).buf@.len() - final(self).pos) + state_rank(
                    final(self).state,
                ) < 3 * (old(self).buf@.len() - old(self).pos) + state_rank(old(self).state),
                MetaStep::Park => *final(self) == *old(self),
            },
    {
        if b == 45 {
            if self.buf.len() - self.pos < 2 {
                return MetaStep::Park;
            }
            if self.buf[self.pos + 1] == 45 {
                self.state = State::CommentBody;
                self.pos = self.pos + 2;
            } else {
                self.state = State::BogusComment;
            }
            MetaStep::Advanced
        } else if b == 68 || b == 100 {
            let pat: Vec<u8> = vec![68, 79, 67, 84, 89, 80, 69];
            match match_keyword(&self.buf, self.pos, &pat, true) {
                SeqMatch::Matched => {
                    self.state = State::Doctype;
                    self.pos = self.pos + 7;
                    proof {
                        assert(self.pos <= self.buf@.len());
                        lemma_doctype_match(self.buf@, pat@);
                    }
                    MetaStep::Advanced
                },
                SeqMatch::Mismatch => {
                    self.state = State::BogusComment;
                    MetaStep::Advanced
                },
                SeqMatch::NeedMore => MetaStep::Park,
            }
        } else if b == 91 {
            let pat: Vec<u8> = vec![91, 67, 68, 65, 84, 65, 91];
            match match_keyword(&self.buf, self.pos, &pat, false) {
                SeqMatch::Matched => {
                    self.state = State::CdataBody;
                    self.pos = self.pos + 7;
                    proof {
                        lemma_cdata_match(self.buf@, pat@);
                    }
                    MetaStep::Advanced
                },
                SeqMatch::Mismatch => {
                    self.state = State::BogusComment;
                    MetaStep::Advanced
                },
                SeqMatch::NeedMore => MetaStep::Park,
            }
        } else {
            self.state = State::BogusComment;
            MetaStep::Advanced
        }
    }

    /// Emits the in-flight comment, doctype or CDATA section: its unit ends
    /// just past the current byte (the closing `>`).
    fn emit_simple(&mut self, units: &mut Vec<LexUnit>) -> (r: Result<(), RewritingError>)
        requires
            old(self).wf(),
            old(self).pos < old(self).buf@.len(),
            !old(self).failed,
            old(self).buf@[old(self).pos as int] == 62,
            old(self).state == State::CommentEnd || old(self).state == State::BogusComment || old(
                self,
            ).state == State::Doctype || old(self).state == State::CdataEnd,
            sketch_ok(
                old(self).state,
                old(self).buf@,
                old(self).pos as int,
                old(self).is_end_tag,
                old(self).name,
            ),
        ensures
            match r {
                Ok(()) => {
                    &&& final(self).wf()
                    &&& !final(self).failed
                    &&& final(self).fed@ == old(self).fed@
                    &&& final(self).capacity == old(self).capacity
                    &&& final(self).state == State::Data
                    &&& final(self).pos == 0
                    &&& final(self).buf@.len() == old(self).buf@.len() - old(self).pos - 1
                    &&& final(self).drained@ == old(self).drained@ + final(units)@.last().raw@
                    &&& raws(final(units)@) == raws(old(units)@) + final(units)@.last().raw@
                    &&& final(units)@ == old(units)@.push(final(units)@.last())
                    &&& final(units)@.last().wf()
                    &&& unit_ok(final(units)@.last())
                    &&& final(units)@.last().raw@.len() <= old(self).capacity
                    &&& sketch_ok(
                        final(self).state,
                        final(self).buf@,
                        final(self).pos as int,
                        final(self).is_end_tag,
                        final(self).name,
                    )
                },
                Err(e) => final(self).failed && e == RewritingError::CapacityExceeded,
            },
    {
        let ghost b0 = self.buf@;
        let ghost p0 = self.pos as int;
        let shape = if matches!(self.state, State::Doctype) {
            TokenShape::Doctype
        } else if matches!(self.state, State::CdataEnd) {
            TokenShape::Cdata
        } else {
            TokenShape::Comment
        };
        let blen = self.buf.len();
        let end = self.pos + 1;
        proof {
            assert(end <= blen);
        }
        let u = self.take_unit(end, shape);
        proof {
            assert(u.raw@.len() == p0 + 1);
            assert(forall|k: int| 0 <= k < p0 + 1 ==> #[trigger] u.raw@[k] == b0[k]);
            if old(self).state == State::CdataEnd {
                assert(u.raw@.subrange(0, 9) =~= b0.subrange(0, 9));
            }
            if old(self).state == State::Doctype {
                assert(u.raw@.subrange(2, 9) =~= b0.subrange(2, 9));
            }
            assert(unit_ok(u));
        }
        if u.raw.len() > self.capacity {
            self.failed = true;
            return Err(RewritingError::CapacityExceeded);
        }
        proof {
            lemma_raws_push(units@, u);
        }
        units.push(u);
        Ok(())
    }

    /// Signals end of input: whatever construct is still in flight is flushed
    /// as literal text, per the abrupt-end policy, and the buffer empties.
    pub fn finish(&mut self) -> (units: Vec<LexUnit>)
        requires
            old(self).wf(),
            old(self).parked_ok(),
            !old(self).has_failed(),
        ensures
            final(self).wf(),
            final(self).parked_ok(),
            !final(self).has_failed(),
            final(self).fed_view() == old(self).fed_view(),
            final(self).buffered().len() == 0,
            final(self).drained_view() == old(self).drained_view() + raws(units@),
            final(self).drained_view() == final(self).fed_view(),
            final(self).capacity_view() == old(self).capacity_view(),
            forall|i: int| 0 <= i < units@.len() ==> (#[trigger] units@[i]).wf(),
            forall|i: int| 0 <= i < units@.len() ==> (#[trigger] units@[i]).shape is Text,
    {
        let mut units: Vec<LexUnit> = Vec::new();
        if self.buf.len() > 0 {
            let end = self.buf.len();
            let u = self.take_unit(end, TokenShape::Text);
            proof {
                lemma_raws_push(units@, u);
            }
            units.push(u);
        }
        proof {
            assert(self.drained@ + self.buf@ == self.fed@);
            assert(self.buf@ =~= Seq::<u8>::empty());
            assert(self.drained@ + Seq::<u8>::empty() =~= self.drained@);
        }
        units
    }
}

} // verus!
