use vstd::prelude::*;
use crate::errors::RewritingError;
use crate::tokenizer::Tokenizer;
use crate::units::{Span, AttrSpans, TokenShape, LexUnit, raws, rraws, unit_ok, start_tag_unit_ok};
use crate::rewritable::{StartTag, EndTag, EndTagAction, Attribute, serialize_start_tag, serialize_end_tag};
use crate::element::Element;
use crate::mutations::Mutations;
use crate::encoding::DocumentEncoding;
use crate::text::{push_bytes, copy_range, lower_bytes, bytes_eq};

verus! {

/// The standard HTML void elements: they never have an end tag, so nothing
/// can be anchored inside them.
pub open spec fn spec_is_void(s: Seq<u8>) -> bool {
    ||| (s.len() == 2 && s[0] == 98 && s[1] == 114)  // br
    ||| (s.len() == 2 && s[0] == 104 && s[1] == 114)  // hr
    ||| (s.len() == 3 && s[0] == 99 && s[1] == 111 && s[2] == 108)  // col
    ||| (s.len() == 3 && s[0] == 105 && s[1] == 109 && s[2] == 103)  // img
    ||| (s.len() == 3 && s[0] == 119 && s[1] == 98 && s[2] == 114)  // wbr
    ||| (s.len() == 4 && s[0] == 97 && s[1] == 114 && s[2] == 101 && s[3] == 97)  // area
    ||| (s.len() == 4 && s[0] == 98 && s[1] == 97 && s[2] == 115 && s[3] == 101)  // base
    ||| (s.len() == 4 && s[0] == 108 && s[1] == 105 && s[2] == 110 && s[3] == 107)  // link
    ||| (s.len() == 4 && s[0] == 109 && s[1] == 101 && s[2] == 116 && s[3] == 97)  // meta
    ||| (s.len() == 5 && s[0] == 101 && s[1] == 109 && s[2] == 98 && s[3] == 101 && s[4] == 100)  // embed
    ||| (s.len() == 5 && s[0] == 105 && s[1] == 110 && s[2] == 112 && s[3] == 117 && s[4] == 116)  // input
    ||| (s.len() == 5 && s[0] == 112 && s[1] == 97 && s[2] == 114 && s[3] == 97 && s[4] == 109)  // param
    ||| (s.len() == 5 && s[0] == 116 && s[1] == 114 && s[2] == 97 && s[3] == 99 && s[4] == 107)  // track
    ||| (s.len() == 6 && s[0] == 115 && s[1] == 111 && s[2] == 117 && s[3] == 114 && s[4] == 99
        && s[5] == 101)  // source
}

/// Whether a lowercased tag name belongs to the void-element set.
pub fn is_void_name(name: &[u8]) -> (r: bool)
    ensures
        r == spec_is_void(name@),
{
    if name.len() == 2 {
        (name[0] == 98 && name[1] == 114) || (name[0] == 104 && name[1] == 114)
    } else if name.len() == 3 {
        (name[0] == 99 && name[1] == 111 && name[2] == 108) || (name[0] == 105 && name[1] == 109
            && name[2] == 103) || (name[0] == 119 && name[1] == 98 && name[2] == 114)
    } else if name.len() == 4 {
        (name[0] == 97 && name[1] == 114 && name[2] == 101 && name[3] == 97) || (name[0] == 98
            && name[1] == 97 && name[2] == 115 && name[3] == 101) || (name[0] == 108 && name[1]
            == 105 && name[2] == 110 && name[3] == 107) || (name[0] == 109 && name[1] == 101
            && name[2] == 116 && name[3] == 97)
    } else if name.len() == 5 {
        (name[0] == 101 && name[1] == 109 && name[2] == 98 && name[3] == 101 && name[4] == 100) || (
        name[0] == 105 && name[1] == 110 && name[2] == 112 && name[3] == 117 && name[4] == 116) || (
        name[0] == 112 && name[1] == 97 && name[2] == 114 && name[3] == 97 && name[4] == 109) || (
        name[0] == 116 && name[1] == 114 && name[2] == 97 && name[3] == 99 && name[4] == 107)
    } else if name.len() == 6 {
        name[0] == 115 && name[1] == 111 && name[2] == 117 && name[3] == 114 && name[4] == 99
            && name[5] == 101
    } else {
        false
    }
}

/// What every element handed out by the pipeline satisfies: it is untouched,
/// its start tag is a recognized start-tag unit with the name span pinned to
/// the name run, and it can have content exactly when the tag is neither
/// self-closing nor a void element.
pub open spec fn element_from_input(el: Element) -> bool {
    &&& el.pristine()
    &&& el.wf()
    &&& start_tag_unit_ok(el.start_tag.raw@, el.start_tag.name_span)
    &&& el.can_have_content == (!el.start_tag.self_closing && !spec_is_void(
        crate::text::lower_seq(
            el.start_tag.raw@.subrange(
                el.start_tag.name_span.start as int,
                el.start_tag.name_span.end as int,
            ),
        ),
    ))
}

/// One open element awaiting its end tag: the lowercased name it was opened
/// under, the deferred end-tag action, if any, and whether everything inside
/// it is to be suppressed.
pub struct OpenEntry {
    pub name_lower: Vec<u8>,
    pub action: Option<EndTagAction>,
    pub remove_content: bool,
}

pub open spec fn entry_wf(e: OpenEntry) -> bool {
    match e.action {
        Some(a) => match a.set_name_to {
            Some(n) => n@.len() <= 0x1000_0000,
            None => true,
        },
        None => true,
    }
}

pub open spec fn entry_inert(e: OpenEntry) -> bool {
    e.action is None && !e.remove_content
}

/// How many open entries suppress their content.
pub open spec fn removed_count(s: Seq<OpenEntry>) -> int
    decreases s.len(),
{
    if s.len() == 0 {
        0
    } else {
        removed_count(s.drop_last()) + (if s.last().remove_content {
            1int
        } else {
            0int
        })
    }
}

proof fn lemma_removed_count_bounds(s: Seq<OpenEntry>)
    ensures
        0 <= removed_count(s) <= s.len(),
    decreases s.len(),
{
    if s.len() > 0 {
        lemma_removed_count_bounds(s.drop_last());
    }
}

/// The rewriting pipeline: the tokenizer, the output buffer, and the stack of
/// open elements carrying deferred end-tag actions. The caller drives it:
/// `feed` and `finish` hand back each recognized element in document order;
/// the caller mutates it (or not) and passes it to `resume`.
pub struct Rewriter {
    tok: Tokenizer,
    encoding: DocumentEncoding,
    output: Vec<u8>,
    queue: Vec<LexUnit>,
    open: Vec<OpenEntry>,
    removed_depth: usize,
    paused: bool,
    finished: bool,
    failed: bool,
    pristine: Ghost<bool>,
    checked_out_raw: Ghost<Seq<u8>>,
}

impl Rewriter {
    pub closed spec fn output_view(&self) -> Seq<u8> {
        self.output@
    }

    /// Every byte fed so far.
    pub closed spec fn fed_view(&self) -> Seq<u8> {
        self.tok.fed_view()
    }

    /// True as long as no handler has changed anything: every element handed
    /// out came back untouched.
    pub closed spec fn is_pristine(&self) -> bool {
        self.pristine@
    }

    pub closed spec fn is_paused(&self) -> bool {
        self.paused
    }

    pub closed spec fn is_finished(&self) -> bool {
        self.finished
    }

    pub closed spec fn is_failed(&self) -> bool {
        self.failed
    }

    /// The raw bytes of the element currently checked out to the caller.
    pub closed spec fn checked_out_view(&self) -> Seq<u8> {
        self.checked_out_raw@
    }

    /// Everything recognized has been written out: nothing is checked out,
    /// queued or buffered.
    pub closed spec fn complete(&self) -> bool {
        !self.paused && self.queue@.len() == 0 && self.tok.buffered().len() == 0
    }

    pub closed spec fn inv_core(&self) -> bool {
        &&& self.tok.wf()
        &&& (!self.failed ==> !self.tok.has_failed())
        &&& (!self.failed ==> self.tok.parked_ok())
        &&& self.tok.capacity_view() <= 0x1000_0000
        &&& forall|i: int| 0 <= i < self.queue@.len() ==> (#[trigger] self.queue@[i]).wf()
        &&& forall|i: int|
            0 <= i < self.queue@.len() ==> ((#[trigger] self.queue@[i]).shape is Text
                || self.queue@[i].raw@.len() <= 0x1000_0000)
        &&& forall|i: int|
            0 <= i < self.queue@.len() ==> ((#[trigger] self.queue@[i]).shape is Text || unit_ok(
                self.queue@[i],
            ))
        &&& self.removed_depth == removed_count(self.open@)
        &&& removed_count(self.open@) <= self.open@.len()
        &&& forall|i: int| 0 <= i < self.open@.len() ==> entry_wf(#[trigger] self.open@[i])
        &&& (self.finished ==> self.tok.buffered().len() == 0)
        &&& (self.pristine@ && !self.failed ==> {
            &&& self.output@ + (if self.paused {
                self.checked_out_raw@
            } else {
                Seq::<u8>::empty()
            }) + rraws(self.queue@) == self.tok.drained_view()
            &&& self.removed_depth == 0
            &&& forall|i: int| 0 <= i < self.open@.len() ==> entry_inert(#[trigger] self.open@[i])
        })
    }

    /// What the tokenizer emitted plus what it buffers is what was fed.
    proof fn lemma_tok_accounting(&self)
        requires
            self.inv_core(),
        ensures
            self.tok.drained_view() + self.tok.buffered() == self.tok.fed_view(),
    {
        self.tok.lemma_accounting();
    }

    pub closed spec fn inv(&self) -> bool {
        &&& self.inv_core()
        &&& (!self.paused ==> self.queue@.len() == 0)
    }

    /// A fresh pipeline for one document, with a fixed output encoding and an
    /// in-flight capacity bound.
    pub fn new(encoding: &'static encoding_rs::Encoding, capacity: usize) -> (r: Rewriter)
        requires
            capacity <= 0x1000_0000,
        ensures
            r.inv(),
            r.is_pristine(),
            !r.is_paused(),
            !r.is_finished(),
            !r.is_failed(),
            r.output_view() == Seq::<u8>::empty(),
            r.fed_view() == Seq::<u8>::empty(),
    {
        Rewriter::with_encoding(DocumentEncoding::new(encoding), capacity)
    }

    /// As `new`, but from an encoding whose canonical name the caller knows
    /// (such as `DocumentEncoding::utf8()`), so that contracts conditioned on
    /// the name apply.
    pub fn with_encoding(encoding: DocumentEncoding, capacity: usize) -> (r: Rewriter)
        requires
            capacity <= 0x1000_0000,
        ensures
            r.inv(),
            r.is_pristine(),
            !r.is_paused(),
            !r.is_finished(),
            !r.is_failed(),
            r.output_view() == Seq::<u8>::empty(),
            r.fed_view() == Seq::<u8>::empty(),
            r.encoding_name() == encoding.name_view(),
    {
        let r = Rewriter {
            tok: Tokenizer::new(capacity),
            encoding,
            output: Vec::new(),
            queue: Vec::new(),
            open: Vec::new(),
            removed_depth: 0,
            paused: false,
            finished: false,
            failed: false,
            pristine: Ghost(true),
            checked_out_raw: Ghost(Seq::empty()),
        };
        proof {
            assert(rraws(r.queue@) =~= Seq::<u8>::empty());
            assert(r.output@ + Seq::<u8>::empty() + rraws(r.queue@) =~= r.tok.drained_view());
        }
        r
    }

    /// Feeds one chunk. Returns the next element awaiting a handler, if the
    /// chunk completed one, else `None`; while an element is out, processing
    /// is paused until `resume` hands it back.
    pub fn feed(&mut self, chunk: &[u8]) -> (r: Result<Option<Element>, RewritingError>)
        requires
            old(self).inv(),
            !old(self).is_paused(),
            !old(self).is_failed(),
            !old(self).is_finished(),
        ensures
            match r {
                Ok(opt) => {
                    &&& final(self).inv()
                    &&& !final(self).is_failed()
                    &&& !final(self).is_finished()
                    &&& old(self).output_view().is_prefix_of(final(self).output_view())
                    &&& final(self).fed_view() == old(self).fed_view() + chunk@
                    &&& final(self).encoding_name() == old(self).encoding_name()
                    &&& final(self).is_pristine() == old(self).is_pristine()
                    &&& (match opt {
                        Some(el) => final(self).is_paused() && element_from_input(el)
                            && el.start_tag.raw@ == final(self).checked_out_view()
                            && el.start_tag.encoding.name_view() == final(self).encoding_name(),
                        None => !final(self).is_paused(),
                    })
                },
                Err(e) => final(self).is_failed() && e == RewritingError::CapacityExceeded
                    && final(self).output_view() == old(self).output_view(),
            },
    {
        let units = match self.tok.feed(chunk) {
            Ok(u) => u,
            Err(e) => {
                self.failed = true;
                return Err(e);
            },
        };
        self.enqueue(units);
        proof {
            if self.pristine@ && !self.failed {
                assert(self.output@ + Seq::<u8>::empty() + rraws(self.queue@)
                    =~= self.tok.drained_view());
            }
        }
        Ok(self.dispatch())
    }

    /// The canonical name of the pipeline's output encoding.
    pub closed spec fn encoding_name(&self) -> Seq<u8> {
        self.encoding.name_view()
    }

    /// Signals end of input: flushes whatever is in flight, then continues
    /// handing out elements. Call `resume` until it returns `None`.
    pub fn finish(&mut self) -> (r: Option<Element>)
        requires
            old(self).inv(),
            !old(self).is_paused(),
            !old(self).is_failed(),
            !old(self).is_finished(),
        ensures
            final(self).inv(),
            !final(self).is_failed(),
            final(self).is_finished(),
            old(self).output_view().is_prefix_of(final(self).output_view()),
            final(self).fed_view() == old(self).fed_view(),
            final(self).encoding_name() == old(self).encoding_name(),
            final(self).is_pristine() == old(self).is_pristine(),
            match r {
                Some(el) => final(self).is_paused() && element_from_input(el)
                    && el.start_tag.raw@ == final(self).checked_out_view(),
                None => final(self).complete(),
            },
    {
        let units = self.tok.finish();
        self.finished = true;
        self.enqueue(units);
        proof {
            if self.pristine@ && !self.failed {
                assert(self.output@ + Seq::<u8>::empty() + rraws(self.queue@)
                    =~= self.tok.drained_view());
            }
        }
        self.dispatch()
    }

    /// Hands a checked-out element back: its start tag is written out with
    /// the handler's mutations applied, and the deferred end-tag action, if
    /// any, is parked on the open-element stack to run exactly once, when the
    /// matching end tag arrives. Processing then continues.
    pub fn resume(&mut self, el: Element) -> (r: Option<Element>)
        requires
            old(self).inv(),
            old(self).is_paused(),
            !old(self).is_failed(),
            el.wf(),
        ensures
            final(self).inv(),
            !final(self).is_failed(),
            final(self).fed_view() == old(self).fed_view(),
            final(self).encoding_name() == old(self).encoding_name(),
            (old(self).output_view() + el.start_tag.serialized()).is_prefix_of(
                final(self).output_view(),
            ),
            final(self).is_finished() == old(self).is_finished(),
            final(self).is_pristine() == (old(self).is_pristine() && el.pristine()
                && el.start_tag.raw@ == old(self).checked_out_view()),
            match r {
                Some(next) => final(self).is_paused() && element_from_input(next)
                    && next.start_tag.raw@ == final(self).checked_out_view(),
                None => !final(self).is_paused() && (old(self).is_finished()
                    ==> final(self).complete()),
            },
    {
        let ghost el_ok = el.pristine() && el.start_tag.raw@ == self.checked_out_raw@;
        let can = el.can_have_content;
        // The end tag in the input still carries the element's original name,
        // so the open-element entry is keyed by the raw name, rename or not.
        let nb = copy_range(
            el.start_tag.raw.as_slice(),
            el.start_tag.name_span.start,
            el.start_tag.name_span.end,
        );
        let name_low = lower_bytes(nb.as_slice());
        let (st, remove_content, action) = el.into_parts();
        proof {
            if el_ok {
                st.lemma_pristine_serialized();
            }
        }
        serialize_start_tag(&st, &mut self.output);
        if can {
            let entry = OpenEntry { name_lower: name_low, action, remove_content };
            proof {
                lemma_removed_count_push(self.open@, entry);
            }
            self.open.push(entry);
            let olen = self.open.len();
            if remove_content {
                proof {
                    lemma_removed_count_bounds(self.open@);
                    assert(removed_count(self.open@) <= olen);
                }
                self.removed_depth = self.removed_depth + 1;
            }
        }
        self.paused = false;
        proof {
            self.pristine@ = self.pristine@ && el_ok;
        }
        proof {
            if self.pristine@ && !self.failed {
                assert(self.output@ + Seq::<u8>::empty() + rraws(self.queue@) =~= self.tok.drained_view());
            }
        }
        self.dispatch()
    }

    /// The bytes written so far, consuming the pipeline.
    pub fn into_output(self) -> (r: Vec<u8>)
        ensures
            r@ == self.output_view(),
    {
        self.output
    }

    /// Pushes freshly tokenized units onto the (reversed) dispatch queue.
    fn enqueue(&mut self, units: Vec<LexUnit>)
        requires
            old(self).queue@.len() == 0,
            forall|i: int| 0 <= i < units@.len() ==> (#[trigger] units@[i]).wf(),
            forall|i: int|
                0 <= i < units@.len() ==> ((#[trigger] units@[i]).shape is Text
                    || units@[i].raw@.len() <= 0x1000_0000),
            forall|i: int|
                0 <= i < units@.len() ==> ((#[trigger] units@[i]).shape is Text || unit_ok(
                    units@[i],
                )),
        ensures
            *final(self) == (Rewriter { queue: final(self).queue, ..*old(self) }),
            rraws(final(self).queue@) == raws(units@),
            forall|k: int|
                0 <= k < final(self).queue@.len() ==> (#[trigger] final(self).queue@[k]).wf(),
            forall|k: int|
                0 <= k < final(self).queue@.len() ==> ((#[trigger] final(self).queue@[k]).shape
                    is Text || final(self).queue@[k].raw@.len() <= 0x1000_0000),
            forall|k: int|
                0 <= k < final(self).queue@.len() ==> ((#[trigger] final(self).queue@[k]).shape
                    is Text || unit_ok(final(self).queue@[k])),
    {
        let ghost units0 = units@;
        let mut units = units;
        proof {
            assert(units0.subrange(units0.len() as int, units0.len() as int)
                =~= Seq::<LexUnit>::empty());
            assert(rraws(self.queue@) =~= raws(
                units0.subrange(units0.len() as int, units0.len() as int),
            ));
            assert(units@ =~= units0.subrange(0, units@.len() as int));
        }
        while units.len() > 0
            invariant
                *self == (Rewriter { queue: self.queue, ..*old(self) }),
                units@.len() <= units0.len(),
                units@ == units0.subrange(0, units@.len() as int),
                forall|k: int| 0 <= k < units0.len() ==> (#[trigger] units0[k]).wf(),
                forall|k: int|
                    0 <= k < units0.len() ==> ((#[trigger] units0[k]).shape is Text
                        || units0[k].raw@.len() <= 0x1000_0000),
                forall|k: int|
                    0 <= k < units0.len() ==> ((#[trigger] units0[k]).shape is Text || unit_ok(
                        units0[k],
                    )),
                forall|k: int| 0 <= k < self.queue@.len() ==> (#[trigger] self.queue@[k]).wf(),
                forall|k: int|
                    0 <= k < self.queue@.len() ==> ((#[trigger] self.queue@[k]).shape is Text
                        || self.queue@[k].raw@.len() <= 0x1000_0000),
                forall|k: int|
                    0 <= k < self.queue@.len() ==> ((#[trigger] self.queue@[k]).shape is Text
                        || unit_ok(self.queue@[k])),
                rraws(self.queue@) == raws(
                    units0.subrange(units@.len() as int, units0.len() as int),
                ),
            decreases units@.len(),
        {
            let ghost before = units@;
            let ghost k = before.len() as int;
            let u = match units.pop() {
                Some(u) => u,
                None => (LexUnit { raw: Vec::new(), shape: TokenShape::Text }),
            };
            proof {
                assert(u == before.last());
                assert(before.last() == units0[k - 1]);
                assert(units@ =~= units0.subrange(0, units@.len() as int));
            }
            let ghost q0 = self.queue@;
            let ghost uv = u;
            self.queue.push(u);
            proof {
                assert(self.queue@.drop_last() =~= q0);
                assert(self.queue@.last() == uv);
                let cur = units0.subrange(k - 1, units0.len() as int);
                assert(cur[0] == units0[k - 1]);
                assert(cur.subrange(1, cur.len() as int) =~= units0.subrange(
                    k,
                    units0.len() as int,
                ));
                assert(rraws(self.queue@) == uv.raw@ + rraws(q0));
                assert(raws(cur) == cur[0].raw@ + raws(
                    units0.subrange(k, units0.len() as int),
                ));
                assert(rraws(self.queue@) =~= raws(cur));
            }
        }
        proof {
            assert(units0.subrange(0, units0.len() as int) =~= units0);
        }
    }

    /// Works through the queued units: pass-through units are written out,
    /// end tags pop and apply their deferred actions, and the next start tag
    /// outside any removed region pauses the pipeline and is handed out as an
    /// element.
    fn dispatch(&mut self) -> (r: Option<Element>)
        requires
            old(self).inv_core(),
            !old(self).paused,
            !old(self).failed,
        ensures
            final(self).inv_core(),
            final(self).tok == old(self).tok,
            final(self).encoding == old(self).encoding,
            final(self).pristine == old(self).pristine,
            final(self).finished == old(self).finished,
            old(self).output@.is_prefix_of(final(self).output@),
            !final(self).failed,
            match r {
                Some(el) => final(self).paused && element_from_input(el) && el.start_tag.raw@
                    == final(self).checked_out_raw@ && el.start_tag.encoding.name_view() == old(
                    self,
                ).encoding.name_view(),
                None => !final(self).paused && final(self).queue@.len() == 0,
            },
    {
        loop
            invariant
                self.inv_core(),
                !self.paused,
                !self.failed,
                old(self).output@.is_prefix_of(self.output@),
                self.tok == old(self).tok,
                self.encoding == old(self).encoding,
                self.pristine == old(self).pristine,
                self.finished == old(self).finished,
            decreases self.queue@.len(),
        {
            let ghost q0 = self.queue@;
            let u = match self.queue.pop() {
                None => {
                    return None;
                },
                Some(u) => u,
            };
            proof {
                assert(u == q0.last());
                assert(self.queue@ =~= q0.drop_last());
                assert(u.wf());
                assert(rraws(q0) == u.raw@ + rraws(self.queue@));
            }
            let LexUnit { raw, shape } = u;
            match shape {
                TokenShape::Text => {
                    if self.removed_depth == 0 {
                        push_bytes(&mut self.output, raw.as_slice());
                    }
                },
                TokenShape::Comment => {
                    if self.removed_depth == 0 {
                        push_bytes(&mut self.output, raw.as_slice());
                    }
                },
                TokenShape::Doctype => {
                    if self.removed_depth == 0 {
                        push_bytes(&mut self.output, raw.as_slice());
                    }
                },
                TokenShape::Cdata => {
                    if self.removed_depth == 0 {
                        push_bytes(&mut self.output, raw.as_slice());
                    }
                },
                TokenShape::StartTag { name, attrs, self_closing } => {
                    let nb = copy_range(raw.as_slice(), name.start, name.end);
                    let low = lower_bytes(nb.as_slice());
                    let void = is_void_name(low.as_slice());
                    let can = !self_closing && !void;
                    if self.removed_depth == 0 {
                        let st = make_start_tag(
                            raw,
                            name,
                            attrs,
                            self_closing,
                            self.encoding.duplicate(),
                        );
                        self.checked_out_raw = Ghost(st.raw@);
                        self.paused = true;
                        let el = Element::new(st, can);
                        proof {
                            if self.pristine@ && !self.failed {
                                assert(self.output@ + self.checked_out_raw@ + rraws(self.queue@)
                                    =~= self.tok.drained_view());
                            }
                        }
                        return Some(el);
                    } else {
                        if can {
                            let entry = OpenEntry {
                                name_lower: low,
                                action: None,
                                remove_content: false,
                            };
                            proof {
                                lemma_removed_count_push(self.open@, entry);
                            }
                            self.open.push(entry);
                        }
                    }
                },
                TokenShape::EndTag { name } => {
                    let nb = copy_range(raw.as_slice(), name.start, name.end);
                    let low = lower_bytes(nb.as_slice());
                    let top_matches: bool = if self.open.len() > 0 {
                        bytes_eq(
                            self.open[self.open.len() - 1].name_lower.as_slice(),
                            low.as_slice(),
                        )
                    } else {
                        false
                    };
                    if top_matches {
                        let ghost open0 = self.open@;
                        let entry = match self.open.pop() {
                            Some(e) => e,
                            None => (OpenEntry {
                                name_lower: low,
                                action: None,
                                remove_content: false,
                            }),
                        };
                        proof {
                            assert(entry == open0.last());
                            assert(entry == open0[open0.len() - 1]);
                            assert(self.open@ =~= open0.drop_last());
                            if self.pristine@ && !self.failed {
                                assert(entry_inert(open0[open0.len() - 1]));
                            }
                            lemma_removed_count_bounds(self.open@);
                        }
                        if entry.remove_content {
                            proof {
                                lemma_removed_count_bounds(self.open@);
                            }
                            self.removed_depth = self.removed_depth - 1;
                        }
                        if self.removed_depth == 0 {
                            match entry.action {
                                Some(a) => {
                                    let mut et = EndTag {
                                        raw,
                                        name_span: name,
                                        mutations: Mutations::new(),
                                        modified_name: None,
                                    };
                                    a.apply(&mut et);
                                    serialize_end_tag(&et, &mut self.output);
                                },
                                None => {
                                    push_bytes(&mut self.output, raw.as_slice());
                                },
                            }
                        }
                    } else {
                        if self.removed_depth == 0 {
                            push_bytes(&mut self.output, raw.as_slice());
                        }
                    }
                },
            }
            proof {
                if self.pristine@ && !self.failed {
                    assert(self.output@ + Seq::<u8>::empty() + rraws(self.queue@)
                        =~= self.tok.drained_view());
                }
            }
        }
    }
}

proof fn lemma_removed_count_push(s: Seq<OpenEntry>, e: OpenEntry)
    ensures
        removed_count(s.push(e)) == removed_count(s) + (if e.remove_content {
            1int
        } else {
            0int
        }),
{
    assert(s.push(e).drop_last() =~= s);
    assert(s.push(e).last() == e);
}

/// Materializes the rewritable start tag from a recognized unit: the
/// attribute spans are detached into owned name/value byte pairs.
fn make_start_tag(
    raw: Vec<u8>,
    name: Span,
    attr_spans: Vec<AttrSpans>,
    self_closing: bool,
    encoding: DocumentEncoding,
) -> (st: StartTag)
    requires
        name.wf(raw@.len() as int),
        raw@.len() <= 0x1000_0000,
        forall|i: int| 0 <= i < attr_spans@.len() ==> (#[trigger] attr_spans@[i]).wf(raw@.len() as int),
    ensures
        st.wf(),
        st.pristine(),
        st.raw@ == raw@,
        st.name_span == name,
        st.self_closing == self_closing,
        st.encoding == encoding,
        st.attrs@.len() == attr_spans@.len(),
        forall|i: int|
            0 <= i < attr_spans@.len() ==> (#[trigger] st.attrs@[i]).name@ == raw@.subrange(
                attr_spans@[i].name.start as int,
                attr_spans@[i].name.end as int,
            ) && st.attrs@[i].value@ == raw@.subrange(
                attr_spans@[i].value.start as int,
                attr_spans@[i].value.end as int,
            ),
{
    let mut attrs: Vec<Attribute> = Vec::new();
    let mut i: usize = 0;
    while i < attr_spans.len()
        invariant
            i <= attr_spans@.len(),
            raw@.len() <= 0x1000_0000,
            forall|k: int|
                0 <= k < attr_spans@.len() ==> (#[trigger] attr_spans@[k]).wf(raw@.len() as int),
            attrs@.len() == i,
            forall|k: int|
                0 <= k < i ==> (#[trigger] attrs@[k]).name@ == raw@.subrange(
                    attr_spans@[k].name.start as int,
                    attr_spans@[k].name.end as int,
                ) && attrs@[k].value@ == raw@.subrange(
                    attr_spans@[k].value.start as int,
                    attr_spans@[k].value.end as int,
                ),
        decreases attr_spans@.len() - i,
    {
        let sp = attr_spans[i];
        let a = Attribute {
            name: copy_range(raw.as_slice(), sp.name.start, sp.name.end),
            value: copy_range(raw.as_slice(), sp.value.start, sp.value.end),
        };
        attrs.push(a);
        i = i + 1;
    }
    StartTag {
        raw,
        name_span: name,
        attrs,
        self_closing,
        mutations: Mutations::new(),
        modified_name: None,
        attrs_modified: false,
        encoding,
    }
}

/// Identity: a finished pipeline in which every element was handed back
/// untouched has written exactly the bytes that were fed, whatever the
/// chunking was.
pub proof fn lemma_identity(r: &Rewriter)
    requires
        r.inv(),
        r.is_pristine(),
        !r.is_failed(),
        r.complete(),
    ensures
        r.output_view() == r.fed_view(),
{
    r.lemma_tok_accounting();
    assert(rraws(Seq::<LexUnit>::empty()) =~= Seq::<u8>::empty());
    assert(r.output_view() + Seq::<u8>::empty() + Seq::<u8>::empty() =~= r.output_view());
    assert(r.fed_view() =~= r.output_view());
}

} // verus!
