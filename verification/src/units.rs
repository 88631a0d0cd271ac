use vstd::prelude::*;

verus! {

/// A byte range into a lexical unit's raw span.
#[derive(Debug, Copy, Clone, PartialEq, Eq, Structural)]
pub struct Span {
    pub start: usize,
    pub end: usize,
}

impl Span {
    pub open spec fn wf(&self, limit: int) -> bool {
        self.start <= self.end && self.end <= limit
    }

    pub open spec fn spec_len(&self) -> int {
        self.end - self.start
    }
}

/// The ranges of one attribute: its name and its (possibly empty) value.
#[derive(Debug, Copy, Clone, PartialEq, Eq, Structural)]
pub struct AttrSpans {
    pub name: Span,
    pub value: Span,
}

impl AttrSpans {
    pub open spec fn wf(&self, limit: int) -> bool {
        self.name.wf(limit) && self.value.wf(limit)
    }
}

/// The shape of a recognized lexical unit: which construct it is, and where
/// its parts lie within the unit's raw bytes.
#[derive(Debug)]
pub enum TokenShape {
    Text,
    StartTag { name: Span, attrs: Vec<AttrSpans>, self_closing: bool },
    EndTag { name: Span },
    Comment,
    Doctype,
    Cdata,
}

/// A byte that, after `<`, begins markup: an ASCII letter, `/`, `!` or `?`.
pub open spec fn is_tag_start_byte(b: u8) -> bool {
    crate::text::is_ascii_alpha(b) || b == 47 || b == 33 || b == 63
}

/// HTML whitespace inside a tag.
pub open spec fn is_tag_space(b: u8) -> bool {
    b == 32 || b == 9 || b == 10 || b == 13 || b == 12
}

/// A byte that ends a tag-name run: whitespace, `/` or `>`.
pub open spec fn is_name_delim(b: u8) -> bool {
    is_tag_space(b) || b == 47 || b == 62
}

/// A text unit recognized mid-stream holds no tag start: every `<` in it is
/// the last byte or is followed by a byte that cannot begin markup.
pub open spec fn text_unit_ok(s: Seq<u8>) -> bool {
    forall|k: int|
        0 <= k < s.len() && s[k] == 60 ==> (k + 1 >= s.len() || !is_tag_start_byte(
            #[trigger] s[k + 1],
        ))
}

/// A recognized start tag: `<`, an alphabetic first name character, the name
/// span is the maximal delimiter-free run from offset 1, and the unit ends at
/// its closing `>`.
pub open spec fn start_tag_unit_ok(raw: Seq<u8>, name: Span) -> bool {
    &&& raw.len() >= 3
    &&& raw[0] == 60
    &&& raw[raw.len() - 1] == 62
    &&& name.start == 1
    &&& 1 < name.end < raw.len()
    &&& crate::text::is_ascii_alpha(raw[1])
    &&& forall|k: int| 1 <= k < name.end ==> !is_name_delim(#[trigger] raw[k])
    &&& is_name_delim(raw[name.end as int])
}

/// A recognized end tag: `</`, an alphabetic first name character, the name
/// span is the maximal delimiter-free run from offset 2, and the unit ends at
/// its closing `>`.
pub open spec fn end_tag_unit_ok(raw: Seq<u8>, name: Span) -> bool {
    &&& raw.len() >= 4
    &&& raw[0] == 60
    &&& raw[1] == 47
    &&& raw[raw.len() - 1] == 62
    &&& name.start == 2
    &&& 2 < name.end < raw.len()
    &&& crate::text::is_ascii_alpha(raw[2])
    &&& forall|k: int| 2 <= k < name.end ==> !is_name_delim(#[trigger] raw[k])
    &&& is_name_delim(raw[name.end as int])
}

/// A comment unit (a true comment or a bogus one): `<` then `!`, `/` or `?`,
/// closed by `>`.
pub open spec fn comment_unit_ok(raw: Seq<u8>) -> bool {
    &&& raw.len() >= 3
    &&& raw[0] == 60
    &&& (raw[1] == 33 || raw[1] == 47 || raw[1] == 63)
    &&& raw[raw.len() - 1] == 62
}

/// The lowercased bytes of the doctype keyword.
pub open spec fn doctype_keyword() -> Seq<u8> {
    seq![100u8, 111u8, 99u8, 116u8, 121u8, 112u8, 101u8]
}

/// A doctype unit: `<!`, the keyword case-insensitively, closed by `>`.
pub open spec fn doctype_unit_ok(raw: Seq<u8>) -> bool {
    &&& raw.len() >= 10
    &&& raw[0] == 60
    &&& raw[1] == 33
    &&& raw[raw.len() - 1] == 62
    &&& crate::text::lower_seq(raw.subrange(2, 9)) == doctype_keyword()
}

/// The opening marker of a CDATA section.
pub open spec fn cdata_marker() -> Seq<u8> {
    seq![60u8, 33u8, 91u8, 67u8, 68u8, 65u8, 84u8, 65u8, 91u8]
}

/// A CDATA unit: the marker, then anything, closed by `]]>`.
pub open spec fn cdata_unit_ok(raw: Seq<u8>) -> bool {
    &&& raw.len() >= 12
    &&& raw.subrange(0, 9) == cdata_marker()
    &&& raw[raw.len() - 3] == 93
    &&& raw[raw.len() - 2] == 93
    &&& raw[raw.len() - 1] == 62
}

/// What `Tokenizer::feed` guarantees of each unit it hands out: the raw bytes
/// have the shape the unit claims, and tag-name spans are pinned to the
/// maximal name run. (`finish` is exempt: its abrupt-end policy flushes any
/// in-flight construct as literal text.)
pub open spec fn unit_ok(u: LexUnit) -> bool {
    match u.shape {
        TokenShape::Text => text_unit_ok(u.raw@),
        TokenShape::StartTag { name, attrs, self_closing } => start_tag_unit_ok(u.raw@, name),
        TokenShape::EndTag { name } => end_tag_unit_ok(u.raw@, name),
        TokenShape::Comment => comment_unit_ok(u.raw@),
        TokenShape::Doctype => doctype_unit_ok(u.raw@),
        TokenShape::Cdata => cdata_unit_ok(u.raw@),
    }
}

/// One recognized lexical unit: the literal bytes that produced it, plus the
/// decomposition of those bytes into parts.
#[derive(Debug)]
pub struct LexUnit {
    pub raw: Vec<u8>,
    pub shape: TokenShape,
}

impl LexUnit {
    /// All part ranges lie within the raw span.
    pub open spec fn wf(&self) -> bool {
        match self.shape {
            TokenShape::Text => true,
            TokenShape::StartTag { name, attrs, self_closing } => {
                &&& name.wf(self.raw@.len() as int)
                &&& forall|i: int| 0 <= i < attrs@.len() ==> (#[trigger] attrs@[i]).wf(self.raw@.len() as int)
            },
            TokenShape::EndTag { name } => name.wf(self.raw@.len() as int),
            TokenShape::Comment => true,
            TokenShape::Doctype => true,
            TokenShape::Cdata => true,
        }
    }
}

/// The concatenation of the raw bytes of a sequence of units, in order.
pub open spec fn raws(units: Seq<LexUnit>) -> Seq<u8>
    decreases units.len(),
{
    if units.len() == 0 {
        Seq::empty()
    } else {
        units[0].raw@ + raws(units.subrange(1, units.len() as int))
    }
}

pub proof fn lemma_raws_push(s: Seq<LexUnit>, u: LexUnit)
    ensures
        raws(s.push(u)) == raws(s) + u.raw@,
    decreases s.len(),
{
    let t = s.push(u);
    if s.len() == 0 {
        assert(t[0] == u);
        assert(t.subrange(1, t.len() as int) =~= Seq::<LexUnit>::empty());
        assert(raws(t) == u.raw@ + raws(Seq::<LexUnit>::empty()));
        assert(u.raw@ + Seq::<u8>::empty() =~= Seq::<u8>::empty() + u.raw@);
    } else {
        assert(t[0] == s[0]);
        assert(t.subrange(1, t.len() as int) =~= s.subrange(1, s.len() as int).push(u));
        lemma_raws_push(s.subrange(1, s.len() as int), u);
        assert(s[0].raw@ + (raws(s.subrange(1, s.len() as int)) + u.raw@)
            =~= (s[0].raw@ + raws(s.subrange(1, s.len() as int))) + u.raw@);
    }
}

/// The concatenation of the raw bytes of a queue of units stored in reverse:
/// the unit to be handled next sits at the end.
pub open spec fn rraws(units: Seq<LexUnit>) -> Seq<u8>
    decreases units.len(),
{
    if units.len() == 0 {
        Seq::empty()
    } else {
        units.last().raw@ + rraws(units.drop_last())
    }
}

} // verus!
