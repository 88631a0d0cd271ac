use vstd::prelude::*;
use crate::units::{Span, AttrSpans};
use crate::mutations::Mutations;
use crate::encoding::{DocumentEncoding, decoded_content, decode_bytes};
use crate::text::{escape_dq, push_escaped_dq, push_bytes, copy_range, lower_bytes, lower_seq};

verus! {

/// One attribute of a start tag: its name and value bytes, in the document's
/// encoding. For attributes taken from the input these are the source bytes;
/// for attributes set by a handler they are the encoded replacement.
#[verifier::ext_equal]
pub struct Attribute {
    pub name: Vec<u8>,
    pub value: Vec<u8>,
}

impl Attribute {
    pub open spec fn wf(&self) -> bool {
        self.name@.len() <= 0x1000_0000 && self.value@.len() <= 0x1000_0000
    }
}

/// How one attribute is rendered when a tag is rebuilt: a space, the name,
/// `="`, the value with double quotes escaped, `"`.
pub open spec fn attr_ser(a: Attribute) -> Seq<u8> {
    seq![32u8] + a.name@ + seq![61u8, 34u8] + escape_dq(a.value@) + seq![34u8]
}

/// The rendering of a whole attribute list, in order.
pub open spec fn attrs_ser(s: Seq<Attribute>) -> Seq<u8>
    decreases s.len(),
{
    if s.len() == 0 {
        Seq::empty()
    } else {
        attrs_ser(s.drop_last()) + attr_ser(s.last())
    }
}

proof fn lemma_attrs_ser_take(s: Seq<Attribute>, i: int)
    requires
        0 <= i < s.len(),
    ensures
        attrs_ser(s.take(i + 1)) == attrs_ser(s.take(i)) + attr_ser(s[i]),
{
    assert(s.take(i + 1).drop_last() =~= s.take(i));
    assert(s.take(i + 1).last() == s[i]);
}

/// A start tag recognized in the input, together with everything a handler
/// changed on it. As long as neither the name nor the attribute list was
/// touched, serialization reuses the raw input bytes.
pub struct StartTag {
    pub raw: Vec<u8>,
    pub name_span: Span,
    pub attrs: Vec<Attribute>,
    pub self_closing: bool,
    pub mutations: Mutations,
    pub modified_name: Option<Vec<u8>>,
    pub attrs_modified: bool,
    pub encoding: DocumentEncoding,
}

impl StartTag {
    pub open spec fn wf(&self) -> bool {
        &&& self.name_span.wf(self.raw@.len() as int)
        &&& self.raw@.len() <= 0x1000_0000
        &&& (match self.modified_name {
            Some(n) => n@.len() <= 0x1000_0000,
            None => true,
        })
        &&& forall|i: int| 0 <= i < self.attrs@.len() ==> (#[trigger] self.attrs@[i]).wf()
    }

    /// The tag's current name bytes: the rename if one was made, else the
    /// name range of the raw input.
    pub open spec fn name_bytes_view(&self) -> Seq<u8> {
        match self.modified_name {
            Some(n) => n@,
            None => self.raw@.subrange(self.name_span.start as int, self.name_span.end as int),
        }
    }

    /// The bytes of the tag itself, reflecting name and attribute changes:
    /// untouched tags keep their raw bytes; a renamed tag splices the new
    /// name into the raw bytes; a tag with a changed attribute list is
    /// rebuilt from its parts.
    pub open spec fn tag_bytes(&self) -> Seq<u8> {
        if self.attrs_modified {
            seq![60u8] + self.name_bytes_view() + attrs_ser(self.attrs@) + (if self.self_closing {
                seq![47u8, 62u8]
            } else {
                seq![62u8]
            })
        } else {
            match self.modified_name {
                Some(n) => self.raw@.subrange(0, self.name_span.start as int) + n@
                    + self.raw@.subrange(self.name_span.end as int, self.raw@.len() as int),
                None => self.raw@,
            }
        }
    }

    /// What this tag contributes to the output: scheduled before-content,
    /// then the tag's own bytes (or their replacement if removed), then
    /// scheduled after-content.
    pub open spec fn serialized(&self) -> Seq<u8> {
        self.mutations.content_before@ + (if self.mutations.removed {
            self.mutations.replacement@
        } else {
            self.tag_bytes()
        }) + self.mutations.content_after@
    }

    /// Untouched: serialization reproduces the raw input bytes.
    pub open spec fn pristine(&self) -> bool {
        &&& self.mutations.pristine()
        &&& self.modified_name is None
        &&& !self.attrs_modified
    }

    pub proof fn lemma_pristine_serialized(&self)
        requires
            self.pristine(),
        ensures
            self.serialized() == self.raw@,
    {
        assert(self.serialized() =~= self.raw@);
    }

    /// The tag's current name, ASCII-lowercased.
    pub fn name_lower(&self) -> (r: Vec<u8>)
        requires
            self.wf(),
        ensures
            r@ == lower_seq(self.name_bytes_view()),
    {
        match &self.modified_name {
            Some(n) => lower_bytes(n.as_slice()),
            None => {
                let nb = copy_range(self.raw.as_slice(), self.name_span.start, self.name_span.end);
                lower_bytes(nb.as_slice())
            },
        }
    }

    /// The tag's current name, lowercased and decoded to a string.
    pub fn name_string(&self) -> (r: String)
        requires
            self.wf(),
        ensures
            r@ == decoded_content(
                self.encoding.name_view(),
                lower_seq(self.name_bytes_view()),
            ),
    {
        let low = self.name_lower();
        decode_bytes(&self.encoding, low.as_slice())
    }
}

/// Appends the serialized form of a start tag to `out`.
pub fn serialize_start_tag(t: &StartTag, out: &mut Vec<u8>)
    requires
        t.wf(),
    ensures
        final(out)@ == old(out)@ + t.serialized(),
{
    push_bytes(out, t.mutations.content_before.as_slice());
    if t.mutations.removed {
        push_bytes(out, t.mutations.replacement.as_slice());
    } else {
        if t.attrs_modified {
            out.push(60);
            match &t.modified_name {
                Some(n) => push_bytes(out, n.as_slice()),
                None => {
                    let nb = copy_range(t.raw.as_slice(), t.name_span.start, t.name_span.end);
                    push_bytes(out, nb.as_slice());
                },
            }
            let ghost mid = out@;
            let mut i: usize = 0;
            while i < t.attrs.len()
                invariant
                    i <= t.attrs@.len(),
                    t.wf(),
                    out@ == mid + attrs_ser(t.attrs@.take(i as int)),
                decreases t.attrs@.len() - i,
            {
                proof {
                    assert(t.attrs@[i as int].wf());
                }
                out.push(32);
                push_bytes(out, t.attrs[i].name.as_slice());
                out.push(61);
                out.push(34);
                push_escaped_dq(out, t.attrs[i].value.as_slice());
                out.push(34);
                proof {
                    lemma_attrs_ser_take(t.attrs@, i as int);
                    assert(out@ =~= mid + attrs_ser(t.attrs@.take(i + 1 as int)));
                }
                i = i + 1;
            }
            proof {
                assert(t.attrs@.take(t.attrs@.len() as int) =~= t.attrs@);
            }
            if t.self_closing {
                out.push(47);
            }
            out.push(62);
        } else {
            match &t.modified_name {
                Some(n) => {
                    let pre = copy_range(t.raw.as_slice(), 0, t.name_span.start);
                    push_bytes(out, pre.as_slice());
                    push_bytes(out, n.as_slice());
                    let post = copy_range(t.raw.as_slice(), t.name_span.end, t.raw.len());
                    push_bytes(out, post.as_slice());
                },
                None => {
                    push_bytes(out, t.raw.as_slice());
                },
            }
        }
    }
    push_bytes(out, t.mutations.content_after.as_slice());
    proof {
        assert(out@ =~= old(out)@ + t.serialized());
    }
}

/// An end tag recognized in the input, with any deferred changes applied.
pub struct EndTag {
    pub raw: Vec<u8>,
    pub name_span: Span,
    pub mutations: Mutations,
    pub modified_name: Option<Vec<u8>>,
}

impl EndTag {
    pub open spec fn wf(&self) -> bool {
        &&& self.name_span.wf(self.raw@.len() as int)
        &&& self.raw@.len() <= 0x1000_0000
        &&& (match self.modified_name {
            Some(n) => n@.len() <= 0x1000_0000,
            None => true,
        })
    }

    /// The bytes of the tag itself: raw, or with the new name spliced in.
    pub open spec fn tag_bytes(&self) -> Seq<u8> {
        match self.modified_name {
            Some(n) => self.raw@.subrange(0, self.name_span.start as int) + n@
                + self.raw@.subrange(self.name_span.end as int, self.raw@.len() as int),
            None => self.raw@,
        }
    }

    pub open spec fn serialized(&self) -> Seq<u8> {
        self.mutations.content_before@ + (if self.mutations.removed {
            self.mutations.replacement@
        } else {
            self.tag_bytes()
        }) + self.mutations.content_after@
    }
}

/// Appends the serialized form of an end tag to `out`.
pub fn serialize_end_tag(t: &EndTag, out: &mut Vec<u8>)
    requires
        t.wf(),
    ensures
        final(out)@ == old(out)@ + t.serialized(),
{
    push_bytes(out, t.mutations.content_before.as_slice());
    if t.mutations.removed {
        push_bytes(out, t.mutations.replacement.as_slice());
    } else {
        match &t.modified_name {
            Some(n) => {
                let pre = copy_range(t.raw.as_slice(), 0, t.name_span.start);
                push_bytes(out, pre.as_slice());
                push_bytes(out, n.as_slice());
                let post = copy_range(t.raw.as_slice(), t.name_span.end, t.raw.len());
                push_bytes(out, post.as_slice());
            },
            None => {
                push_bytes(out, t.raw.as_slice());
            },
        }
    }
    push_bytes(out, t.mutations.content_after.as_slice());
    proof {
        assert(out@ =~= old(out)@ + t.serialized());
    }
}

/// The deferred one-shot record a start-tag handler leaves for the matching
/// end tag: the mutations to attach to it and the rename to apply. Applying
/// it consumes it, so it cannot run twice for one element.
pub struct EndTagAction {
    pub mutations: Mutations,
    pub set_name_to: Option<Vec<u8>>,
}

impl EndTagAction {
    /// Decorates the end tag with the deferred mutations and rename. The
    /// action is consumed: this is the single invocation it gets.
    pub fn apply(self, tag: &mut EndTag)
        ensures
            final(tag).raw == old(tag).raw,
            final(tag).name_span == old(tag).name_span,
            final(tag).mutations == self.mutations,
            final(tag).modified_name == (match self.set_name_to {
                Some(n) => Some(n),
                None => old(tag).modified_name,
            }),
    {
        match self.set_name_to {
            Some(n) => {
                tag.modified_name = Some(n);
            },
            None => (),
        }
        tag.mutations = self.mutations;
    }
}

} // verus!
