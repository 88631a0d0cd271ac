use vstd::prelude::*;
use vstd::string::StringSliceAdditionalSpecFns;
use crate::errors::{TagNameError, AttributeNameError};
use crate::mutations::{Mutations, ContentType};
use crate::rewritable::{StartTag, EndTagAction, Attribute};
use crate::encoding::{
    encode_strict,
    encoded_content,
    encode_faithful,
    decoded_content,
    decode_bytes,
    content_to_bytes,
    spec_content_bytes,
};
use crate::text::{
    spec_validate_tag_name,
    spec_validate_attr_name,
    validate_tag_name,
    validate_attr_name,
    lower_seq,
    lower_bytes,
    copy_range,
    bytes_eq,
};

verus! {

/// The rewriting-facing aggregate handed to a start-tag handler: the start
/// tag itself, plus the deferred changes that must be expressed at the
/// matching end tag. For an element that cannot have content (a void or
/// self-closing element) everything aimed at the inside or the end tag is a
/// silent no-op: there is no end tag to anchor it to.
pub struct Element {
    pub start_tag: StartTag,
    pub end_tag_mutations: Option<Mutations>,
    pub modified_end_tag_name: Option<Vec<u8>>,
    pub can_have_content: bool,
    pub should_remove_content: bool,
}

/// Equality of two start tags in everything but their mutations record.
pub open spec fn tag_eq_mod_mut(a: StartTag, b: StartTag) -> bool {
    &&& a.raw == b.raw
    &&& a.name_span == b.name_span
    &&& a.attrs == b.attrs
    &&& a.self_closing == b.self_closing
    &&& a.modified_name == b.modified_name
    &&& a.attrs_modified == b.attrs_modified
    &&& a.encoding == b.encoding
}

/// Equality of two elements in everything but the start tag's mutations.
pub open spec fn el_eq_mod_start_mut(a: Element, b: Element) -> bool {
    &&& tag_eq_mod_mut(a.start_tag, b.start_tag)
    &&& a.end_tag_mutations == b.end_tag_mutations
    &&& a.modified_end_tag_name == b.modified_end_tag_name
    &&& a.can_have_content == b.can_have_content
    &&& a.should_remove_content == b.should_remove_content
}

impl Element {
    pub open spec fn wf(&self) -> bool {
        &&& self.start_tag.wf()
        &&& (match self.modified_end_tag_name {
            Some(n) => n@.len() <= 0x1000_0000,
            None => true,
        })
    }

    /// What is scheduled to appear just inside the element's end, before the
    /// end tag.
    pub open spec fn etm_before(&self) -> Seq<u8> {
        match self.end_tag_mutations {
            Some(m) => m.content_before@,
            None => Seq::empty(),
        }
    }

    /// What is scheduled to appear after the element closes.
    pub open spec fn etm_after(&self) -> Seq<u8> {
        match self.end_tag_mutations {
            Some(m) => m.content_after@,
            None => Seq::empty(),
        }
    }

    pub open spec fn etm_removed(&self) -> bool {
        match self.end_tag_mutations {
            Some(m) => m.removed,
            None => false,
        }
    }

    /// What a removed end tag is replaced with.
    pub open spec fn etm_replacement(&self) -> Seq<u8> {
        match self.end_tag_mutations {
            Some(m) => m.replacement@,
            None => Seq::empty(),
        }
    }

    /// Untouched by any handler: passing it back serializes the raw input.
    pub open spec fn pristine(&self) -> bool {
        &&& self.start_tag.pristine()
        &&& self.end_tag_mutations is None
        &&& self.modified_end_tag_name is None
        &&& !self.should_remove_content
    }

    pub(crate) fn new(start_tag: StartTag, can_have_content: bool) -> (r: Element)
        ensures
            r.start_tag == start_tag,
            r.end_tag_mutations is None,
            r.modified_end_tag_name is None,
            r.can_have_content == can_have_content,
            !r.should_remove_content,
    {
        Element {
            start_tag,
            end_tag_mutations: None,
            modified_end_tag_name: None,
            can_have_content,
            should_remove_content: false,
        }
    }

    /// The element's tag name, lowercased and decoded.
    pub fn tag_name(&self) -> (r: String)
        requires
            self.wf(),
        ensures
            r@ == decoded_content(
                self.start_tag.encoding.name_view(),
                lower_seq(self.start_tag.name_bytes_view()),
            ),
    {
        self.start_tag.name_string()
    }

    /// Renames the element. The name is validated against the grammar and
    /// must be representable in the document's output encoding without
    /// numeric-reference substitution. On success the start tag is renamed at
    /// once and, if the element can have content, the same name is remembered
    /// for the end tag.
    pub fn set_tag_name(&mut self, name: &str) -> (r: Result<(), TagNameError>)
        requires
            old(self).wf(),
            name@.len() <= 0x1000_0000,
        ensures
            final(self).wf(),
            match r {
                Err(e) => *final(self) == *old(self) && (match spec_validate_tag_name(
                    name.spec_bytes(),
                ) {
                    Some(err) => e == err,
                    None => e == TagNameError::UnencodableCharacter && (!encode_faithful(
                        old(self).start_tag.encoding.name_view(),
                        name@,
                    ) || encoded_content(old(self).start_tag.encoding.name_view(), name@).len()
                        > 0x1000_0000),
                }),
                Ok(()) => {
                    &&& spec_validate_tag_name(name.spec_bytes()) is None
                    &&& encode_faithful(old(self).start_tag.encoding.name_view(), name@)
                    &&& final(self).start_tag.modified_name matches Some(n) && n@
                        == encoded_content(old(self).start_tag.encoding.name_view(), name@)
                    &&& (old(self).start_tag.encoding.is_utf8() ==> encoded_content(
                        old(self).start_tag.encoding.name_view(),
                        name@,
                    ) == name.spec_bytes())
                    &&& (old(self).can_have_content ==> (final(self).modified_end_tag_name
                        matches Some(m) && m@ == encoded_content(
                        old(self).start_tag.encoding.name_view(),
                        name@,
                    )))
                    &&& (!old(self).can_have_content ==> final(self).modified_end_tag_name == old(
                        self,
                    ).modified_end_tag_name)
                    &&& final(self).start_tag.raw == old(self).start_tag.raw
                    &&& final(self).start_tag.name_span == old(self).start_tag.name_span
                    &&& final(self).start_tag.attrs == old(self).start_tag.attrs
                    &&& final(self).start_tag.self_closing == old(self).start_tag.self_closing
                    &&& final(self).start_tag.attrs_modified == old(self).start_tag.attrs_modified
                    &&& final(self).start_tag.encoding == old(self).start_tag.encoding
                    &&& final(self).start_tag.mutations == old(self).start_tag.mutations
                    &&& final(self).end_tag_mutations == old(self).end_tag_mutations
                    &&& final(self).can_have_content == old(self).can_have_content
                    &&& final(self).should_remove_content == old(self).should_remove_content
                },
            },
    {
        match validate_tag_name(name) {
            Some(e) => Err(e),
            None => {
                match encode_strict(&self.start_tag.encoding, name) {
                    None => Err(TagNameError::UnencodableCharacter),
                    Some(bytes) => {
                        if bytes.len() > 0x1000_0000 {
                            Err(TagNameError::UnencodableCharacter)
                        } else {
                            if self.can_have_content {
                                let copy = copy_range(bytes.as_slice(), 0, bytes.len());
                                proof {
                                    assert(copy@ =~= bytes@);
                                }
                                self.modified_end_tag_name = Some(copy);
                            }
                            self.start_tag.modified_name = Some(bytes);
                            Ok(())
                        }
                    },
                }
            },
        }
    }

    /// The element's attribute list.
    pub fn attributes(&self) -> (r: &Vec<Attribute>)
        ensures
            r == &self.start_tag.attrs,
    {
        &self.start_tag.attrs
    }

    /// The value of the first attribute whose name matches, decoded to a
    /// string. Duplicate names: the first occurrence wins. Matching is
    /// byte-wise and ASCII-case-insensitive: the query's UTF-8 bytes against
    /// the stored, document-encoded name bytes — the same comparison as a
    /// decoded-string comparison for ASCII-compatible encodings, which is the
    /// intended semantics.
    pub fn get_attribute(&self, name: &str) -> (r: Option<String>)
        requires
            self.wf(),
        ensures
            (r is Some) == (exists|k: int|
                0 <= k < self.start_tag.attrs@.len() && lower_seq(
                    #[trigger] self.start_tag.attrs@[k].name@,
                ) == lower_seq(name.spec_bytes())),
            r matches Some(s) ==> exists|j: int|
                {
                    &&& 0 <= j < self.start_tag.attrs@.len()
                    &&& lower_seq(#[trigger] self.start_tag.attrs@[j].name@) == lower_seq(
                        name.spec_bytes(),
                    )
                    &&& forall|k: int|
                        0 <= k < j ==> lower_seq(#[trigger] self.start_tag.attrs@[k].name@)
                            != lower_seq(name.spec_bytes())
                    &&& s@ == decoded_content(
                        self.start_tag.encoding.name_view(),
                        self.start_tag.attrs@[j].value@,
                    )
                    &&& (self.start_tag.encoding.is_utf8() ==> forall|w: Seq<char>|
                        self.start_tag.attrs@[j].value@ == encoded_content(
                            crate::encoding::utf8_name(),
                            w,
                        ) ==> s@ == w)
                },
    {
        let lname = lower_bytes(name.as_bytes());
        let mut i: usize = 0;
        while i < self.start_tag.attrs.len()
            invariant
                self.wf(),
                i <= self.start_tag.attrs@.len(),
                lname@ == lower_seq(name.spec_bytes()),
                forall|k: int|
                    0 <= k < i ==> lower_seq(#[trigger] self.start_tag.attrs@[k].name@) != lname@,
            decreases self.start_tag.attrs@.len() - i,
        {
            let alow = lower_bytes(self.start_tag.attrs[i].name.as_slice());
            if bytes_eq(alow.as_slice(), lname.as_slice()) {
                let v = decode_bytes(
                    &self.start_tag.encoding,
                    self.start_tag.attrs[i].value.as_slice(),
                );
                return Some(v);
            }
            i = i + 1;
        }
        None
    }

    /// Whether an attribute with the given name exists, matched as in
    /// `get_attribute`.
    pub fn has_attribute(&self, name: &str) -> (r: bool)
        requires
            self.wf(),
        ensures
            r == (exists|k: int|
                0 <= k < self.start_tag.attrs@.len() && lower_seq(
                    #[trigger] self.start_tag.attrs@[k].name@,
                ) == lower_seq(name.spec_bytes())),
    {
        let lname = lower_bytes(name.as_bytes());
        let mut i: usize = 0;
        while i < self.start_tag.attrs.len()
            invariant
                self.wf(),
                i <= self.start_tag.attrs@.len(),
                lname@ == lower_seq(name.spec_bytes()),
                forall|k: int|
                    0 <= k < i ==> lower_seq(#[trigger] self.start_tag.attrs@[k].name@) != lname@,
            decreases self.start_tag.attrs@.len() - i,
        {
            let alow = lower_bytes(self.start_tag.attrs[i].name.as_slice());
            if bytes_eq(alow.as_slice(), lname.as_slice()) {
                return true;
            }
            i = i + 1;
        }
        false
    }

    /// Sets an attribute: updates the value of the first attribute whose name
    /// matches (byte-wise and ASCII-case-insensitively, see `get_attribute`),
    /// or appends a new attribute. The name is validated; name and value are
    /// encoded in the document's output encoding. The call fails exactly when
    /// the name is malformed, when the name has no direct encoding, or when
    /// an encoded name or value overruns the supported unit size.
    pub fn set_attribute(&mut self, name: &str, value: &str) -> (r: Result<(), AttributeNameError>)
        requires
            old(self).wf(),
            name@.len() <= 0x1000_0000,
            value@.len() <= 0x0020_0000,
        ensures
            final(self).wf(),
            match r {
                Err(e) => *final(self) == *old(self) && (match spec_validate_attr_name(
                    name.spec_bytes(),
                ) {
                    Some(err) => e == err,
                    None => e == AttributeNameError::UnencodableCharacter && (!encode_faithful(
                        old(self).start_tag.encoding.name_view(),
                        name@,
                    ) || encoded_content(old(self).start_tag.encoding.name_view(), name@).len()
                        > 0x1000_0000 || encoded_content(
                        old(self).start_tag.encoding.name_view(),
                        value@,
                    ).len() > 0x1000_0000),
                }),
                Ok(()) => {
                    &&& spec_validate_attr_name(name.spec_bytes()) is None
                    &&& encode_faithful(old(self).start_tag.encoding.name_view(), name@)
                    &&& (old(self).start_tag.encoding.is_utf8() ==> encoded_content(
                        old(self).start_tag.encoding.name_view(),
                        name@,
                    ) == name.spec_bytes() && encoded_content(
                        old(self).start_tag.encoding.name_view(),
                        value@,
                    ) == value.spec_bytes())
                    &&& el_eq_except_attrs(*final(self), *old(self))
                    &&& final(self).start_tag.attrs_modified
                    &&& ({
                        let n = encoded_content(old(self).start_tag.encoding.name_view(), name@);
                        let v = encoded_content(old(self).start_tag.encoding.name_view(), value@);
                        let attrs0 = old(self).start_tag.attrs@;
                        let attrs1 = final(self).start_tag.attrs@;
                        if exists|k: int|
                            0 <= k < attrs0.len() && lower_seq(#[trigger] attrs0[k].name@)
                                == lower_seq(n) {
                            exists|j: int|
                                {
                                    &&& 0 <= j < attrs0.len()
                                    &&& lower_seq(#[trigger] attrs0[j].name@) == lower_seq(n)
                                    &&& forall|k: int|
                                        0 <= k < j ==> lower_seq(#[trigger] attrs0[k].name@)
                                            != lower_seq(n)
                                    &&& attrs1.len() == attrs0.len()
                                    &&& forall|k: int|
                                        0 <= k < attrs0.len() && k != j ==> attrs1[k] == attrs0[k]
                                    &&& attrs1[j].name@ == attrs0[j].name@
                                    &&& attrs1[j].value@ == v
                                }
                        } else {
                            &&& attrs1.len() == attrs0.len() + 1
                            &&& forall|k: int| 0 <= k < attrs0.len() ==> attrs1[k] == attrs0[k]
                            &&& attrs1.last().name@ == n
                            &&& attrs1.last().value@ == v
                        }
                    })
                },
            },
    {
        match validate_attr_name(name) {
            Some(e) => Err(e),
            None => {
                match encode_strict(&self.start_tag.encoding, name) {
                    None => Err(AttributeNameError::UnencodableCharacter),
                    Some(n) => {
                        if n.len() > 0x1000_0000 {
                            return Err(AttributeNameError::UnencodableCharacter);
                        }
                        let v = crate::encoding::encode_lossy(&self.start_tag.encoding, value);
                        if v.len() > 0x1000_0000 {
                            return Err(AttributeNameError::UnencodableCharacter);
                        }
                        let lname = lower_bytes(n.as_slice());
                        let mut i: usize = 0;
                        while i < self.start_tag.attrs.len()
                            invariant
                                self.wf(),
                                *self == *old(self),
                                i <= self.start_tag.attrs@.len(),
                                lname@ == lower_seq(n@),
                                n@ == encoded_content(
                                    old(self).start_tag.encoding.name_view(),
                                    name@,
                                ),
                                v@ == encoded_content(
                                    old(self).start_tag.encoding.name_view(),
                                    value@,
                                ),
                                n@.len() <= 0x1000_0000,
                                encode_faithful(old(self).start_tag.encoding.name_view(), name@),
                                spec_validate_attr_name(name.spec_bytes()) is None,
                                old(self).start_tag.encoding.is_utf8() ==> n@
                                    == name.spec_bytes() && v@ == value.spec_bytes(),
                                v@.len() <= 0x1000_0000,
                                forall|k: int|
                                    0 <= k < i ==> lower_seq(
                                        #[trigger] self.start_tag.attrs@[k].name@,
                                    ) != lname@,
                            decreases self.start_tag.attrs@.len() - i,
                        {
                            let alow = lower_bytes(self.start_tag.attrs[i].name.as_slice());
                            if bytes_eq(alow.as_slice(), lname.as_slice()) {
                                let old_name = copy_range(
                                    self.start_tag.attrs[i].name.as_slice(),
                                    0,
                                    self.start_tag.attrs[i].name.len(),
                                );
                                self.start_tag.attrs.set(
                                    i,
                                    Attribute { name: old_name, value: v },
                                );
                                self.start_tag.attrs_modified = true;
                                proof {
                                    assert(self.start_tag.attrs@[i as int].name@ =~= old(
                                        self,
                                    ).start_tag.attrs@[i as int].name@);
                                    assert(lower_seq(old(self).start_tag.attrs@[i as int].name@)
                                        == lower_seq(
                                        encoded_content(
                                            old(self).start_tag.encoding.name_view(),
                                            name@,
                                        ),
                                    ));
                                }
                                return Ok(());
                            }
                            i = i + 1;
                        }
                        self.start_tag.attrs.push(Attribute { name: n, value: v });
                        self.start_tag.attrs_modified = true;
                        Ok(())
                    },
                }
            },
        }
    }

    /// Removes every attribute whose name matches, as in `get_attribute`.
    pub fn remove_attribute(&mut self, name: &str)
        requires
            old(self).wf(),
        ensures
            final(self).wf(),
            el_eq_except_attrs(*final(self), *old(self)),
            ({
                let lname = lower_seq(name.spec_bytes());
                let attrs0 = old(self).start_tag.attrs@;
                let attrs1 = final(self).start_tag.attrs@;
                &&& attrs1 == remove_matching(attrs0, lname)
                &&& final(self).start_tag.attrs_modified == (old(self).start_tag.attrs_modified
                    || exists|k: int|
                    0 <= k < attrs0.len() && lower_seq(#[trigger] attrs0[k].name@) == lname)
            }),
    {
        let lname = lower_bytes(name.as_bytes());
        let mut taken: Vec<Attribute> = Vec::new();
        core::mem::swap(&mut taken, &mut self.start_tag.attrs);
        let ghost orig = taken@;
        let mut kept: Vec<Attribute> = Vec::new();
        let mut found = false;
        proof {
            assert(orig.subrange(0, orig.len() as int) =~= orig);
            assert(Seq::<Attribute>::empty() + remove_matching(orig, lname@) =~= remove_matching(
                orig,
                lname@,
            ));
        }
        while taken.len() > 0
            invariant
                lname@ == lower_seq(name.spec_bytes()),
                taken@.len() <= orig.len(),
                taken@ == orig.subrange(orig.len() - taken@.len(), orig.len() as int),
                kept@ + remove_matching(taken@, lname@) == remove_matching(orig, lname@),
                found == exists|k: int|
                    0 <= k < orig.len() - taken@.len() && lower_seq(#[trigger] orig[k].name@)
                        == lname@,
                forall|k: int| 0 <= k < kept@.len() ==> (#[trigger] kept@[k]).wf(),
                forall|k: int| 0 <= k < orig.len() ==> (#[trigger] orig[k]).wf(),
            decreases taken@.len(),
        {
            let ghost taken0 = taken@;
            let ghost idx: int = orig.len() - taken0.len();
            let a = taken.remove(0);
            proof {
                assert(taken@ =~= taken0.subrange(1, taken0.len() as int));
                assert(taken0[0] == orig[idx]);
                assert(a == orig[idx]);
                assert(taken@ =~= orig.subrange(idx + 1, orig.len() as int));
                assert(orig.len() - taken@.len() == idx + 1);
            }
            let alow = lower_bytes(a.name.as_slice());
            if bytes_eq(alow.as_slice(), lname.as_slice()) {
                found = true;
                proof {
                    assert(remove_matching(taken0, lname@) == remove_matching(taken@, lname@));
                }
            } else {
                kept.push(a);
                proof {
                    assert(remove_matching(taken0, lname@) == seq![a] + remove_matching(
                        taken@,
                        lname@,
                    ));
                    assert(kept@ + remove_matching(taken@, lname@) =~= remove_matching(
                        orig,
                        lname@,
                    ));
                }
            }
        }
        proof {
            assert(remove_matching(taken@, lname@) =~= Seq::<Attribute>::empty());
            assert(kept@ + remove_matching(taken@, lname@) =~= kept@);
        }
        self.start_tag.attrs = kept;
        if found {
            self.start_tag.attrs_modified = true;
        }
    }

    /// Inserts content before the element's start tag, in call order.
    pub fn before(&mut self, content: &str, content_type: ContentType)
        requires
            old(self).wf(),
            content@.len() <= 0x0020_0000,
        ensures
            final(self).wf(),
            el_eq_mod_start_mut(*final(self), *old(self)),
            final(self).start_tag.mutations.content_before@ == old(
                self,
            ).start_tag.mutations.content_before@ + spec_content_bytes(
                old(self).start_tag.encoding.name_view(),
                content@,
                content_type,
            ),
            final(self).start_tag.mutations.content_after == old(
                self,
            ).start_tag.mutations.content_after,
            final(self).start_tag.mutations.replacement == old(self).start_tag.mutations.replacement,
            final(self).start_tag.mutations.removed == old(self).start_tag.mutations.removed,
    {
        let bytes = content_to_bytes(&self.start_tag.encoding, content, content_type);
        self.start_tag.mutations.push_before(bytes.as_slice());
    }

    /// Inserts content after the element: after its end tag when it can have
    /// content, otherwise directly after the start tag. Call order is kept.
    pub fn after(&mut self, content: &str, content_type: ContentType)
        requires
            old(self).wf(),
            content@.len() <= 0x0020_0000,
        ensures
            final(self).wf(),
            ({
                let bytes = spec_content_bytes(
                    old(self).start_tag.encoding.name_view(),
                    content@,
                    content_type,
                );
                if old(self).can_have_content {
                    &&& final(self).start_tag == old(self).start_tag
                    &&& final(self).etm_after() == old(self).etm_after() + bytes
                    &&& final(self).etm_before() == old(self).etm_before()
                    &&& final(self).etm_removed() == old(self).etm_removed()
                    &&& final(self).modified_end_tag_name == old(self).modified_end_tag_name
                    &&& final(self).can_have_content == old(self).can_have_content
                    &&& final(self).should_remove_content == old(self).should_remove_content
                } else {
                    &&& el_eq_mod_start_mut(*final(self), *old(self))
                    &&& final(self).start_tag.mutations.content_after@ == old(
                        self,
                    ).start_tag.mutations.content_after@ + bytes
                    &&& final(self).start_tag.mutations.content_before == old(
                        self,
                    ).start_tag.mutations.content_before
                    &&& final(self).start_tag.mutations.replacement == old(
                        self,
                    ).start_tag.mutations.replacement
                    &&& final(self).start_tag.mutations.removed == old(
                        self,
                    ).start_tag.mutations.removed
                }
            }),
    {
        let bytes = content_to_bytes(&self.start_tag.encoding, content, content_type);
        if self.can_have_content {
            let mut m = self.take_end_tag_mutations();
            m.push_after(bytes.as_slice());
            self.end_tag_mutations = Some(m);
        } else {
            self.start_tag.mutations.push_after(bytes.as_slice());
        }
    }

    /// Inserts content just after the start tag — as the element's first
    /// child. Call order is kept.
    pub fn prepend(&mut self, content: &str, content_type: ContentType)
        requires
            old(self).wf(),
            content@.len() <= 0x0020_0000,
        ensures
            final(self).wf(),
            el_eq_mod_start_mut(*final(self), *old(self)),
            final(self).start_tag.mutations.content_after@ == old(
                self,
            ).start_tag.mutations.content_after@ + spec_content_bytes(
                old(self).start_tag.encoding.name_view(),
                content@,
                content_type,
            ),
            final(self).start_tag.mutations.content_before == old(
                self,
            ).start_tag.mutations.content_before,
            final(self).start_tag.mutations.replacement == old(self).start_tag.mutations.replacement,
            final(self).start_tag.mutations.removed == old(self).start_tag.mutations.removed,
    {
        let bytes = content_to_bytes(&self.start_tag.encoding, content, content_type);
        self.start_tag.mutations.push_after(bytes.as_slice());
    }

    /// Inserts content just before the end tag — as the element's last child.
    /// A no-op when the element cannot have content.
    pub fn append(&mut self, content: &str, content_type: ContentType)
        requires
            old(self).wf(),
            content@.len() <= 0x0020_0000,
        ensures
            final(self).wf(),
            !old(self).can_have_content ==> *final(self) == *old(self),
            old(self).can_have_content ==> {
                &&& final(self).start_tag == old(self).start_tag
                &&& final(self).etm_before() == old(self).etm_before() + spec_content_bytes(
                    old(self).start_tag.encoding.name_view(),
                    content@,
                    content_type,
                )
                &&& final(self).etm_after() == old(self).etm_after()
                &&& final(self).etm_removed() == old(self).etm_removed()
                &&& final(self).modified_end_tag_name == old(self).modified_end_tag_name
                &&& final(self).can_have_content == old(self).can_have_content
                &&& final(self).should_remove_content == old(self).should_remove_content
            },
    {
        if self.can_have_content {
            let bytes = content_to_bytes(&self.start_tag.encoding, content, content_type);
            let mut m = self.take_end_tag_mutations();
            m.push_before(bytes.as_slice());
            self.end_tag_mutations = Some(m);
        }
    }

    /// Replaces the element's inner content: everything previously scheduled
    /// inside is cleared, the old content is marked for removal, and the new
    /// content is scheduled right after the start tag. A no-op when the
    /// element cannot have content.
    pub fn set_inner_content(&mut self, content: &str, content_type: ContentType)
        requires
            old(self).wf(),
            content@.len() <= 0x0020_0000,
        ensures
            final(self).wf(),
            !old(self).can_have_content ==> *final(self) == *old(self),
            old(self).can_have_content ==> {
                &&& final(self).should_remove_content
                &&& final(self).start_tag.mutations.content_after@ == spec_content_bytes(
                    old(self).start_tag.encoding.name_view(),
                    content@,
                    content_type,
                )
                &&& final(self).etm_before() == Seq::<u8>::empty()
                &&& final(self).etm_after() == old(self).etm_after()
                &&& final(self).etm_removed() == old(self).etm_removed()
                &&& final(self).start_tag.mutations.content_before == old(
                    self,
                ).start_tag.mutations.content_before
                &&& final(self).start_tag.mutations.removed == old(self).start_tag.mutations.removed
                &&& tag_eq_mod_mut(final(self).start_tag, old(self).start_tag)
                &&& final(self).modified_end_tag_name == old(self).modified_end_tag_name
                &&& final(self).can_have_content == old(self).can_have_content
            },
    {
        if self.can_have_content {
            self.remove_content();
            let bytes = content_to_bytes(&self.start_tag.encoding, content, content_type);
            self.start_tag.mutations.push_after(bytes.as_slice());
        }
    }

    /// Replaces the element's whole rendered span with the given content.
    pub fn replace(&mut self, content: &str, content_type: ContentType)
        requires
            old(self).wf(),
            content@.len() <= 0x0020_0000,
        ensures
            final(self).wf(),
            final(self).start_tag.mutations.removed,
            final(self).start_tag.mutations.replacement@ == spec_content_bytes(
                old(self).start_tag.encoding.name_view(),
                content@,
                content_type,
            ),
            final(self).start_tag.mutations.content_before == old(
                self,
            ).start_tag.mutations.content_before,
            tag_eq_mod_mut(final(self).start_tag, old(self).start_tag),
            old(self).can_have_content ==> {
                &&& final(self).should_remove_content
                &&& final(self).etm_removed()
                &&& final(self).etm_before() == Seq::<u8>::empty()
                &&& final(self).etm_after() == old(self).etm_after()
                &&& final(self).etm_replacement() == old(self).etm_replacement()
                &&& final(self).start_tag.mutations.content_after@ == Seq::<u8>::empty()
            },
            !old(self).can_have_content ==> {
                &&& final(self).start_tag.mutations.content_after == old(
                    self,
                ).start_tag.mutations.content_after
                &&& final(self).end_tag_mutations == old(self).end_tag_mutations
                &&& final(self).should_remove_content == old(self).should_remove_content
            },
            final(self).modified_end_tag_name == old(self).modified_end_tag_name,
            final(self).can_have_content == old(self).can_have_content,
    {
        let bytes = content_to_bytes(&self.start_tag.encoding, content, content_type);
        self.start_tag.mutations.replace_with(bytes);
        if self.can_have_content {
            self.remove_content();
            let mut m = self.take_end_tag_mutations();
            m.remove();
            self.end_tag_mutations = Some(m);
        }
    }

    /// Removes the element entirely: its tags and, when it can have content,
    /// everything inside.
    pub fn remove(&mut self)
        requires
            old(self).wf(),
        ensures
            final(self).wf(),
            final(self).start_tag.mutations.removed,
            final(self).start_tag.mutations.replacement == old(self).start_tag.mutations.replacement,
            final(self).start_tag.mutations.content_before == old(
                self,
            ).start_tag.mutations.content_before,
            tag_eq_mod_mut(final(self).start_tag, old(self).start_tag),
            old(self).can_have_content ==> {
                &&& final(self).should_remove_content
                &&& final(self).etm_removed()
                &&& final(self).etm_before() == Seq::<u8>::empty()
                &&& final(self).etm_after() == old(self).etm_after()
                &&& final(self).etm_replacement() == old(self).etm_replacement()
                &&& final(self).start_tag.mutations.content_after@ == Seq::<u8>::empty()
            },
            !old(self).can_have_content ==> {
                &&& final(self).start_tag.mutations.content_after == old(
                    self,
                ).start_tag.mutations.content_after
                &&& final(self).end_tag_mutations == old(self).end_tag_mutations
                &&& final(self).should_remove_content == old(self).should_remove_content
            },
            final(self).modified_end_tag_name == old(self).modified_end_tag_name,
            final(self).can_have_content == old(self).can_have_content,
    {
        self.start_tag.mutations.remove();
        if self.can_have_content {
            self.remove_content();
            let mut m = self.take_end_tag_mutations();
            m.remove();
            self.end_tag_mutations = Some(m);
        }
    }

    /// Removes the element's tags but keeps everything between them.
    pub fn remove_and_keep_content(&mut self)
        requires
            old(self).wf(),
        ensures
            final(self).wf(),
            final(self).start_tag.mutations.removed,
            final(self).start_tag.mutations.replacement == old(self).start_tag.mutations.replacement,
            final(self).start_tag.mutations.content_before == old(
                self,
            ).start_tag.mutations.content_before,
            final(self).start_tag.mutations.content_after == old(
                self,
            ).start_tag.mutations.content_after,
            tag_eq_mod_mut(final(self).start_tag, old(self).start_tag),
            old(self).can_have_content ==> final(self).etm_removed() && final(self).etm_before()
                == old(self).etm_before() && final(self).etm_after() == old(self).etm_after(),
            !old(self).can_have_content ==> final(self).end_tag_mutations == old(
                self,
            ).end_tag_mutations,
            final(self).should_remove_content == old(self).should_remove_content,
            final(self).modified_end_tag_name == old(self).modified_end_tag_name,
            final(self).can_have_content == old(self).can_have_content,
    {
        self.start_tag.mutations.remove();
        if self.can_have_content {
            let mut m = self.take_end_tag_mutations();
            m.remove();
            self.end_tag_mutations = Some(m);
        }
    }

    /// Whether the start tag's own bytes have been marked removed, by
    /// `remove`, `remove_and_keep_content` or `replace`.
    pub fn removed(&self) -> (r: bool)
        ensures
            r == self.start_tag.mutations.removed,
    {
        self.start_tag.mutations.removed()
    }

    /// Whether the element's inner content is marked for removal.
    pub fn should_remove_content(&self) -> (r: bool)
        ensures
            r == self.should_remove_content,
    {
        self.should_remove_content
    }

    /// Hands back the start tag together with the deferred end-tag action, if
    /// the element ended up needing one: only end-tag-directed mutations or a
    /// rename make the matching end tag pay any cost.
    pub fn into_parts(self) -> (r: (StartTag, bool, Option<EndTagAction>))
        ensures
            r.0 == self.start_tag,
            r.1 == self.should_remove_content,
            (r.2 is Some) == (self.end_tag_mutations is Some || self.modified_end_tag_name
                is Some),
            r.2 matches Some(a) ==> {
                &&& a.set_name_to == self.modified_end_tag_name
                &&& a.mutations.content_before@ == self.etm_before()
                &&& a.mutations.content_after@ == self.etm_after()
                &&& a.mutations.replacement@ == self.etm_replacement()
                &&& a.mutations.removed == self.etm_removed()
            },
    {
        let Element { start_tag, end_tag_mutations, modified_end_tag_name, can_have_content, should_remove_content } =
            self;
        let has_name = match &modified_end_tag_name {
            Some(_) => true,
            None => false,
        };
        match end_tag_mutations {
            Some(m) => (
                start_tag,
                should_remove_content,
                Some(EndTagAction { mutations: m, set_name_to: modified_end_tag_name }),
            ),
            None => {
                if has_name {
                    (
                        start_tag,
                        should_remove_content,
                        Some(
                            EndTagAction {
                                mutations: Mutations::new(),
                                set_name_to: modified_end_tag_name,
                            },
                        ),
                    )
                } else {
                    (start_tag, should_remove_content, None)
                }
            },
        }
    }

    /// Clears everything scheduled inside the element and marks its content
    /// for removal.
    fn remove_content(&mut self)
        requires
            old(self).wf(),
        ensures
            final(self).wf(),
            final(self).should_remove_content,
            final(self).start_tag.mutations.content_after@ == Seq::<u8>::empty(),
            final(self).etm_before() == Seq::<u8>::empty(),
            final(self).etm_after() == old(self).etm_after(),
            final(self).etm_replacement() == old(self).etm_replacement(),
            final(self).etm_removed() == old(self).etm_removed(),
            final(self).start_tag.mutations.content_before == old(
                self,
            ).start_tag.mutations.content_before,
            final(self).start_tag.mutations.replacement == old(self).start_tag.mutations.replacement,
            final(self).start_tag.mutations.removed == old(self).start_tag.mutations.removed,
            tag_eq_mod_mut(final(self).start_tag, old(self).start_tag),
            final(self).modified_end_tag_name == old(self).modified_end_tag_name,
            final(self).can_have_content == old(self).can_have_content,
    {
        self.start_tag.mutations.clear_after();
        let mut m = self.take_end_tag_mutations();
        m.clear_before();
        self.end_tag_mutations = Some(m);
        self.should_remove_content = true;
    }

    /// The end-tag mutations record, created on first use.
    fn take_end_tag_mutations(&mut self) -> (m: Mutations)
        ensures
            m.content_before@ == old(self).etm_before(),
            m.content_after@ == old(self).etm_after(),
            m.replacement@ == old(self).etm_replacement(),
            m.removed == old(self).etm_removed(),
            final(self).end_tag_mutations is None,
            final(self).start_tag == old(self).start_tag,
            final(self).modified_end_tag_name == old(self).modified_end_tag_name,
            final(self).can_have_content == old(self).can_have_content,
            final(self).should_remove_content == old(self).should_remove_content,
    {
        let mut slot: Option<Mutations> = None;
        core::mem::swap(&mut slot, &mut self.end_tag_mutations);
        match slot {
            Some(m) => m,
            None => Mutations::new(),
        }
    }
}

/// Equality of two elements in everything but the attribute list and its
/// modification flag.
pub open spec fn el_eq_except_attrs(a: Element, b: Element) -> bool {
    &&& a.start_tag.raw == b.start_tag.raw
    &&& a.start_tag.name_span == b.start_tag.name_span
    &&& a.start_tag.self_closing == b.start_tag.self_closing
    &&& a.start_tag.modified_name == b.start_tag.modified_name
    &&& a.start_tag.encoding == b.start_tag.encoding
    &&& a.start_tag.mutations == b.start_tag.mutations
    &&& a.end_tag_mutations == b.end_tag_mutations
    &&& a.modified_end_tag_name == b.modified_end_tag_name
    &&& a.can_have_content == b.can_have_content
    &&& a.should_remove_content == b.should_remove_content
}

/// The attribute list with every attribute whose lowercased name equals
/// `lname` removed.
pub open spec fn remove_matching(s: Seq<Attribute>, lname: Seq<u8>) -> Seq<Attribute>
    decreases s.len(),
{
    if s.len() == 0 {
        Seq::empty()
    } else {
        let rest = remove_matching(s.subrange(1, s.len() as int), lname);
        if lower_seq(s[0].name@) == lname {
            rest
        } else {
            seq![s[0]] + rest
        }
    }
}

} // verus!
