use vstd::prelude::*;
use crate::text::push_bytes;

verus! {

/// Distinguishes literal text, which is escaped before insertion, from
/// pre-formed markup, which is inserted verbatim.
#[derive(Debug, Copy, Clone, PartialEq, Eq, Structural)]
pub enum ContentType {
    Text,
    Html,
}

/// The ordered record of content to splice around a tag's own bytes, plus the
/// removal/replacement flags. Content arrives here already encoded in the
/// document's output encoding. Successive insertions at the same point are
/// kept in call order.
pub struct Mutations {
    pub content_before: Vec<u8>,
    pub replacement: Vec<u8>,
    pub content_after: Vec<u8>,
    pub removed: bool,
}

impl Mutations {
    /// No content scheduled and the owning tag's bytes kept.
    pub open spec fn pristine(&self) -> bool {
        &&& self.content_before@.len() == 0
        &&& self.replacement@.len() == 0
        &&& self.content_after@.len() == 0
        &&& !self.removed
    }

    pub fn new() -> (r: Mutations)
        ensures
            r.pristine(),
            r.content_before@ == Seq::<u8>::empty(),
            r.replacement@ == Seq::<u8>::empty(),
            r.content_after@ == Seq::<u8>::empty(),
            r.removed == false,
    {
        Mutations {
            content_before: Vec::new(),
            replacement: Vec::new(),
            content_after: Vec::new(),
            removed: false,
        }
    }

    /// Schedules `bytes` to appear before the owning tag's bytes, after any
    /// content already scheduled there.
    pub fn push_before(&mut self, bytes: &[u8])
        ensures
            final(self).content_before@ == old(self).content_before@ + bytes@,
            final(self).replacement == old(self).replacement,
            final(self).content_after == old(self).content_after,
            final(self).removed == old(self).removed,
    {
        push_bytes(&mut self.content_before, bytes);
    }

    /// Schedules `bytes` to appear after the owning tag's bytes, after any
    /// content already scheduled there.
    pub fn push_after(&mut self, bytes: &[u8])
        ensures
            final(self).content_after@ == old(self).content_after@ + bytes@,
            final(self).replacement == old(self).replacement,
            final(self).content_before == old(self).content_before,
            final(self).removed == old(self).removed,
    {
        push_bytes(&mut self.content_after, bytes);
    }

    /// Suppresses the owning tag's own bytes and substitutes `bytes` for them.
    /// A later call overwrites an earlier substitution: the replacement is
    /// one-shot.
    pub fn replace_with(&mut self, bytes: Vec<u8>)
        ensures
            final(self).removed,
            final(self).replacement@ == bytes@,
            final(self).content_before == old(self).content_before,
            final(self).content_after == old(self).content_after,
    {
        self.removed = true;
        self.replacement = bytes;
    }

    /// Suppresses the owning tag's own bytes entirely.
    pub fn remove(&mut self)
        ensures
            final(self).removed,
            final(self).replacement == old(self).replacement,
            final(self).content_before == old(self).content_before,
            final(self).content_after == old(self).content_after,
    {
        self.removed = true;
    }

    /// Whether the owning tag's own bytes have been marked removed or
    /// replaced.
    pub fn removed(&self) -> (r: bool)
        ensures
            r == self.removed,
    {
        self.removed
    }

    /// Drops everything scheduled to appear before the owning tag.
    pub fn clear_before(&mut self)
        ensures
            final(self).content_before@ == Seq::<u8>::empty(),
            final(self).replacement == old(self).replacement,
            final(self).content_after == old(self).content_after,
            final(self).removed == old(self).removed,
    {
        self.content_before = Vec::new();
    }

    /// Drops everything scheduled to appear after the owning tag.
    pub fn clear_after(&mut self)
        ensures
            final(self).content_after@ == Seq::<u8>::empty(),
            final(self).replacement == old(self).replacement,
            final(self).content_before == old(self).content_before,
            final(self).removed == old(self).removed,
    {
        self.content_after = Vec::new();
    }
}

} // verus!
