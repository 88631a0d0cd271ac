use vstd::prelude::*;

verus! {

/// Error returned by `Element::set_tag_name` when the requested name cannot
/// be used: it is empty, starts with a non-alphabetic character, contains a
/// character the grammar forbids in tag names, or cannot be represented in
/// the document's output encoding.
#[derive(Debug, Copy, Clone, PartialEq, Eq, Structural)]
pub enum TagNameError {
    Empty,
    InvalidFirstCharacter,
    ForbiddenCharacter(char),
    UnencodableCharacter,
}

/// Error returned by `Element::set_attribute` when the attribute name cannot
/// be used.
#[derive(Debug, Copy, Clone, PartialEq, Eq, Structural)]
pub enum AttributeNameError {
    Empty,
    ForbiddenCharacter(char),
    UnencodableCharacter,
}

/// Fatal failure of a processing pipeline instance: the in-flight lexical
/// unit grew past the configured maximum size without closing.
#[derive(Debug, Copy, Clone, PartialEq, Eq, Structural)]
pub enum RewritingError {
    CapacityExceeded,
}

impl TagNameError {
    /// A human-readable description of the error.
    pub fn message(&self) -> (r: &'static str)
    {
        match self {
            TagNameError::Empty => "tag name can't be empty",
            TagNameError::InvalidFirstCharacter => "first character of the tag name should be an ASCII alphabetical character",
            TagNameError::ForbiddenCharacter(_) => "forbidden character in the tag name",
            TagNameError::UnencodableCharacter => "the tag name contains a character that can't be represented in the document's character encoding",
        }
    }
}

impl RewritingError {
    /// A human-readable description of the error.
    pub fn message(&self) -> (r: &'static str)
    {
        match self {
            RewritingError::CapacityExceeded => "the in-flight lexical unit exceeded the configured capacity",
        }
    }
}

} // verus!
