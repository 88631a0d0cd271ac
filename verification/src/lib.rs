//! A streaming HTML tokenizer and content-rewriting engine: it consumes an
//! HTML byte stream in arbitrarily sized chunks, recognizes lexical units
//! (tags, attributes, text, comments, doctypes) without buffering the whole
//! document, and lets a caller inspect and mutate recognized elements,
//! rewriting the stream to an output buffer on the fly.
//!
//! The pipeline is driven from outside: `Rewriter::feed` and
//! `Rewriter::finish` hand back each recognized element in document order,
//! the caller mutates it through the `Element` interface (or leaves it
//! alone), and `Rewriter::resume` writes it out and continues. Mutations
//! aimed at an element's end are deferred on a stack of open elements and
//! applied exactly once, when the matching end tag arrives.
//!
//! Scope: only start tags are handed out for rewriting. Text runs, comments,
//! doctypes and CDATA sections are recognized as units and passed through
//! unchanged; per-unit inspection hooks for them, and an opaque user-data
//! slot on the element, are left to a layer above this core.

pub mod errors;
pub mod text;
pub mod units;
pub mod mutations;
pub mod encoding;
pub mod tokenizer;
pub mod rewritable;
pub mod element;
pub mod rewriter;

pub use errors::{TagNameError, AttributeNameError, RewritingError};
pub use mutations::{ContentType, Mutations};
pub use encoding::DocumentEncoding;
pub use element::Element;
pub use rewriter::Rewriter;
