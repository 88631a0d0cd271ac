use vstd::prelude::*;
use vstd::std_specs::iter::IteratorSpec;
use vstd::string::StringSliceAdditionalSpecFns;
use crate::errors::{TagNameError, AttributeNameError};

verus! {

// ---------------------------------------------------------------------------
// ASCII classification and case folding
// ---------------------------------------------------------------------------

pub open spec fn is_ascii_alpha(b: u8) -> bool {
    (65 <= b && b <= 90) || (97 <= b && b <= 122)
}

pub open spec fn to_lower(b: u8) -> u8 {
    if 65 <= b && b <= 90 {
        (b + 32) as u8
    } else {
        b
    }
}

pub open spec fn lower_seq(s: Seq<u8>) -> Seq<u8> {
    s.map_values(|b: u8| to_lower(b))
}

/// ASCII-lowercases a byte sequence.
pub fn lower_bytes(s: &[u8]) -> (r: Vec<u8>)
    ensures
        r@ == lower_seq(s@),
{
    let mut out: Vec<u8> = Vec::new();
    let mut i: usize = 0;
    while i < s.len()
        invariant
            i <= s@.len(),
            out@ == lower_seq(s@.subrange(0, i as int)),
        decreases s@.len() - i,
    {
        let b = s[i];
        if 65 <= b && b <= 90 {
            out.push(b + 32);
        } else {
            out.push(b);
        }
        proof {
            assert(s@.subrange(0, i + 1 as int).map_values(|x: u8| to_lower(x))
                =~= s@.subrange(0, i as int).map_values(|x: u8| to_lower(x)).push(to_lower(s@[i as int])));
        }
        i = i + 1;
    }
    proof {
        assert(s@.subrange(0, s@.len() as int) =~= s@);
    }
    out
}

/// Byte-wise equality of two sequences.
pub fn bytes_eq(a: &[u8], b: &[u8]) -> (r: bool)
    ensures
        r == (a@ == b@),
{
    if a.len() != b.len() {
        proof {
            assert(a@.len() != b@.len());
        }
        return false;
    }
    let mut i: usize = 0;
    while i < a.len()
        invariant
            i <= a@.len(),
            a@.len() == b@.len(),
            forall|k: int| 0 <= k < i ==> a@[k] == b@[k],
        decreases a@.len() - i,
    {
        if a[i] != b[i] {
            return false;
        }
        i = i + 1;
    }
    proof {
        assert(a@ =~= b@);
    }
    true
}

/// Copies `src[start..end]` into a fresh vector.
pub fn copy_range(src: &[u8], start: usize, end: usize) -> (r: Vec<u8>)
    requires
        start <= end <= src@.len(),
    ensures
        r@ == src@.subrange(start as int, end as int),
{
    let mut out: Vec<u8> = Vec::new();
    let mut i: usize = start;
    while i < end
        invariant
            start <= i <= end <= src@.len(),
            out@ == src@.subrange(start as int, i as int),
        decreases end - i,
    {
        out.push(src[i]);
        proof {
            assert(src@.subrange(start as int, i + 1 as int)
                =~= src@.subrange(start as int, i as int).push(src@[i as int]));
        }
        i = i + 1;
    }
    out
}

/// Appends all of `bytes` to `out`.
pub fn push_bytes(out: &mut Vec<u8>, bytes: &[u8])
    ensures
        final(out)@ == old(out)@ + bytes@,
{
    let mut i: usize = 0;
    while i < bytes.len()
        invariant
            i <= bytes@.len(),
            out@ == old(out)@ + bytes@.subrange(0, i as int),
        decreases bytes@.len() - i,
    {
        out.push(bytes[i]);
        proof {
            assert(old(out)@ + bytes@.subrange(0, i + 1 as int)
                =~= (old(out)@ + bytes@.subrange(0, i as int)).push(bytes@[i as int]));
        }
        i = i + 1;
    }
    proof {
        assert(bytes@.subrange(0, bytes@.len() as int) =~= bytes@);
    }
}

// ---------------------------------------------------------------------------
// Tag-name and attribute-name validation
// ---------------------------------------------------------------------------

/// Characters the grammar forbids inside a tag name: whitespace variants,
/// `/` and `>`.
pub open spec fn is_tag_name_forbidden(b: u8) -> bool {
    b == 32 || b == 10 || b == 13 || b == 9 || b == 12 || b == 47 || b == 62
}

/// Characters the grammar forbids inside an attribute name: the tag-name set
/// plus `=`.
pub open spec fn is_attr_name_forbidden(b: u8) -> bool {
    is_tag_name_forbidden(b) || b == 61
}

/// The first byte of `s` that is forbidden in a tag name, if any.
pub open spec fn first_forbidden_tag(s: Seq<u8>) -> Option<u8>
    decreases s.len(),
{
    if s.len() == 0 {
        None
    } else if is_tag_name_forbidden(s[0]) {
        Some(s[0])
    } else {
        first_forbidden_tag(s.subrange(1, s.len() as int))
    }
}

/// The first byte of `s` that is forbidden in an attribute name, if any.
pub open spec fn first_forbidden_attr(s: Seq<u8>) -> Option<u8>
    decreases s.len(),
{
    if s.len() == 0 {
        None
    } else if is_attr_name_forbidden(s[0]) {
        Some(s[0])
    } else {
        first_forbidden_attr(s.subrange(1, s.len() as int))
    }
}

proof fn lemma_first_forbidden_tag_some(s: Seq<u8>, i: int)
    requires
        0 <= i < s.len(),
        is_tag_name_forbidden(s[i]),
        forall|k: int| 0 <= k < i ==> !is_tag_name_forbidden(s[k]),
    ensures
        first_forbidden_tag(s) == Some(s[i]),
    decreases i,
{
    if i == 0 {
    } else {
        let t = s.subrange(1, s.len() as int);
        assert(t[i - 1] == s[i]);
        assert(forall|k: int| 0 <= k < i - 1 ==> t[k] == s[k + 1] && !is_tag_name_forbidden(t[k]));
        lemma_first_forbidden_tag_some(t, i - 1);
    }
}

proof fn lemma_first_forbidden_tag_none(s: Seq<u8>)
    requires
        forall|k: int| 0 <= k < s.len() ==> !is_tag_name_forbidden(s[k]),
    ensures
        first_forbidden_tag(s) == None::<u8>,
    decreases s.len(),
{
    if s.len() == 0 {
    } else {
        let t = s.subrange(1, s.len() as int);
        assert(forall|k: int| 0 <= k < t.len() ==> t[k] == s[k + 1] && !is_tag_name_forbidden(t[k]));
        lemma_first_forbidden_tag_none(t);
    }
}

proof fn lemma_first_forbidden_attr_some(s: Seq<u8>, i: int)
    requires
        0 <= i < s.len(),
        is_attr_name_forbidden(s[i]),
        forall|k: int| 0 <= k < i ==> !is_attr_name_forbidden(s[k]),
    ensures
        first_forbidden_attr(s) == Some(s[i]),
    decreases i,
{
    if i == 0 {
    } else {
        let t = s.subrange(1, s.len() as int);
        assert(t[i - 1] == s[i]);
        assert(forall|k: int| 0 <= k < i - 1 ==> t[k] == s[k + 1] && !is_attr_name_forbidden(t[k]));
        lemma_first_forbidden_attr_some(t, i - 1);
    }
}

proof fn lemma_first_forbidden_attr_none(s: Seq<u8>)
    requires
        forall|k: int| 0 <= k < s.len() ==> !is_attr_name_forbidden(s[k]),
    ensures
        first_forbidden_attr(s) == None::<u8>,
    decreases s.len(),
{
    if s.len() == 0 {
    } else {
        let t = s.subrange(1, s.len() as int);
        assert(forall|k: int| 0 <= k < t.len() ==> t[k] == s[k + 1] && !is_attr_name_forbidden(t[k]));
        lemma_first_forbidden_attr_none(t);
    }
}

/// What `validate_tag_name` reports for the UTF-8 bytes of a candidate name:
/// empty names, names whose first character is not ASCII alphabetic, and
/// names holding a forbidden character are rejected; the first forbidden
/// character is the one reported.
pub open spec fn spec_validate_tag_name(s: Seq<u8>) -> Option<TagNameError> {
    if s.len() == 0 {
        Some(TagNameError::Empty)
    } else if !is_ascii_alpha(s[0]) {
        Some(TagNameError::InvalidFirstCharacter)
    } else {
        match first_forbidden_tag(s) {
            Some(b) => Some(TagNameError::ForbiddenCharacter(b as char)),
            None => None,
        }
    }
}

/// What `validate_attr_name` reports: empty names and names holding a
/// forbidden character are rejected.
pub open spec fn spec_validate_attr_name(s: Seq<u8>) -> Option<AttributeNameError> {
    if s.len() == 0 {
        Some(AttributeNameError::Empty)
    } else {
        match first_forbidden_attr(s) {
            Some(b) => Some(AttributeNameError::ForbiddenCharacter(b as char)),
            None => None,
        }
    }
}

fn is_tag_forbidden_exec(b: u8) -> (r: bool)
    ensures
        r == is_tag_name_forbidden(b),
{
    b == 32 || b == 10 || b == 13 || b == 9 || b == 12 || b == 47 || b == 62
}

/// Checks a candidate tag name for the shape the grammar demands.
pub fn validate_tag_name(name: &str) -> (r: Option<TagNameError>)
    ensures
        r == spec_validate_tag_name(name.spec_bytes()),
{
    let bytes = name.as_bytes();
    if bytes.len() == 0 {
        return Some(TagNameError::Empty);
    }
    let b0 = bytes[0];
    if !((65 <= b0 && b0 <= 90) || (97 <= b0 && b0 <= 122)) {
        return Some(TagNameError::InvalidFirstCharacter);
    }
    let mut i: usize = 0;
    while i < bytes.len()
        invariant
            i <= bytes@.len(),
            bytes@ == name.spec_bytes(),
            bytes@.len() > 0,
            is_ascii_alpha(bytes@[0]),
            forall|k: int| 0 <= k < i ==> !is_tag_name_forbidden(bytes@[k]),
        decreases bytes@.len() - i,
    {
        let b = bytes[i];
        if is_tag_forbidden_exec(b) {
            proof {
                lemma_first_forbidden_tag_some(bytes@, i as int);
            }
            return Some(TagNameError::ForbiddenCharacter(b as char));
        }
        i = i + 1;
    }
    proof {
        lemma_first_forbidden_tag_none(bytes@);
    }
    None
}

/// Checks a candidate attribute name for the shape the grammar demands.
pub fn validate_attr_name(name: &str) -> (r: Option<AttributeNameError>)
    ensures
        r == spec_validate_attr_name(name.spec_bytes()),
{
    let bytes = name.as_bytes();
    if bytes.len() == 0 {
        return Some(AttributeNameError::Empty);
    }
    let mut i: usize = 0;
    while i < bytes.len()
        invariant
            i <= bytes@.len(),
            bytes@ == name.spec_bytes(),
            bytes@.len() > 0,
            forall|k: int| 0 <= k < i ==> !is_attr_name_forbidden(bytes@[k]),
        decreases bytes@.len() - i,
    {
        let b = bytes[i];
        if is_tag_forbidden_exec(b) || b == 61 {
            proof {
lemma_first_forbidden_attr_some(bytes@, i as int);
            }
            return Some(AttributeNameError::ForbiddenCharacter(b as char));
        }
        i = i + 1;
    }
    proof {
        lemma_first_forbidden_attr_none(bytes@);
    }
    None
}

// ---------------------------------------------------------------------------
// Escaping
// ---------------------------------------------------------------------------

/// How one character of literal text is escaped before insertion into markup.
pub open spec fn escape_one(c: char) -> Seq<char> {
    if c == '&' {
        seq!['&', 'a', 'm', 'p', ';']
    } else if c == '<' {
        seq!['&', 'l', 't', ';']
    } else if c == '>' {
        seq!['&', 'g', 't', ';']
    } else {
        seq![c]
    }
}

/// Literal text escaped for insertion into markup: `&`, `<` and `>` become
/// character references, everything else is kept.
pub open spec fn escape_chars(s: Seq<char>) -> Seq<char>
    decreases s.len(),
{
    if s.len() == 0 {
        Seq::empty()
    } else {
        escape_one(s[0]) + escape_chars(s.subrange(1, s.len() as int))
    }
}

pub proof fn lemma_escape_chars_len(s: Seq<char>)
    ensures
        escape_chars(s).len() <= 5 * s.len(),
    decreases s.len(),
{
    if s.len() == 0 {
    } else {
        lemma_escape_chars_len(s.subrange(1, s.len() as int));
    }
}

/// Escapes literal text character by character.
pub fn escape_text(s: &str) -> (r: Vec<char>)
    ensures
        r@ == escape_chars(s@),
{
    let mut out: Vec<char> = Vec::new();
    let mut it = s.chars();
    proof {
        broadcast use vstd::string::axiom_spec_iter;
        broadcast use vstd::string::next_postcondition;
    }
    loop
        invariant
            it.obeys_prophetic_iter_laws(),
            it.decrease() is Some,
            out@ + escape_chars(it.remaining()) == escape_chars(s@),
        ensures
            out@ == escape_chars(s@),
        decreases it.decrease()->0,
    {
        proof {
            broadcast use vstd::string::next_postcondition;
        }
        let ghost prev = it.remaining();
        match it.next() {
            Some(c) => {
                proof {
                    assert(escape_chars(prev) == escape_one(c) + escape_chars(prev.subrange(1, prev.len() as int)));
                }
                if c == '&' {
                    out.push('&');
                    out.push('a');
                    out.push('m');
                    out.push('p');
                    out.push(';');
                } else if c == '<' {
                    out.push('&');
                    out.push('l');
                    out.push('t');
                    out.push(';');
                } else if c == '>' {
                    out.push('&');
                    out.push('g');
                    out.push('t');
                    out.push(';');
                } else {
                    out.push(c);
                }
                proof {
                    assert(out@ + escape_chars(it.remaining()) =~= escape_chars(s@));
                }
            }
            None => {
                proof {
                    assert(escape_chars(it.remaining()) =~= Seq::<char>::empty());
                    assert(out@ =~= escape_chars(s@));
                }
                break;
            }
        }
    }
    out
}

/// How one byte of an attribute value is escaped when a tag is rebuilt:
/// a double quote becomes `&quot;`.
pub open spec fn escape_dq_one(b: u8) -> Seq<u8> {
    if b == 34 {
        seq![38u8, 113u8, 117u8, 111u8, 116u8, 59u8]
    } else {
        seq![b]
    }
}

/// An attribute value escaped for serialization between double quotes.
pub open spec fn escape_dq(s: Seq<u8>) -> Seq<u8>
    decreases s.len(),
{
    if s.len() == 0 {
        Seq::empty()
    } else {
        escape_dq_one(s[0]) + escape_dq(s.subrange(1, s.len() as int))
    }
}

proof fn lemma_escape_dq_step(s: Seq<u8>, i: int)
    requires
        0 <= i < s.len(),
    ensures
        escape_dq(s.subrange(0, i + 1)) == escape_dq(s.subrange(0, i)) + escape_dq_one(s[i]),
    decreases i,
{
    let a = s.subrange(0, i + 1);
    if i == 0 {
        let e = Seq::<u8>::empty();
        assert(a.len() == 1);
        assert(a[0] == s[0]);
        assert(a.subrange(1, a.len() as int) =~= e);
        assert(s.subrange(0, 0) =~= e);
        assert(escape_dq(e) == e);
        assert(escape_dq(a) == escape_dq_one(s[0]) + e);
        assert(escape_dq_one(s[0]) + e =~= e + escape_dq_one(s[0]));
    } else {
        let t = s.subrange(1, s.len() as int);
        assert(a[0] == s[0]);
        assert(a.subrange(1, a.len() as int) =~= t.subrange(0, i));
        lemma_escape_dq_step(t, i - 1);
        assert(t.subrange(0, i - 1 + 1) =~= t.subrange(0, i));
        assert(s.subrange(0, i).subrange(1, i) =~= t.subrange(0, i - 1));
        assert(escape_dq(s.subrange(0, i)) == escape_dq_one(s[0]) + escape_dq(t.subrange(0, i - 1)));
        assert(t[i - 1] == s[i]);
        assert(escape_dq(a) == escape_dq_one(s[0]) + escape_dq(t.subrange(0, i)));
        assert(escape_dq(a) =~= escape_dq(s.subrange(0, i)) + escape_dq_one(s[i]));
    }
}

/// Appends the double-quote-escaped form of `s` to `out`.
pub fn push_escaped_dq(out: &mut Vec<u8>, s: &[u8])
    ensures
        final(out)@ == old(out)@ + escape_dq(s@),
{
    let mut i: usize = 0;
    while i < s.len()
        invariant
            i <= s@.len(),
            out@ == old(out)@ + escape_dq(s@.subrange(0, i as int)),
        decreases s@.len() - i,
    {
        let b = s[i];
        if b == 34 {
            out.push(38);
            out.push(113);
            out.push(117);
            out.push(111);
            out.push(116);
            out.push(59);
        } else {
            out.push(b);
        }
        proof {
            lemma_escape_dq_step(s@, i as int);
            assert(out@ =~= old(out)@ + escape_dq(s@.subrange(0, i + 1 as int)));
        }
        i = i + 1;
    }
    proof {
        assert(s@.subrange(0, s@.len() as int) =~= s@);
    }
}

} // verus!
