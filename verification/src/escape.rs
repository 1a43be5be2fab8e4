//! Neutralising the characters that are significant in markup.

use vstd::prelude::*;

verus! {

/// What one character becomes in escaped text.
pub open spec fn escaped_char(c: char) -> Seq<char> {
    if c == '&' {
        seq!['&', 'a', 'm', 'p', ';']
    } else if c == '<' {
        seq!['&', 'l', 't', ';']
    } else if c == '>' {
        seq!['&', 'g', 't', ';']
    } else {
        seq![c]
    }
}

/// Escaped text: every character replaced by `escaped_char` of it, in order.
pub open spec fn escaped(s: Seq<char>) -> Seq<char>
    decreases s.len(),
{
    if s.len() == 0 {
        Seq::empty()
    } else {
        escaped(s.drop_last()) + escaped_char(s.last())
    }
}

/// Calls `html_escape::encode_text`.  Trusted: the result is the input with each
/// `&`, `<` and `>` replaced by `&amp;`, `&lt;` and `&gt;`, and every other
/// character kept.
#[verifier::external_body]
pub(crate) fn encode_text(s: &str) -> (out: String)
    ensures
        out@ == escaped(s@),
{
    html_escape::encode_text(s).into_owned()
}

/// What one character becomes in the escaped value of an attribute in single
/// quotes.
pub open spec fn escaped_attribute_char(c: char) -> Seq<char> {
    if c == '\'' {
        seq!['&', '#', 'x', '2', '7', ';']
    } else {
        escaped_char(c)
    }
}

/// The escaped value of an attribute in single quotes: every character
/// replaced by `escaped_attribute_char` of it, in order.
pub open spec fn escaped_attribute(s: Seq<char>) -> Seq<char>
    decreases s.len(),
{
    if s.len() == 0 {
        Seq::empty()
    } else {
        escaped_attribute(s.drop_last()) + escaped_attribute_char(s.last())
    }
}

/// Calls `html_escape::encode_single_quoted_attribute`.  Trusted: the result is
/// the input with each `&`, `<`, `>` and `'` replaced by `&amp;`, `&lt;`, `&gt;`
/// and `&#x27;`, and every other character kept.
#[verifier::external_body]
pub(crate) fn encode_attribute(s: &str) -> (out: String)
    ensures
        out@ == escaped_attribute(s@),
{
    html_escape::encode_single_quoted_attribute(s).into_owned()
}

/// Escaped text contains none of `<` and `>`: no text opens or closes a tag.
pub proof fn lemma_escaped_has_no_angle(s: Seq<char>)
    ensures
        !escaped(s).contains('<'),
        !escaped(s).contains('>'),
    decreases s.len(),
{
    if s.len() > 0 {
        lemma_escaped_has_no_angle(s.drop_last());
        let a = escaped(s.drop_last());
        let b = escaped_char(s.last());
        assert forall|i: int| 0 <= i < (a + b).len() implies (a + b)[i] != '<' && (a + b)[i] != '>' by {
            if i < a.len() {
                assert(a.contains(a[i]));
            }
        }
    }
}

/// An escaped attribute value contains none of `'`, `<` and `>`: no value ends
/// its attribute.
pub proof fn lemma_escaped_attribute_has_no_quote(s: Seq<char>)
    ensures
        !escaped_attribute(s).contains('\''),
        !escaped_attribute(s).contains('<'),
        !escaped_attribute(s).contains('>'),
    decreases s.len(),
{
    if s.len() > 0 {
        lemma_escaped_attribute_has_no_quote(s.drop_last());
        let a = escaped_attribute(s.drop_last());
        let b = escaped_attribute_char(s.last());
        assert forall|i: int| 0 <= i < (a + b).len() implies (a + b)[i] != '\'' && (a + b)[i] != '<'
            && (a + b)[i] != '>' by {
            if i < a.len() {
                assert(a.contains(a[i]));
            }
        }
    }
}

} // verus!
