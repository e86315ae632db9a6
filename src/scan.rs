//! A character cursor over the input, kept by `yap`'s `StrTokens`.

use vstd::prelude::*;
use yap::types::StrTokens;
use yap::{IntoTokens, Tokens};

verus! {

/// The kinds of character runs that the scanner reads or skips.
#[derive(Clone, Copy, PartialEq, Eq, Structural)]
pub enum Span {
    /// A word: no space, tab, carriage return, line feed or `[`.
    Word,
    /// The text of an attribute list: anything but `]`.
    Attributes,
    /// ASCII whitespace, line feeds included.
    Space,
}

/// Whether `c` is ASCII whitespace, as `char::is_ascii_whitespace` defines it.
pub open spec fn is_space(c: char) -> bool {
    c == ' ' || c == '\t' || c == '\n' || c == '\x0C' || c == '\r'
}

/// Whether `c` separates words.
pub open spec fn is_separator(c: char) -> bool {
    c == ' ' || c == '\t' || c == '\r' || c == '\n' || c == '['
}

/// Whether `c` belongs to a run of the given kind.
pub open spec fn in_span(kind: Span, c: char) -> bool {
    match kind {
        Span::Word => !is_separator(c),
        Span::Attributes => c != ']',
        Span::Space => is_space(c),
    }
}

/// The length of the longest prefix of `s` made of characters of the run `kind`.
pub open spec fn span_len(s: Seq<char>, kind: Span) -> nat
    decreases s.len(),
{
    if s.len() == 0 || !in_span(kind, s[0]) {
        0
    } else {
        1 + span_len(s.drop_first(), kind)
    }
}

pub proof fn lemma_span_len_bound(s: Seq<char>, kind: Span)
    ensures
        span_len(s, kind) <= s.len(),
        span_len(s, kind) < s.len() ==> !in_span(kind, s[span_len(s, kind) as int]),
    decreases s.len(),
{
    if s.len() > 0 && in_span(kind, s[0]) {
        lemma_span_len_bound(s.drop_first(), kind);
    }
}

/// Executable test of `in_span`.
pub fn char_in_span(kind: Span, c: char) -> (r: bool)
    ensures
        r == in_span(kind, c),
{
    match kind {
        Span::Word => !(c == ' ' || c == '\t' || c == '\r' || c == '\n' || c == '['),
        Span::Attributes => c != ']',
        Span::Space => c == ' ' || c == '\t' || c == '\n' || c == '\x0C' || c == '\r',
    }
}

#[verifier::external_type_specification]
#[verifier::external_body]
pub struct ExStrTokens<'a>(StrTokens<'a>);

/// The characters that a cursor has not consumed yet.
pub uninterp spec fn unread(t: StrTokens<'_>) -> Seq<char>;

/// Relies on `yap`'s `IntoTokens` for `&str`: a cursor at the start of the text.
#[verifier::external_body]
pub(crate) fn tokens_of(s: &str) -> (r: StrTokens<'_>)
    ensures
        unread(r) == s@,
{
    s.into_tokens()
}

/// Relies on `StrTokens::next`: consumes and returns the next character, if any.
#[verifier::external_body]
pub(crate) fn next_char(toks: &mut StrTokens<'_>) -> (r: Option<char>)
    ensures
        unread(*old(toks)).len() == 0 ==> r is None && unread(*final(toks)) == unread(*old(toks)),
        unread(*old(toks)).len() > 0 ==> r == Some(unread(*old(toks))[0])
            && unread(*final(toks)) == unread(*old(toks)).drop_first(),
{
    toks.next()
}

/// Relies on `Tokens::take_while`: consumes the longest run of characters of `kind`
/// and returns it; the first character outside the run stays unread.
#[verifier::external_body]
pub(crate) fn take_span(toks: &mut StrTokens<'_>, kind: Span) -> (r: String)
    ensures
        r@ == unread(*old(toks)).take(span_len(unread(*old(toks)), kind) as int),
        unread(*final(toks)) == unread(*old(toks)).skip(span_len(unread(*old(toks)), kind) as int),
{
    toks.take_while(|c| char_in_span(kind, *c)).collect::<String>()
}

/// Relies on `Tokens::skip_while`: discards the longest run of characters of `kind`.
#[verifier::external_body]
pub(crate) fn skip_span(toks: &mut StrTokens<'_>, kind: Span)
    ensures
        unread(*final(toks)) == unread(*old(toks)).skip(span_len(unread(*old(toks)), kind) as int),
{
    toks.skip_while(|c| char_in_span(kind, *c));
}

} // verus!
