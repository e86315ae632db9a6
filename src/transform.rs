//! The transformation itself: one pass over the input with a `yap` cursor.

use vstd::prelude::*;
use vstd::string::*;
use yap::types::StrTokens;
use crate::model::{
    after_word, header_text, lemma_step_consumes, markdown, param_step, prepend, ref_text, render,
    step, tag_step, trim_start, word, Headers, Tag, TransformError,
};
use crate::scan::{
    lemma_span_len_bound, next_char, skip_span, span_len, take_span, tokens_of, unread, Span,
};
use crate::text::{classify, contains_scheme};

verus! {

/// Relies on `String::push`: appends one character.
#[verifier::external_body]
fn push_char(s: &mut String, c: char)
    ensures
        final(s)@ == old(s)@.push(c),
{
    s.push(c)
}

/// Formats a reference as Markdown: a URL links to itself, anything else is a code link.
pub fn format_ref(w: String) -> (r: String)
    ensures
        r@ == ref_text(w@),
{
    let mut r = String::new();
    if contains_scheme(w.as_str()) {
        r.append("[");
        r.append(w.as_str());
        r.append("](");
        r.append(w.as_str());
        r.append(")");
    } else {
        r.append("[`");
        r.append(w.as_str());
        r.append("`]");
    }
    assert(r@ =~= ref_text(w@));
    r
}

/// Appends `title` and a blank line, unless the header was written before (`done`).
pub fn emit_section_header(out: &mut String, done: bool, title: &str)
    ensures
        final(out)@ == old(out)@ + header_text(done, title@),
{
    if !done {
        out.append(title);
        out.append("\n\n");
    }
    assert(final(out)@ =~= old(out)@ + header_text(done, title@));
}

/// Reads the next word and appends it between `left` and `right`.
fn emit_wrapped(toks: &mut StrTokens<'_>, out: &mut String, left: &str, right: &str)
    ensures
        final(out)@ == old(out)@ + (left@ + word(unread(*old(toks))) + right@),
        unread(*final(toks)) == after_word(unread(*old(toks))),
{
    let w = take_span(toks, Span::Word);
    out.append(left);
    out.append(w.as_str());
    out.append(right);
    assert(final(out)@ =~= old(out)@ + (left@ + word(unread(*old(toks))) + right@));
}

/// Handles a `param` tag: the header, then the argument's name and attribute list.
fn emit_param(
    toks: &mut StrTokens<'_>,
    out: &mut String,
    h: &mut Headers,
) -> (r: Result<(), TransformError>)
    ensures
        match param_step(unread(*old(toks)), *old(h)) {
            Ok((piece, rest, h2)) => r is Ok && final(out)@ == old(out)@ + piece && unread(
                *final(toks),
            ) == rest && *final(h) == h2,
            Err(e) => r == Err::<(), TransformError>(e),
        },
{
    let ghost t = unread(*toks);
    emit_section_header(out, h.arguments, "# Arguments");
    h.arguments = true;
    let argument = take_span(toks, Span::Word);
    proof {
        lemma_span_len_bound(t, Span::Word);
    }
    if argument.unicode_len() > 0 {
        out.append("* `");
        out.append(argument.as_str());
        out.append("`");
        out.append(" -");
        assert(out@ =~= old(out)@ + (header_text(old(h).arguments, "# Arguments"@) + "* `"@
            + word(t) + "`"@ + " -"@));
        return Ok(());
    }
    let open = next_char(toks);
    if open != Some('[') {
        return Err(TransformError::MissingOpenBracket);
    }
    let ghost u = unread(*toks);
    assert(u == t.drop_first());
    let attributes = take_span(toks, Span::Attributes);
    proof {
        lemma_span_len_bound(u, Span::Attributes);
    }
    let ghost v = unread(*toks);
    assert(v == u.skip(span_len(u, Span::Attributes) as int));
    let close = next_char(toks);
    if close != Some(']') {
        return Err(TransformError::MissingCloseBracket);
    }
    assert(unread(*toks) == v.drop_first());
    skip_span(toks, Span::Space);
    let name = take_span(toks, Span::Word);
    assert(name@ == word(trim_start(v.drop_first())));
    assert(attributes@ == u.take(span_len(u, Span::Attributes) as int));
    out.append("* `");
    out.append(name.as_str());
    out.append("`");
    out.append(" [");
    out.append(attributes.as_str());
    out.append("] ");
    out.append(" -");
    assert(out@ =~= old(out)@ + (header_text(old(h).arguments, "# Arguments"@) + "* `"@
        + name@ + "`"@ + " ["@ + attributes@ + "] "@ + " -"@));
    Ok(())
}

/// Handles the tag `marker name`; the cursor stands past the whitespace after the name.
fn dispatch(
    marker: char,
    name: &String,
    toks: &mut StrTokens<'_>,
    out: &mut String,
    h: &mut Headers,
) -> (r: Result<(), TransformError>)
    ensures
        match tag_step(marker, name@, unread(*old(toks)), *old(h)) {
            Ok((piece, rest, h2)) => r is Ok && final(out)@ == old(out)@ + piece && unread(
                *final(toks),
            ) == rest && *final(h) == h2,
            Err(e) => r == Err::<(), TransformError>(e),
        },
{
    let ghost t = unread(*toks);
    match classify(name.as_str()) {
        Tag::Param => {
            return emit_param(toks, out, h);
        },
        Tag::Code => emit_wrapped(toks, out, "`", "`"),
        Tag::Ref => {
            let w = take_span(toks, Span::Word);
            let f = format_ref(w);
            out.append(f.as_str());
        },
        Tag::SeeAlso => {
            emit_section_header(out, h.see_also, "# See also");
            h.see_also = true;
            let w = take_span(toks, Span::Word);
            let f = format_ref(w);
            out.append("> ");
            out.append(f.as_str());
            assert(out@ =~= old(out)@ + (header_text(old(h).see_also, "# See also"@) + "> "@
                + ref_text(word(t))));
        },
        Tag::Italic => emit_wrapped(toks, out, "_", "_"),
        Tag::Bold => emit_wrapped(toks, out, "**", "**"),
        Tag::Note => out.append("> **Note** "),
        Tag::Since => out.append("> **Since** "),
        Tag::Deprecated => out.append("> **Deprecated** "),
        Tag::Remark => out.append("> "),
        Tag::Item => out.append("- "),
        Tag::Heading => out.append("# "),
        Tag::Returns => {
            emit_section_header(out, h.returns, "# Returns");
            h.returns = true;
        },
        Tag::Ignored => {
            assert(out@ =~= old(out)@ + Seq::<char>::empty());
        },
        Tag::Unknown => {
            push_char(out, marker);
            out.append(name.as_str());
            out.append(" ");
            assert(out@ =~= old(out)@ + (seq![marker] + name@ + " "@));
        },
    }
    Ok(())
}

proof fn lemma_prepend_concat(a: Seq<char>, b: Seq<char>, r: Result<Seq<char>, TransformError>)
    ensures
        prepend(a, prepend(b, r)) == prepend(a + b, r),
{
    if let Ok(t) = r {
        assert(a + (b + t) =~= (a + b) + t);
    }
}

/// Transforms a Doxygen-style comment body into Markdown.
pub fn transform(input: &str) -> (r: Result<String, TransformError>)
    ensures
        match markdown(input@) {
            Ok(t) => r is Ok && r->Ok_0@ == t,
            Err(e) => r == Err::<String, TransformError>(e),
        },
{
    let mut toks = tokens_of(input);
    skip_span(&mut toks, Span::Space);
    let mut out = String::new();
    let mut h = Headers { arguments: false, returns: false, see_also: false };
    assert(out@ + Seq::<char>::empty() =~= Seq::<char>::empty());
    loop
        invariant
            prepend(out@, render(unread(toks), h)) == markdown(input@),
        decreases unread(toks).len(),
    {
        let ghost s = unread(toks);
        let ghost h0 = h;
        let ghost out0 = out@;
        match next_char(&mut toks) {
            None => {
                assert(out@ + Seq::<char>::empty() =~= out@);
                return Ok(out);
            },
            Some(c) => {
                proof {
                    lemma_step_consumes(s, h0);
                }
                if c == '@' || c == '\\' {
                    let name = take_span(&mut toks, Span::Word);
                    skip_span(&mut toks, Span::Space);
                    let d = dispatch(c, &name, &mut toks, &mut out, &mut h);
                    if let Err(e) = d {
                        return Err(e);
                    }
                } else if c == '\n' {
                    skip_span(&mut toks, Span::Space);
                    push_char(&mut out, c);
                    assert(out@ =~= out0 + seq!['\n']);
                } else {
                    push_char(&mut out, c);
                    assert(out@ =~= out0 + seq![c]);
                }
                proof {
                    let (piece, rest, h2) = step(s, h0)->Ok_0;
                    lemma_prepend_concat(out0, piece, render(rest, h2));
                }
            },
        }
    }
}

} // verus!
