//! The meaning of the transformation, stated over character sequences.

use vstd::prelude::*;
use vstd::string::*;
use crate::scan::{lemma_span_len_bound, span_len, Span};

verus! {

/// Why a comment body cannot be transformed: a malformed `param` attribute list.
#[derive(Debug, Clone, Copy, PartialEq, Eq, Structural)]
pub enum TransformError {
    /// A `param` tag without a name is not followed by `[`.
    MissingOpenBracket,
    /// The attribute list of a `param` tag is not closed by `]`.
    MissingCloseBracket,
}

impl TransformError {
    /// A human-readable description of the error.
    pub fn message(&self) -> (r: String)
        ensures
            r@ == match *self {
                TransformError::MissingOpenBracket => "Expected opening '[' inside attribute list"@,
                TransformError::MissingCloseBracket => "Expected closing ']' inside attribute list"@,
            },
    {
        match self {
            TransformError::MissingOpenBracket => String::from_str(
                "Expected opening '[' inside attribute list",
            ),
            TransformError::MissingCloseBracket => String::from_str(
                "Expected closing ']' inside attribute list",
            ),
        }
    }
}

/// Which section headers have been written so far.
#[derive(Clone, Copy)]
pub struct Headers {
    pub arguments: bool,
    pub returns: bool,
    pub see_also: bool,
}

/// The tags that the transformation knows, and the rest.
#[derive(Clone, Copy, PartialEq, Eq, Structural)]
pub enum Tag {
    Param,
    Code,
    Ref,
    SeeAlso,
    Italic,
    Bold,
    Note,
    Since,
    Deprecated,
    Remark,
    Item,
    Heading,
    Returns,
    Ignored,
    Unknown,
}

pub open spec fn no_headers() -> Headers {
    Headers { arguments: false, returns: false, see_also: false }
}

pub open spec fn tag_of(name: Seq<char>) -> Tag {
    if name == "param"@ {
        Tag::Param
    } else if name == "c"@ || name == "p"@ {
        Tag::Code
    } else if name == "ref"@ {
        Tag::Ref
    } else if name == "see"@ || name == "sa"@ {
        Tag::SeeAlso
    } else if name == "a"@ || name == "e"@ || name == "em"@ {
        Tag::Italic
    } else if name == "b"@ {
        Tag::Bold
    } else if name == "note"@ {
        Tag::Note
    } else if name == "since"@ {
        Tag::Since
    } else if name == "deprecated"@ {
        Tag::Deprecated
    } else if name == "remark"@ || name == "remarks"@ {
        Tag::Remark
    } else if name == "li"@ {
        Tag::Item
    } else if name == "par"@ {
        Tag::Heading
    } else if name == "returns"@ || name == "return"@ || name == "result"@ {
        Tag::Returns
    } else if name == "{"@ || name == "}"@ || name == "brief"@ || name == "short"@ {
        Tag::Ignored
    } else {
        Tag::Unknown
    }
}

/// The word at the start of `s`.
pub open spec fn word(s: Seq<char>) -> Seq<char> {
    s.take(span_len(s, Span::Word) as int)
}

/// What follows the word at the start of `s`.
pub open spec fn after_word(s: Seq<char>) -> Seq<char> {
    s.skip(span_len(s, Span::Word) as int)
}

/// `s` without its leading whitespace.
pub open spec fn trim_start(s: Seq<char>) -> Seq<char> {
    s.skip(span_len(s, Span::Space) as int)
}

/// Whether `w` holds `://`, the mark of a URL.
pub open spec fn has_scheme(w: Seq<char>) -> bool {
    exists|i: int| 0 <= i && i + 3 <= w.len() && #[trigger] w.subrange(i, i + 3) == "://"@
}

/// A reference: a link to itself for a URL, else a code link.
pub open spec fn ref_text(w: Seq<char>) -> Seq<char> {
    if has_scheme(w) {
        "["@ + w + "]("@ + w + ")"@
    } else {
        "[`"@ + w + "`]"@
    }
}

/// A section header followed by a blank line, unless it was written before.
pub open spec fn header_text(done: bool, title: Seq<char>) -> Seq<char> {
    if done {
        Seq::empty()
    } else {
        title + "\n\n"@
    }
}

/// One rendered piece of output, the input left after it, and the headers written.
pub type Step = Result<(Seq<char>, Seq<char>, Headers), TransformError>;

/// A `param` tag whose remaining input is `t`.
pub open spec fn param_step(t: Seq<char>, h: Headers) -> Step {
    let head = header_text(h.arguments, "# Arguments"@);
    let h2 = Headers { arguments: true, ..h };
    let arg = word(t);
    if arg.len() > 0 {
        Ok((head + "* `"@ + arg + "`"@ + " -"@, after_word(t), h2))
    } else if t.len() == 0 || t[0] != '[' {
        Err(TransformError::MissingOpenBracket)
    } else {
        let u = t.drop_first();
        let n = span_len(u, Span::Attributes) as int;
        let v = u.skip(n);
        if v.len() == 0 || v[0] != ']' {
            Err(TransformError::MissingCloseBracket)
        } else {
            let x = trim_start(v.drop_first());
            Ok((
                head + "* `"@ + word(x) + "`"@ + " ["@ + u.take(n) + "] "@ + " -"@,
                after_word(x),
                h2,
            ))
        }
    }
}

/// A tag `marker name` whose remaining input, past the whitespace after the name, is `t`.
pub open spec fn tag_step(marker: char, name: Seq<char>, t: Seq<char>, h: Headers) -> Step {
    match tag_of(name) {
        Tag::Param => param_step(t, h),
        Tag::Code => Ok(("`"@ + word(t) + "`"@, after_word(t), h)),
        Tag::Ref => Ok((ref_text(word(t)), after_word(t), h)),
        Tag::SeeAlso => Ok((
            header_text(h.see_also, "# See also"@) + "> "@ + ref_text(word(t)),
            after_word(t),
            Headers { see_also: true, ..h },
        )),
        Tag::Italic => Ok(("_"@ + word(t) + "_"@, after_word(t), h)),
        Tag::Bold => Ok(("**"@ + word(t) + "**"@, after_word(t), h)),
        Tag::Note => Ok(("> **Note** "@, t, h)),
        Tag::Since => Ok(("> **Since** "@, t, h)),
        Tag::Deprecated => Ok(("> **Deprecated** "@, t, h)),
        Tag::Remark => Ok(("> "@, t, h)),
        Tag::Item => Ok(("- "@, t, h)),
        Tag::Heading => Ok(("# "@, t, h)),
        Tag::Returns => Ok((
            header_text(h.returns, "# Returns"@),
            t,
            Headers { returns: true, ..h },
        )),
        Tag::Ignored => Ok((Seq::empty(), t, h)),
        Tag::Unknown => Ok((seq![marker] + name + " "@, t, h)),
    }
}

/// Whether `c` starts a tag.
pub open spec fn is_marker(c: char) -> bool {
    c == '@' || c == '\\'
}

/// The piece of output for the first character of the non-empty `s` and what it consumes.
pub open spec fn step(s: Seq<char>, h: Headers) -> Step {
    let c = s[0];
    let r = s.drop_first();
    if is_marker(c) {
        tag_step(c, word(r), trim_start(after_word(r)), h)
    } else if c == '\n' {
        Ok((seq!['\n'], trim_start(r), h))
    } else {
        Ok((seq![c], r, h))
    }
}

/// `p` before the text of `r`; an error stays as it is.
pub open spec fn prepend(p: Seq<char>, r: Result<Seq<char>, TransformError>) -> Result<
    Seq<char>,
    TransformError,
> {
    match r {
        Ok(t) => Ok(p + t),
        Err(e) => Err(e),
    }
}

/// The Markdown for `s`, given the headers already written.
pub open spec fn render(s: Seq<char>, h: Headers) -> Result<Seq<char>, TransformError>
    decreases s.len(),
{
    if s.len() == 0 {
        Ok(Seq::empty())
    } else {
        match step(s, h) {
            Err(e) => Err(e),
            Ok((piece, rest, h2)) => {
                proof {
                    lemma_step_consumes(s, h);
                }
                prepend(piece, render(rest, h2))
            },
        }
    }
}

/// Every step consumes at least the character that it starts with.
pub proof fn lemma_step_consumes(s: Seq<char>, h: Headers)
    requires
        s.len() > 0,
    ensures
        step(s, h) matches Ok((piece, rest, h2)) ==> rest.len() < s.len(),
{
    let r = s.drop_first();
    lemma_span_len_bound(r, Span::Word);
    let r1 = after_word(r);
    lemma_span_len_bound(r1, Span::Space);
    lemma_span_len_bound(r, Span::Space);
    let t = trim_start(r1);
    lemma_span_len_bound(t, Span::Word);
    if t.len() > 0 {
        let u = t.drop_first();
        lemma_span_len_bound(u, Span::Attributes);
        let v = u.skip(span_len(u, Span::Attributes) as int);
        if v.len() > 0 {
            let w = v.drop_first();
            lemma_span_len_bound(w, Span::Space);
            lemma_span_len_bound(trim_start(w), Span::Word);
        }
    }
}

/// The Markdown for a whole comment body.
pub open spec fn markdown(s: Seq<char>) -> Result<Seq<char>, TransformError> {
    render(trim_start(s), no_headers())
}

} // verus!
