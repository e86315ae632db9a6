//! Properties of the transformation, proved over its model.

use vstd::prelude::*;
use crate::model::{
    after_word, header_text, is_marker, lemma_step_consumes, markdown, no_headers, prepend,
    ref_text, render, step, tag_of, trim_start, word, Headers, Tag, TransformError,
};
use crate::scan::{in_span, is_separator, is_space, lemma_span_len_bound, span_len, Span};

verus! {

/// `s` with every run of whitespace that follows a line feed taken out.
pub open spec fn collapse_indentation(s: Seq<char>) -> Seq<char>
    decreases s.len(),
{
    if s.len() == 0 {
        Seq::empty()
    } else if s[0] == '\n' {
        proof {
            lemma_span_len_bound(s.drop_first(), Span::Space);
        }
        seq!['\n'] + collapse_indentation(trim_start(s.drop_first()))
    } else {
        seq![s[0]] + collapse_indentation(s.drop_first())
    }
}

proof fn lemma_plain_render(s: Seq<char>, h: Headers)
    requires
        forall|i: int| 0 <= i < s.len() ==> !is_marker(#[trigger] s[i]),
    ensures
        render(s, h) == Ok::<Seq<char>, TransformError>(collapse_indentation(s)),
    decreases s.len(),
{
    if s.len() > 0 {
        let r = s.drop_first();
        lemma_span_len_bound(r, Span::Space);
        let rest = if s[0] == '\n' { trim_start(r) } else { r };
        assert forall|i: int| 0 <= i < rest.len() implies !is_marker(#[trigger] rest[i]) by {
            if s[0] == '\n' {
                assert(rest[i] == s[i + 1 + span_len(r, Span::Space)]);
            } else {
                assert(rest[i] == s[i + 1]);
            }
        }
        lemma_plain_render(rest, h);
    }
}

/// A comment body without `@` or `\` comes out unchanged, but for its leading
/// whitespace and the whitespace that follows each line feed, which are dropped.
pub proof fn lemma_plain_text_kept(s: Seq<char>)
    requires
        forall|i: int| 0 <= i < s.len() ==> !is_marker(#[trigger] s[i]),
    ensures
        markdown(s) == Ok::<Seq<char>, TransformError>(
            collapse_indentation(trim_start(s)),
        ),
{
    let t = trim_start(s);
    lemma_span_len_bound(s, Span::Space);
    assert forall|i: int| 0 <= i < t.len() implies !is_marker(#[trigger] t[i]) by {
        assert(t[i] == s[i + span_len(s, Span::Space)]);
    }
    lemma_plain_render(t, no_headers());
}

proof fn lemma_span_len_of_run(p: Seq<char>, q: Seq<char>, kind: Span)
    requires
        forall|i: int| 0 <= i < p.len() ==> in_span(kind, #[trigger] p[i]),
        q.len() == 0 || !in_span(kind, q[0]),
    ensures
        span_len(p + q, kind) == p.len(),
    decreases p.len(),
{
    if p.len() > 0 {
        assert((p + q).drop_first() =~= p.drop_first() + q);
        lemma_span_len_of_run(p.drop_first(), q, kind);
    } else {
        assert(p + q =~= q);
    }
}

/// An unknown tag, its name a word followed by whitespace that ends the word, is
/// written back as its marker, its name and one space; what follows the whitespace
/// is rendered as before.
pub proof fn lemma_unknown_tag_kept(
    marker: char,
    name: Seq<char>,
    space: Seq<char>,
    rest: Seq<char>,
    h: Headers,
)
    requires
        is_marker(marker),
        forall|i: int| 0 <= i < name.len() ==> !is_separator(#[trigger] name[i]),
        tag_of(name) == Tag::Unknown,
        space.len() > 0,
        is_separator(space[0]),
        forall|i: int| 0 <= i < space.len() ==> is_space(#[trigger] space[i]),
        rest.len() == 0 || !is_space(rest[0]),
    ensures
        render(seq![marker] + name + space + rest, h) == prepend(
            seq![marker] + name + " "@,
            render(rest, h),
        ),
{
    let s = seq![marker] + name + space + rest;
    let r = s.drop_first();
    assert(r =~= name + (space + rest));
    lemma_span_len_of_run(name, space + rest, Span::Word);
    assert(word(r) =~= name);
    assert(after_word(r) =~= space + rest);
    lemma_span_len_of_run(space, rest, Span::Space);
    assert(trim_start(space + rest) =~= rest);
}

/// The three section headers.
#[derive(Clone, Copy, PartialEq, Eq, Structural)]
pub enum Section {
    Arguments,
    Returns,
    SeeAlso,
}

/// The title line of a section.
pub open spec fn title(sec: Section) -> Seq<char> {
    match sec {
        Section::Arguments => "# Arguments"@,
        Section::Returns => "# Returns"@,
        Section::SeeAlso => "# See also"@,
    }
}

/// Whether the header of `sec` is recorded as written in `h`.
pub open spec fn written(h: Headers, sec: Section) -> bool {
    match sec {
        Section::Arguments => h.arguments,
        Section::Returns => h.returns,
        Section::SeeAlso => h.see_also,
    }
}

/// Whether the tag asks for the header of `sec`.
pub open spec fn opens(tag: Tag, sec: Section) -> bool {
    match sec {
        Section::Arguments => tag == Tag::Param,
        Section::Returns => tag == Tag::Returns,
        Section::SeeAlso => tag == Tag::SeeAlso,
    }
}

/// Whether `p` starts with `t`.
pub open spec fn begins_with(p: Seq<char>, t: Seq<char>) -> bool {
    t.len() <= p.len() && p.take(t.len() as int) == t
}

/// The tags that a pass over `s` reads, in order, up to an error.
pub open spec fn tags_read(s: Seq<char>, h: Headers) -> Seq<Tag>
    decreases s.len(),
{
    if s.len() == 0 {
        Seq::empty()
    } else {
        match step(s, h) {
            Err(_) => Seq::empty(),
            Ok((piece, rest, h2)) => {
                proof {
                    lemma_step_consumes(s, h);
                }
                let here = if is_marker(s[0]) {
                    seq![tag_of(word(s.drop_first()))]
                } else {
                    Seq::empty()
                };
                here + tags_read(rest, h2)
            },
        }
    }
}

/// How many pieces of the output of a pass over `s` begin with the title of `sec`.
pub open spec fn header_writes(s: Seq<char>, h: Headers, sec: Section) -> nat
    decreases s.len(),
{
    if s.len() == 0 {
        0
    } else {
        match step(s, h) {
            Err(_) => 0,
            Ok((piece, rest, h2)) => {
                proof {
                    lemma_step_consumes(s, h);
                }
                (if begins_with(piece, title(sec)) {
                    1nat
                } else {
                    0nat
                }) + header_writes(rest, h2, sec)
            },
        }
    }
}

proof fn lemma_differs_at(p: Seq<char>, t: Seq<char>, i: int)
    requires
        0 <= i < t.len(),
        i < p.len() ==> p[i] != t[i],
    ensures
        !begins_with(p, t),
{
    if begins_with(p, t) {
        assert(p.take(t.len() as int)[i] == p[i]);
    }
}

proof fn lemma_begins_with_concat(t: Seq<char>, rest: Seq<char>)
    ensures
        begins_with(t + rest, t),
{
    assert((t + rest).take(t.len() as int) =~= t);
}

proof fn lemma_titles()
    ensures
        "# Arguments"@.len() == 11,
        "# Returns"@.len() == 9,
        "# See also"@.len() == 10,
        "# Arguments"@[0] == '#',
        "# Arguments"@[2] == 'A',
        "# Returns"@[2] == 'R',
        "# See also"@[2] == 'S',
        "# Returns"@[0] == '#',
        "# See also"@[0] == '#',
{
    reveal_strlit("# Arguments");
    reveal_strlit("# Returns");
    reveal_strlit("# See also");
}

/// Of a piece that opens with a section header: which sections it does not begin with.
proof fn lemma_header_piece(sec: Section, other: Section, rest: Seq<char>)
    ensures
        begins_with(title(other) + "\n\n"@ + rest, title(sec)) == (sec == other),
{
    lemma_titles();
    let p = title(other) + "\n\n"@ + rest;
    assert(p =~= title(other) + ("\n\n"@ + rest));
    if sec == other {
        lemma_begins_with_concat(title(sec), "\n\n"@ + rest);
    } else {
        assert(p[2] == title(other)[2]);
        lemma_differs_at(p, title(sec), 2);
    }
}

/// A piece shorter than any title, or whose first character is not `#`, begins with no header.
proof fn lemma_plain_piece(p: Seq<char>, sec: Section)
    requires
        p.len() < 9 || p[0] != '#',
    ensures
        !begins_with(p, title(sec)),
{
    lemma_titles();
    if p.len() < 9 {
        lemma_differs_at(p, title(sec), p.len() as int);
    } else {
        lemma_differs_at(p, title(sec), 0);
    }
}

/// What one step does to a header: the piece begins with it exactly when the step
/// reads a tag that asks for it and it was not written before; it is written afterwards
/// when it was before or the tag asks for it.
proof fn lemma_step_header(s: Seq<char>, h: Headers, sec: Section)
    requires
        s.len() > 0,
        step(s, h) is Ok,
    ensures
        ({
            let (piece, rest, h2) = step(s, h)->Ok_0;
            let asks = is_marker(s[0]) && opens(tag_of(word(s.drop_first())), sec);
            &&& begins_with(piece, title(sec)) == (asks && !written(h, sec))
            &&& written(h2, sec) == (written(h, sec) || asks)
        }),
{
    let (piece, rest, h2) = step(s, h)->Ok_0;
    let c = s[0];
    let name = word(s.drop_first());
    let t = trim_start(after_word(s.drop_first()));
    lemma_titles();
    if !is_marker(c) {
        lemma_plain_piece(piece, sec);
    } else {
        let w = word(t);
        match tag_of(name) {
            Tag::Param => {
                reveal_strlit("* `");
                let tail = piece.skip(header_text(h.arguments, "# Arguments"@).len() as int);
                assert(piece =~= header_text(h.arguments, "# Arguments"@) + tail);
                assert(tail[0] == '*');
                if h.arguments {
                    assert(piece =~= tail);
                    lemma_plain_piece(piece, sec);
                } else {
                    assert(piece =~= title(Section::Arguments) + "\n\n"@ + tail);
                    lemma_header_piece(sec, Section::Arguments, tail);
                }
            },
            Tag::SeeAlso => {
                let tail = "> "@ + ref_text(w);
                reveal_strlit("> ");
                if h.see_also {
                    assert(piece =~= tail);
                    lemma_plain_piece(piece, sec);
                } else {
                    assert(piece =~= title(Section::SeeAlso) + "\n\n"@ + tail);
                    lemma_header_piece(sec, Section::SeeAlso, tail);
                }
            },
            Tag::Returns => {
                if h.returns {
                    lemma_plain_piece(piece, sec);
                } else {
                    assert(piece =~= title(Section::Returns) + "\n\n"@ + Seq::<char>::empty());
                    lemma_header_piece(sec, Section::Returns, Seq::<char>::empty());
                }
            },
            Tag::Code => {
                reveal_strlit("`");
                lemma_plain_piece(piece, sec);
            },
            Tag::Ref => {
                reveal_strlit("[");
                reveal_strlit("[`");
                lemma_plain_piece(piece, sec);
            },
            Tag::Italic => {
                reveal_strlit("_");
                lemma_plain_piece(piece, sec);
            },
            Tag::Bold => {
                reveal_strlit("**");
                lemma_plain_piece(piece, sec);
            },
            Tag::Note => {
                reveal_strlit("> **Note** ");
                lemma_plain_piece(piece, sec);
            },
            Tag::Since => {
                reveal_strlit("> **Since** ");
                lemma_plain_piece(piece, sec);
            },
            Tag::Deprecated => {
                reveal_strlit("> **Deprecated** ");
                lemma_plain_piece(piece, sec);
            },
            Tag::Remark => {
                reveal_strlit("> ");
                lemma_plain_piece(piece, sec);
            },
            Tag::Item => {
                reveal_strlit("- ");
                lemma_plain_piece(piece, sec);
            },
            Tag::Heading => {
                reveal_strlit("# ");
                lemma_plain_piece(piece, sec);
            },
            Tag::Ignored => {
                lemma_plain_piece(piece, sec);
            },
            Tag::Unknown => {
                lemma_plain_piece(piece, sec);
            },
        }
    }
}

/// Whether one of `tags` asks for the header of `sec`.
pub open spec fn asks_for(tags: Seq<Tag>, sec: Section) -> bool {
    exists|i: int| 0 <= i < tags.len() && opens(#[trigger] tags[i], sec)
}

proof fn lemma_header_writes(s: Seq<char>, h: Headers, sec: Section)
    requires
        render(s, h) is Ok,
    ensures
        header_writes(s, h, sec) == (if !written(h, sec) && asks_for(tags_read(s, h), sec) {
            1nat
        } else {
            0nat
        }),
    decreases s.len(),
{
    if s.len() > 0 {
        lemma_step_consumes(s, h);
        let (piece, rest, h2) = step(s, h)->Ok_0;
        lemma_header_writes(rest, h2, sec);
        lemma_step_header(s, h, sec);
        let here = if is_marker(s[0]) {
            seq![tag_of(word(s.drop_first()))]
        } else {
            Seq::empty()
        };
        let later = tags_read(rest, h2);
        let all = tags_read(s, h);
        assert(all == here + later);
        if asks_for(later, sec) {
            let i = choose|i: int| 0 <= i < later.len() && opens(#[trigger] later[i], sec);
            assert(all[here.len() + i] == later[i]);
        }
        if asks_for(all, sec) && !asks_for(later, sec) {
            let i = choose|i: int| 0 <= i < all.len() && opens(#[trigger] all[i], sec);
            if i >= here.len() {
                assert(all[i] == later[i - here.len()]);
            }
        }
        if is_marker(s[0]) && opens(tag_of(word(s.drop_first())), sec) {
            assert(all[0] == here[0]);
        }
    }
}

/// Each section header is written at most once: the output of a comment body that
/// transforms holds exactly one piece that begins with the header's title when one of
/// the tags read asks for that section, and none otherwise.
pub proof fn lemma_header_written_once(s: Seq<char>, sec: Section)
    requires
        markdown(s) is Ok,
    ensures
        header_writes(trim_start(s), no_headers(), sec) == (if asks_for(
            tags_read(trim_start(s), no_headers()),
            sec,
        ) {
            1nat
        } else {
            0nat
        }),
{
    lemma_header_writes(trim_start(s), no_headers(), sec);
}

} // verus!
