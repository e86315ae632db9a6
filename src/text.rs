//! Small executable tests on text.

use vstd::prelude::*;
use vstd::string::*;
use crate::model::{has_scheme, tag_of, Tag};

verus! {

/// Whether `a` and `b` hold the same characters.
pub fn same_text(a: &str, b: &str) -> (r: bool)
    ensures
        r == (a@ == b@),
{
    let n = a.unicode_len();
    let m = b.unicode_len();
    if n != m {
        return false;
    }
    let mut i: usize = 0;
    while i < n
        invariant
            i <= n,
            n == a@.len(),
            m == b@.len(),
            n == m,
            forall|j: int| 0 <= j < i ==> a@[j] == b@[j],
        decreases n - i,
    {
        if a.get_char(i) != b.get_char(i) {
            return false;
        }
        i = i + 1;
    }
    assert(a@ =~= b@);
    true
}

/// The tag that `name` denotes.
pub fn classify(name: &str) -> (r: Tag)
    ensures
        r == tag_of(name@),
{
    if same_text(name, "param") {
        Tag::Param
    } else if same_text(name, "c") || same_text(name, "p") {
        Tag::Code
    } else if same_text(name, "ref") {
        Tag::Ref
    } else if same_text(name, "see") || same_text(name, "sa") {
        Tag::SeeAlso
    } else if same_text(name, "a") || same_text(name, "e") || same_text(name, "em") {
        Tag::Italic
    } else if same_text(name, "b") {
        Tag::Bold
    } else if same_text(name, "note") {
        Tag::Note
    } else if same_text(name, "since") {
        Tag::Since
    } else if same_text(name, "deprecated") {
        Tag::Deprecated
    } else if same_text(name, "remark") || same_text(name, "remarks") {
        Tag::Remark
    } else if same_text(name, "li") {
        Tag::Item
    } else if same_text(name, "par") {
        Tag::Heading
    } else if same_text(name, "returns") || same_text(name, "return") || same_text(name, "result") {
        Tag::Returns
    } else if same_text(name, "{") || same_text(name, "}") || same_text(name, "brief")
        || same_text(name, "short") {
        Tag::Ignored
    } else {
        Tag::Unknown
    }
}

/// Whether `w` holds `://`.
pub fn contains_scheme(w: &str) -> (r: bool)
    ensures
        r == has_scheme(w@),
{
    let n = w.unicode_len();
    let mut i: usize = 0;
    while n >= 3 && i <= n - 3
        invariant
            n == w@.len(),
            i <= n,
            forall|j: int| 0 <= j < i && j + 3 <= n ==> #[trigger] w@.subrange(j, j + 3) != "://"@,
        decreases n - i,
    {
        proof {
            reveal_strlit("://");
        }
        if w.get_char(i) == ':' && w.get_char(i + 1) == '/' && w.get_char(i + 2) == '/' {
            assert(w@.subrange(i as int, i + 3) =~= "://"@);
            return true;
        }
        assert(w@.subrange(i as int, i + 3)[0] == w@[i as int]);
        assert(w@.subrange(i as int, i + 3)[1] == w@[i + 1]);
        assert(w@.subrange(i as int, i + 3)[2] == w@[i + 2]);
        i = i + 1;
    }
    false
}

} // verus!
