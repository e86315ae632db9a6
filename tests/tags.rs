use doxygen_md::{emit_section_header, format_ref, transform, TransformError};

fn md(s: &str) -> String {
    transform(s).unwrap()
}

#[test]
fn plain_text_loses_leading_space_and_indentation() {
    assert_eq!(md("  hello\n   world\n\tend "), "hello\nworld\nend ");
    assert_eq!(md("a  b\r\nc"), "a  b\r\nc");
}

#[test]
fn empty_and_blank_input() {
    assert_eq!(md(""), "");
    assert_eq!(md(" \n\t "), "");
}

#[test]
fn unknown_tag_is_kept() {
    assert_eq!(md("@foo bar"), "@foo bar");
    assert_eq!(md("\\foo bar"), "\\foo bar");
    assert_eq!(md("@paramX desc"), "@paramX desc");
}

#[test]
fn param_with_attributes() {
    assert_eq!(md("@param[in] X desc"), "# Arguments\n\n* `X` [in]  - desc");
    assert_eq!(
        md("@param[out] KeyHandle desc"),
        "# Arguments\n\n* `KeyHandle` [out]  - desc"
    );
}

#[test]
fn param_without_attributes() {
    assert_eq!(md("@param X desc"), "# Arguments\n\n* `X` - desc");
}

#[test]
fn param_missing_close_bracket() {
    assert_eq!(transform("@param[in X desc"), Err(TransformError::MissingCloseBracket));
}

#[test]
fn param_missing_open_bracket() {
    assert_eq!(transform("text @param"), Err(TransformError::MissingOpenBracket));
    assert_eq!(transform("@param \n "), Err(TransformError::MissingOpenBracket));
}

#[test]
fn error_messages() {
    assert_eq!(
        TransformError::MissingOpenBracket.message(),
        "Expected opening '[' inside attribute list"
    );
    assert_eq!(
        TransformError::MissingCloseBracket.message(),
        "Expected closing ']' inside attribute list"
    );
}

#[test]
fn headers_written_once() {
    assert_eq!(
        md("@param a x\n@param b y\n@return r\n@returns s\n@result t"),
        "# Arguments\n\n* `a` - x\n* `b` - y\n# Returns\n\nr\ns\nt"
    );
    assert_eq!(md("@see a\n@sa b"), "# See also\n\n> [`a`]\n> [`b`]");
}

#[test]
fn references() {
    assert_eq!(md("@ref http://x.y z"), "[http://x.y](http://x.y) z");
    assert_eq!(md("@ref Foo z"), "[`Foo`] z");
    assert_eq!(md("\\see https://a.b/c"), "# See also\n\n> [https://a.b/c](https://a.b/c)");
}

#[test]
fn inline_styles() {
    assert_eq!(md("@c x and @p y"), "`x` and `y`");
    assert_eq!(md("@a x @e y @em z @b w"), "_x_ _y_ _z_ **w**");
}

#[test]
fn block_markers() {
    assert_eq!(md("@note hi"), "> **Note** hi");
    assert_eq!(md("\\since 1.0"), "> **Since** 1.0");
    assert_eq!(md("@deprecated old"), "> **Deprecated** old");
    assert_eq!(md("@remark r\n@remarks s"), "> r\n> s");
    assert_eq!(md("\\li one\n \\li two"), "- one\n- two");
    assert_eq!(md("@par Title"), "# Title");
}

#[test]
fn ignored_tags() {
    assert_eq!(md("@brief Short text"), "Short text");
    assert_eq!(md("@short s"), "s");
    assert_eq!(md("@{ a @}"), "a ");
}

#[test]
fn section_header_written_when_not_done() {
    let mut out = String::from("x");
    emit_section_header(&mut out, false, "# Returns");
    assert_eq!(out, "x# Returns\n\n");
    emit_section_header(&mut out, true, "# Returns");
    assert_eq!(out, "x# Returns\n\n");
}

#[test]
fn format_ref_links() {
    assert_eq!(format_ref("a://b".to_string()), "[a://b](a://b)");
    assert_eq!(format_ref("Foo".to_string()), "[`Foo`]");
    assert_eq!(format_ref(":/x".to_string()), "[`:/x`]");
}
