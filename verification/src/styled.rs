//! Styled terminal text, carried by cursive's `StyledString`.
//!
//! The library builds its smartlog lines as styled strings so that the
//! terminal front-end can render them with effects. Verus sees the styled
//! string as an opaque container; `styled_text` names the text it holds,
//! and each wrapper states what the called cursive function does to it, as
//! its source shows: the container keeps one source string, and appending
//! appends to it.

use vstd::prelude::*;

verus! {

#[verifier::external_type_specification]
#[verifier::external_body]
#[verifier::reject_recursive_types(T)]
pub struct ExSpannedString<T>(cursive::utils::span::SpannedString<T>);

#[verifier::external_type_specification]
#[verifier::external_body]
pub struct ExStyle(cursive::theme::Style);

/// The text a styled string holds: the concatenation of everything
/// appended to it (its source string).
pub uninterp spec fn styled_text(s: cursive::utils::markup::StyledString) -> Seq<char>;

/// Relies on `SpannedString::new`: the empty styled string holds no text.
#[verifier::external_body]
pub fn st_new() -> (r: cursive::utils::markup::StyledString)
    ensures
        styled_text(r) == Seq::<char>::empty(),
{
    cursive::utils::markup::StyledString::new()
}

/// Relies on `SpannedString::plain`: a plain styled string holds exactly
/// the given text.
#[verifier::external_body]
pub fn st_plain(s: &str) -> (r: cursive::utils::markup::StyledString)
    ensures
        styled_text(r) == s@,
{
    cursive::utils::markup::StyledString::plain(s)
}

/// Relies on `SpannedString::styled` with `Effect::Bold`: the styled
/// string holds exactly the given text, the effect touches only its
/// styling.
#[verifier::external_body]
pub fn st_bold(s: &str) -> (r: cursive::utils::markup::StyledString)
    ensures
        styled_text(r) == s@,
{
    cursive::utils::markup::StyledString::styled(s, cursive::theme::Effect::Bold)
}

/// Relies on `SpannedString::append_plain`: appending plain text appends
/// it to the held text.
#[verifier::external_body]
pub fn st_append_plain(st: &mut cursive::utils::markup::StyledString, s: &str)
    ensures
        styled_text(*final(st)) == styled_text(*old(st)) + s@,
{
    st.append_plain(s)
}

/// Relies on `SpannedString::append`: appending a styled string appends
/// its held text.
#[verifier::external_body]
pub fn st_append(
    st: &mut cursive::utils::markup::StyledString,
    other: cursive::utils::markup::StyledString,
)
    ensures
        styled_text(*final(st)) == styled_text(*old(st)) + styled_text(other),
{
    st.append(other)
}

/// Relies on `SpannedString::source`: the source string is the held text.
#[verifier::external_body]
pub fn st_source(st: &cursive::utils::markup::StyledString) -> (r: String)
    ensures
        r@ == styled_text(*st),
{
    st.source().to_owned()
}

/// The glyphs the renderer draws the graph with.
pub struct Glyphs {
    pub line: String,
    pub line_with_offshoot: String,
    pub slash: String,
    pub vertical_ellipsis: String,
    pub bullet_point: String,
    pub commit_visible: String,
    pub commit_visible_head: String,
    pub commit_hidden: String,
    pub commit_hidden_head: String,
    pub commit_main: String,
    pub commit_main_head: String,
    pub commit_main_hidden: String,
    pub commit_main_hidden_head: String,
}

impl Glyphs {
    /// The plain-text glyph set.
    pub fn text() -> (r: Glyphs)
        ensures
            r.line@ == "|"@,
            r.vertical_ellipsis@ == ":"@,
            r.commit_visible@ == "o"@,
            r.commit_visible_head@ == "@"@,
            r.commit_hidden@ == "x"@,
            r.commit_hidden_head@ == "%"@,
            r.commit_main@ == "O"@,
            r.commit_main_head@ == "@"@,
            r.commit_main_hidden@ == "X"@,
            r.commit_main_hidden_head@ == "%"@,
    {
        Glyphs {
            line: String::from_str("|"),
            line_with_offshoot: String::from_str("|"),
            slash: String::from_str("\\"),
            vertical_ellipsis: String::from_str(":"),
            bullet_point: String::from_str("-"),
            commit_visible: String::from_str("o"),
            commit_visible_head: String::from_str("@"),
            commit_hidden: String::from_str("x"),
            commit_hidden_head: String::from_str("%"),
            commit_main: String::from_str("O"),
            commit_main_head: String::from_str("@"),
            commit_main_hidden: String::from_str("X"),
            commit_main_hidden_head: String::from_str("%"),
        }
    }
}

/// Render a styled string as the plain text the terminal shows for it.
pub fn printable_styled_string(glyphs: &Glyphs, line: &cursive::utils::markup::StyledString) -> (r:
    String)
    ensures
        r@ == styled_text(*line),
{
    st_source(line)
}

} // verus!
