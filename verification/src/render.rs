//! How a difference between two texts is shown: the differing words or
//! lines are marked with colours, and the colours are turned into markup.
use vstd::prelude::*;
use crate::options::DiffError;

verus! {

/// `ansi_to_html::Error`: why escape codes were not accepted. Nothing is
/// read from it.
#[verifier::external_type_specification]
#[verifier::external_body]
pub struct ExAnsiError(ansi_to_html::Error);

/// What `prettydiff::diff_words` shows for two texts: the words that were
/// removed and added, marked by ANSI escape codes.
pub uninterp spec fn words_diff(lhs: Seq<char>, rhs: Seq<char>) -> Seq<char>;

/// What `prettydiff::diff_lines` shows for two texts: the lines that were
/// removed and added, marked by ANSI escape codes.
pub uninterp spec fn lines_diff(lhs: Seq<char>, rhs: Seq<char>) -> Seq<char>;

/// What `ansi_to_html::convert` makes of a text with ANSI escape codes;
/// `None` where it does not accept the text.
pub uninterp spec fn ansi_html(ansi: Seq<char>) -> Option<Seq<char>>;

/// Calls `prettydiff::diff_words` and writes the change set out by its
/// `Display`. Claimed: the result depends on the two texts alone.
#[verifier::external_body]
fn diff_words_text(lhs: &str, rhs: &str) -> (out: String)
    ensures
        out@ == words_diff(lhs@, rhs@),
{
    prettydiff::diff_words(lhs, rhs).to_string()
}

/// Calls `prettydiff::diff_lines` and writes the change set out by its
/// `Display`. Claimed: the result depends on the two texts alone.
#[verifier::external_body]
fn diff_lines_text(lhs: &str, rhs: &str) -> (out: String)
    ensures
        out@ == lines_diff(lhs@, rhs@),
{
    prettydiff::diff_lines(lhs, rhs).to_string()
}

/// Calls `ansi_to_html::convert`. Claimed: whether it succeeds, and with
/// what, depends on the text alone.
#[verifier::external_body]
fn ansi_to_markup(ansi: &str) -> (out: Result<String, ansi_to_html::Error>)
    ensures
        out is Ok <==> ansi_html(ansi@) is Some,
        out matches Ok(s) ==> ansi_html(ansi@) == Some(s@),
{
    ansi_to_html::convert(ansi)
}

/// The difference between two texts with its colours still as escape codes:
/// line by line or word by word.
pub open spec fn coloured_diff(lhs: Seq<char>, rhs: Seq<char>, by_lines: bool) -> Seq<char> {
    if by_lines {
        lines_diff(lhs, rhs)
    } else {
        words_diff(lhs, rhs)
    }
}

/// The difference between two texts as markup.
pub open spec fn rendered_diff(lhs: Seq<char>, rhs: Seq<char>, by_lines: bool) -> Result<
    Seq<char>,
    DiffError,
> {
    match ansi_html(coloured_diff(lhs, rhs, by_lines)) {
        Some(markup) => Ok(markup),
        None => Err(DiffError::Render),
    }
}

/// Renders the difference between two texts as markup, line by line or
/// word by word.
pub fn render_diff(lhs: &str, rhs: &str, by_lines: bool) -> (out: Result<String, DiffError>)
    ensures
        crate::html::gives(out, rendered_diff(lhs@, rhs@, by_lines)),
{
    let coloured = if by_lines {
        diff_lines_text(lhs, rhs)
    } else {
        diff_words_text(lhs, rhs)
    };
    match ansi_to_markup(coloured.as_str()) {
        Ok(markup) => Ok(markup),
        Err(_) => Err(DiffError::Render),
    }
}

} // verus!
