use owo_colors::OwoColorize;
use vstd::prelude::*;

verus! {

/// Text between two control sequences.
pub open spec fn styled(start: Seq<char>, text: Seq<char>, end: Seq<char>) -> Seq<char> {
    start + text + end
}

/// `owo_colors::OwoColorize::cyan`, displayed: the text in cyan, and then in the default color.
#[verifier::external_body]
pub(crate) fn cyan(text: &str) -> (styled_text: String)
    ensures
        styled_text@ == styled("\x1b[36m"@, text@, "\x1b[39m"@),
{
    text.cyan().to_string()
}

/// `owo_colors::OwoColorize::green`, displayed: the text in green, and then in the default color.
#[verifier::external_body]
pub(crate) fn green(text: &str) -> (styled_text: String)
    ensures
        styled_text@ == styled("\x1b[32m"@, text@, "\x1b[39m"@),
{
    text.green().to_string()
}

/// `owo_colors::OwoColorize::bold`, displayed: the text in bold, and then without any style.
#[verifier::external_body]
pub(crate) fn bold(text: &str) -> (styled_text: String)
    ensures
        styled_text@ == styled("\x1b[1m"@, text@, "\x1b[0m"@),
{
    text.bold().to_string()
}

/// `owo_colors::OwoColorize::dimmed`, displayed: the text dimmed, and then without any style.
#[verifier::external_body]
pub(crate) fn dimmed(text: &str) -> (styled_text: String)
    ensures
        styled_text@ == styled("\x1b[2m"@, text@, "\x1b[0m"@),
{
    text.dimmed().to_string()
}

/// What `textwrap::indent` makes of a text with a prefix.
pub uninterp spec fn indented(text: Seq<char>, prefix: Seq<char>) -> Seq<char>;

/// `textwrap::indent`: the prefix before each line.
#[verifier::external_body]
pub(crate) fn indent(text: &str, prefix: &str) -> (lines: String)
    ensures
        lines@ == indented(text@, prefix@),
{
    textwrap::indent(text, prefix)
}

} // verus!
