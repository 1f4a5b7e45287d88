//! Terminal styling for diagnostics.  The color library is an external
//! collaborator; the escape sequences it emits are fixed, so each style's
//! effect is stated exactly.

use owo_colors::OwoColorize;
use vstd::prelude::*;

verus! {

/// The bright-red bold styling of a text: the bold and bright-red
/// introducers, the text, then the color and style resets.
pub open spec fn red_bold_of(s: Seq<char>) -> Seq<char> {
    "\x1b[1m\x1b[91m"@ + s + "\x1b[39m\x1b[0m"@
}

/// The bright-blue bold styling of a text.
pub open spec fn blue_bold_of(s: Seq<char>) -> Seq<char> {
    "\x1b[1m\x1b[94m"@ + s + "\x1b[39m\x1b[0m"@
}

/// The plain bold styling of a text.
pub open spec fn bold_of(s: Seq<char>) -> Seq<char> {
    "\x1b[1m"@ + s + "\x1b[0m"@
}

/// Relies on owo_colors' bright_red and bold styles: BoldDisplay writes
/// `ESC[1m`, FgColorDisplay writes BrightRed's `ESC[91m`, then the text,
/// then `ESC[39m` and `ESC[0m`.
#[verifier::external_body]
pub fn red_bold(s: &str) -> (r: String)
    ensures
        r@ == red_bold_of(s@),
{
    format!("{}", s.bright_red().bold())
}

/// Relies on owo_colors' bright_blue and bold styles: as for red, with
/// BrightBlue's `ESC[94m`.
#[verifier::external_body]
pub fn blue_bold(s: &str) -> (r: String)
    ensures
        r@ == blue_bold_of(s@),
{
    format!("{}", s.bright_blue().bold())
}

/// Relies on owo_colors' bold style: `ESC[1m`, the text, `ESC[0m`.
#[verifier::external_body]
pub fn bold(s: &str) -> (r: String)
    ensures
        r@ == bold_of(s@),
{
    format!("{}", s.bold())
}

} // verus!
