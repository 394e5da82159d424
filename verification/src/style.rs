//! How the library words the labels of its messages and quotes the names in them.
//!
//! Two things here are taken on trust from outside code: the escape sequences that make
//! a terminal show text bold and in colour, and the quoted form of a text.

use vstd::prelude::*;
use vstd::string::*;

verus! {

/// The colours that the labels of messages are shown in.
#[derive(Clone, Copy, Debug, PartialEq, Eq, Structural)]
pub enum Colour {
    /// The colour of warnings.
    Yellow,
    /// The colour of informational messages.
    Cyan,
}

/// The number that selects a colour as the foreground in an escape sequence.
pub open spec fn foreground_code(colour: Colour) -> Seq<char> {
    match colour {
        Colour::Yellow => "33"@,
        Colour::Cyan => "36"@,
    }
}

/// A text between the escape sequence that turns on bold and the foreground colour and
/// the escape sequence that resets every style.
pub open spec fn bold_painted(colour: Colour, text: Seq<char>) -> Seq<char> {
    "\x1B[1;"@ + foreground_code(colour) + "m"@ + text + "\x1B[0m"@
}

/// Calls `ansi_term`: `Colour::bold` gives the style with bold and the foreground
/// colour set, `Style::paint` couples it with the text, and the `Display` of the
/// resulting `ANSIString` writes the style's prefix, the text and the reset sequence.
/// The contract claims that the prefix is the escape character, `[1;`, the colour's
/// foreground code and `m`, and that the reset sequence is the escape character and
/// `[0m`. None of this is proved here.
#[verifier::external_body]
pub(crate) fn paint_bold(colour: Colour, text: &str) -> (r: String)
    ensures
        r@ == bold_painted(colour, text@),
{
    let colour = match colour {
        Colour::Yellow => ansi_term::Colour::Yellow,
        Colour::Cyan => ansi_term::Colour::Cyan,
    };
    colour.bold().paint(text).to_string()
}

/// The quoted form of a text: what the `Debug` formatting of a string slice writes for
/// it, with the quotation marks around it and the escapes inside.
pub uninterp spec fn debug_quoted(text: Seq<char>) -> Seq<char>;

/// Formats a string slice with `{:?}`, which is the `Debug` implementation of `str` in
/// the standard library. The contract only gives the result its name.
#[verifier::external_body]
pub(crate) fn quote(text: &str) -> (r: String)
    ensures
        r@ == debug_quoted(text@),
{
    format!("{:?}", text)
}

/// The label at the head of a message: the word itself, bold and in colour where the
/// terminal supports colour.
pub open spec fn label_text(supports_color: bool, colour: Colour, word: Seq<char>) -> Seq<char> {
    if supports_color {
        bold_painted(colour, word)
    } else {
        word
    }
}

/// Writes the label at the head of a message.
pub fn label(supports_color: bool, colour: Colour, word: &str) -> (r: String)
    ensures
        r@ == label_text(supports_color, colour, word@),
{
    if supports_color {
        paint_bold(colour, word)
    } else {
        String::from_str(word)
    }
}

/// The line that an informational message is printed as.
pub open spec fn info_text(supports_color: bool, message: Seq<char>) -> Seq<char> {
    label_text(supports_color, Colour::Cyan, "info:"@) + " "@ + message + "\n"@
}

/// Words an informational message as the line that is printed for it.
pub fn info_line(supports_color: bool, message: &str) -> (r: String)
    ensures
        r@ == info_text(supports_color, message@),
{
    let mut line = label(supports_color, Colour::Cyan, "info:");
    line.append(" ");
    line.append(message);
    line.append("\n");
    line
}

} // verus!
