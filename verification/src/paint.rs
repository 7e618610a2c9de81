//! Colouring text for a terminal.
use vstd::prelude::*;

use colored::Colorize;

use crate::endpoint::MethodColor;

verus! {

/// How a piece of text is coloured.
#[derive(PartialEq, Eq, Structural, Clone, Copy, Debug)]
pub enum Paint {
    /// Green, as the handle or environment in use is shown.
    Green,
    /// Bold in a colour, as a method is shown.
    Bold(MethodColor),
}

/// The text `text` coloured with `paint`, escape sequences included.
pub uninterp spec fn painted(text: Seq<char>, paint: Paint) -> Seq<char>;

/// `text` as it is shown: coloured with `paint` when there is one and
/// colours are on, else as it is.
pub open spec fn shown(text: Seq<char>, paint: Option<Paint>, colors: bool) -> Seq<char> {
    if colors && paint is Some {
        painted(text, paint->0)
    } else {
        text
    }
}

/// `text` coloured with `paint`.
///
/// Trusted: calls `colored::control::set_override(true)`, then the
/// `Colorize` method of the colour (and `bold`) and `to_string`. With the
/// override set, `colored` writes the style's escape sequence, the text and
/// the reset sequence whatever the environment says, so the result depends
/// on the arguments alone; it is named, not spelled out.
#[verifier::external_body]
fn paint_text(text: &str, paint: Paint) -> (res: String)
    ensures
        res@ == painted(text@, paint),
{
    colored::control::set_override(true);
    let s = match paint {
        Paint::Green => text.green(),
        Paint::Bold(MethodColor::Blue) => text.blue().bold(),
        Paint::Bold(MethodColor::Green) => text.green().bold(),
        Paint::Bold(MethodColor::Yellow) => text.yellow().bold(),
        Paint::Bold(MethodColor::Red) => text.red().bold(),
        Paint::Bold(MethodColor::Cyan) => text.cyan().bold(),
        Paint::Bold(MethodColor::White) => text.white().bold(),
    };
    s.to_string()
}

/// `text` as it is shown with `paint` when colours are `colors`.
pub fn show(text: &str, paint: Option<Paint>, colors: bool) -> (res: String)
    ensures
        res@ == shown(text@, paint, colors),
{
    match paint {
        Some(p) => if colors {
            paint_text(text, p)
        } else {
            crate::text::owned(text)
        },
        None => crate::text::owned(text),
    }
}

} // verus!
