//! Shared text-formatting helpers for INI value patches.
//!
//! Star Citizen's `global.ini` renderer interprets a small markup
//! vocabulary: emphasis tags `<EM0>`..`<EM4>` for color, and `\n` literals
//! for line breaks (the INI parser sees the two characters `\` `n`, not a
//! real newline byte).

use vstd::prelude::*;

verus! {

/// Single in-value line break — renders as a newline in the game.
pub const NEWLINE: &'static str = "\\n";

/// Blank line / paragraph break between sections.
pub const PARAGRAPH_BREAK: &'static str = "\\n\\n";

/// In-game emphasis levels (`<EMn>` tags). Named by player-visible intent
/// in the contracts panel — only `Underline` (EM3) and `Highlight` (EM4)
/// render distinctly there.
#[derive(Debug, Clone, Copy, PartialEq, Eq, Structural)]
pub enum Color {
    Plain,
    Faint,
    Soft,
    Underline,
    Highlight,
}

/// The tag name of a color, e.g. `EM4` for `Highlight`.
pub open spec fn color_tag(c: Color) -> Seq<char> {
    match c {
        Color::Plain => "EM0"@,
        Color::Faint => "EM1"@,
        Color::Soft => "EM2"@,
        Color::Underline => "EM3"@,
        Color::Highlight => "EM4"@,
    }
}

/// `<TAG>text</TAG>` for the color's tag.
pub open spec fn colored(c: Color, text: Seq<char>) -> Seq<char> {
    "<"@ + color_tag(c) + ">"@ + text + "</"@ + color_tag(c) + ">"@
}

impl Color {
    pub fn tag(&self) -> (t: &'static str)
        ensures
            t@ == color_tag(*self),
    {
        match self {
            Color::Plain => "EM0",
            Color::Faint => "EM1",
            Color::Soft => "EM2",
            Color::Underline => "EM3",
            Color::Highlight => "EM4",
        }
    }
}

/// Wrap `text` in a color tag pair.
pub fn apply_color(color: Color, text: &str) -> (res: String)
    ensures
        res@ == colored(color, text@),
{
    let tag = color.tag();
    let mut out = String::new();
    out.append("<");
    out.append(tag);
    out.append(">");
    out.append(text);
    out.append("</");
    out.append(tag);
    out.append(">");
    out
}

/// Standard section-header label — wrapped in `Color::Highlight`.
pub fn header(label: &str) -> (res: String)
    ensures
        res@ == colored(Color::Highlight, label@),
{
    apply_color(Color::Highlight, label)
}

/// Wrap text in square brackets — the title-tag convention (`[BP]`, …).
pub fn bracket(label: &str) -> (res: String)
    ensures
        res@ == "["@ + label@ + "]"@,
{
    let mut out = String::new();
    out.append("[");
    out.append(label);
    out.append("]");
    out
}

/// A list-item line: `"- {text}"`.
pub fn bullet(text: &str) -> (res: String)
    ensures
        res@ == "- "@ + text@,
{
    let mut out = String::new();
    out.append("- ");
    out.append(text);
    out
}

} // verus!
