//! Style and manual-section vocabulary shared by the high level interfaces.

use crate::roff::Font;
use vstd::prelude::*;

verus! {

/// Style and meaning of a particular snippet of text.
#[derive(Debug, Clone, Copy, PartialEq, Eq, Structural)]
pub enum Style {
    /// Encased string that is or is a part of an option name inclusive with
    /// dashes, `-f` or `--foo`: something the user types literally.
    Literal,
    /// Metavariable part, `FOO` in `--foo FOO`: something the user replaces
    /// with their own input.
    Metavar,
    /// Monospaced text.
    Mono,
    /// Plain text, no extra decorations.
    Text,
    /// Highlighted part of a text.
    Important,
}

/// The ROFF font of each style: a total mapping with no fallback branch.
pub open spec fn spec_font(s: Style) -> Font {
    match s {
        Style::Metavar => Font::Italic,
        Style::Literal => Font::Bold,
        Style::Text => Font::Roman,
        Style::Important => Font::BoldItalic,
        Style::Mono => Font::Mono,
    }
}

impl Style {
    /// The ROFF font this style renders in.
    pub(crate) fn font(self) -> (f: Font)
        ensures
            f == spec_font(self),
    {
        match self {
            Style::Metavar => Font::Italic,
            Style::Literal => Font::Bold,
            Style::Text => Font::Roman,
            Style::Important => Font::BoldItalic,
            Style::Mono => Font::Mono,
        }
    }
}

/// Manual section of a man page.
#[derive(Debug, Clone, Copy)]
pub enum Section<'a> {
    /// Executable programs or shell commands.
    General,
    /// System calls.
    SystemCall,
    /// Library functions.
    LibraryFunction,
    /// Special files, usually devices.
    SpecialFile,
    /// File formats and conventions.
    FileFormat,
    /// Games.
    Game,
    /// Miscellaneous.
    Misc,
    /// System administration commands.
    Sysadmin,
    /// A custom section with a caller-supplied code.
    Custom(&'a str),
}

/// The section code written into the manpage header: the fixed strings
/// `"1"` to `"8"` for the named categories, the caller's string otherwise.
pub open spec fn section_code(s: Section) -> Seq<char> {
    match s {
        Section::General => "1"@,
        Section::SystemCall => "2"@,
        Section::LibraryFunction => "3"@,
        Section::SpecialFile => "4"@,
        Section::FileFormat => "5"@,
        Section::Game => "6"@,
        Section::Misc => "7"@,
        Section::Sysadmin => "8"@,
        Section::Custom(c) => c@,
    }
}

impl<'a> Section<'a> {
    /// The section code as a string slice.
    pub fn as_str(&self) -> (r: &'a str)
        ensures
            r@ == section_code(*self),
    {
        match *self {
            Section::General => "1",
            Section::SystemCall => "2",
            Section::LibraryFunction => "3",
            Section::SpecialFile => "4",
            Section::FileFormat => "5",
            Section::Game => "6",
            Section::Misc => "7",
            Section::Sysadmin => "8",
            Section::Custom(c) => c,
        }
    }
}

} // verus!
