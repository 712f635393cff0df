//! High level interface designed to generate manpages.
//!
//! [`Manpage`] wraps a [`Roff`] document and offers the conventional manpage
//! building blocks: the `.TH` header, `.SH`/`.SS` section headers, indented
//! labels and paragraphs of styled text.

use crate::roff::Apostrophes;
use crate::roff::Font;
use crate::roff::Roff;
use crate::roff::control_entries;
use crate::roff::esc_run;
use crate::roff::spec_preamble;
use crate::roff::text_entries;
use crate::roff::views_of;
use crate::shared::spec_font;
use vstd::prelude::*;

pub use crate::shared::Section;
pub use crate::shared::Style;
use crate::shared::section_code;

verus! {

/// Manpage ROFF document.
#[derive(Debug, Clone)]
pub struct Manpage {
    roff: Roff,
}

/// The arguments of the `.TH` header control line: the title, the section
/// code, and up to three extra metadata strings.
pub open spec fn th_args(title: Seq<char>, code: Seq<char>, extra: Seq<Seq<char>>) -> Seq<
    Seq<char>,
> {
    seq![title, code] + extra.take(
        if extra.len() <= 3 {
            extra.len() as int
        } else {
            3
        },
    )
}

/// The argument list of a control sequence taking one optional argument.
pub open spec fn opt_args(offset: Option<&str>) -> Seq<Seq<char>> {
    match offset {
        Some(o) => seq![o@],
        None => Seq::empty(),
    }
}

/// The views of a slice of styled string slices, as font-tagged slices.
pub open spec fn styled_views_of(items: Seq<(Style, &str)>) -> Seq<(Font, Seq<char>)> {
    items.map_values(|p: (Style, &str)| (spec_font(p.0), p.1@))
}

impl Manpage {
    /// The tagged slices of the underlying ROFF document.
    pub closed spec fn entries(self) -> Seq<(crate::roff::Escape, Seq<char>)> {
        self.roff.entries()
    }

    /// The underlying ROFF document is well formed.
    pub closed spec fn wf(self) -> bool {
        self.roff.wf()
    }

    /// The current newline stripping mode of the underlying document.
    pub closed spec fn stripping(self) -> bool {
        self.roff.stripping()
    }

    /// Create a new manpage with the given `title` in a given `section`.
    ///
    /// `extra` can contain up to 3 items that populate the header and footer
    /// lines: a free form date of the last update, the project or suite the
    /// program belongs to, and a fancier human readable application name.
    pub fn new(title: &str, section: Section, extra: &[&str]) -> (r: Self)
        ensures
            r.wf(),
            r.entries() == control_entries(
                "TH"@,
                th_args(title@, section_code(section), views_of(extra@)),
            ),
            r.stripping() == false,
    {
        let mut roff = Roff::new();
        th_control(&mut roff, title, section, extra);
        Manpage { roff }
    }

    /// Add a new unnumbered section.
    pub fn section(&mut self, title: &str)
        requires
            old(self).wf(),
        ensures
            final(self).wf(),
            final(self).entries() == old(self).entries() + control_entries("SH"@, seq![title@]),
            final(self).stripping() == old(self).stripping(),
    {
        self.roff.control1("SH", title);
    }

    /// Add a new unnumbered subsection.
    pub fn subsection(&mut self, title: &str)
        requires
            old(self).wf(),
        ensures
            final(self).wf(),
            final(self).entries() == old(self).entries() + control_entries("SS"@, seq![title@]),
            final(self).stripping() == old(self).stripping(),
    {
        self.roff.control1("SS", title);
    }

    /// Add a new indented label: a `.TP` control, the styled label text, and
    /// a paragraph break.
    pub fn label(&mut self, offset: Option<&str>, text: &[(Style, &str)])
        requires
            old(self).wf(),
        ensures
            final(self).wf(),
            final(self).entries() == old(self).entries() + control_entries(
                "TP"@,
                opt_args(offset),
            ) + text_entries(styled_views_of(text@), true) + control_entries(
                "PP"@,
                Seq::empty(),
            ),
            final(self).stripping() == old(self).stripping(),
    {
        let strip = self.roff.strip_mode();
        match offset {
            Some(o) => {
                self.roff.control1("TP", o);
                proof {
                    assert(seq![o@] =~= opt_args(offset));
                }
            },
            None => {
                self.roff.control0("TP");
                proof {
                    assert(Seq::<Seq<char>>::empty() =~= opt_args(offset));
                }
            },
        }
        self.roff.strip_newlines(true);
        let fonts = style_fonts(text);
        self.roff.text(fonts.as_slice());
        proof {
            assert(crate::roff::font_views_of(fonts@) =~= styled_views_of(text@));
        }
        self.roff.control0("PP");
        self.roff.strip_newlines(strip);
        proof {
            assert(final(self).entries() =~= old(self).entries() + control_entries(
                "TP"@,
                opt_args(offset),
            ) + text_entries(styled_views_of(text@), true) + control_entries(
                "PP"@,
                Seq::empty(),
            ));
        }
    }

    /// Add a new paragraph of styled text followed by a paragraph break.
    pub fn paragraph(&mut self, text: &[(Style, &str)])
        requires
            old(self).wf(),
        ensures
            final(self).wf(),
            final(self).entries() == old(self).entries() + text_entries(
                styled_views_of(text@),
                true,
            ) + control_entries("PP"@, Seq::empty()),
            final(self).stripping() == true,
    {
        self.roff.strip_newlines(true);
        let fonts = style_fonts(text);
        self.roff.text(fonts.as_slice());
        proof {
            assert(crate::roff::font_views_of(fonts@) =~= styled_views_of(text@));
        }
        self.roff.control0("PP");
        proof {
            assert(final(self).entries() =~= old(self).entries() + text_entries(
                styled_views_of(text@),
                true,
            ) + control_entries("PP"@, Seq::empty()));
        }
    }

    /// Get the raw ROFF stream, for low level additions to the page.
    ///
    /// The stream handed out holds exactly the page's current contents, and
    /// whatever the caller leaves in it is what the page then holds.
    pub fn raw(&mut self) -> (r: &mut Roff)
        ensures
            (*r).wf() == old(self).wf(),
            (*r).entries() == old(self).entries(),
            (*r).stripping() == old(self).stripping(),
            final(self).wf() == final(r).wf(),
            final(self).entries() == final(r).entries(),
            final(self).stripping() == final(r).stripping(),
    {
        &mut self.roff
    }

    /// Render the manpage, with apostrophe handling on.
    #[must_use]
    pub fn render(&self) -> (r: String)
        requires
            self.wf(),
        ensures
            r@ == esc_run(spec_preamble(), self.entries(), true),
    {
        self.roff.render(Apostrophes::Handle)
    }
}

/// Emit the `.TH` header control line for a manpage.
pub(crate) fn th_control(roff: &mut Roff, title: &str, section: Section, extra: &[&str])
    requires
        old(roff).wf(),
    ensures
        final(roff).wf(),
        final(roff).entries() == old(roff).entries() + control_entries(
            "TH"@,
            th_args(title@, section_code(section), views_of(extra@)),
        ),
        final(roff).stripping() == old(roff).stripping(),
{
    let mut args: Vec<&str> = Vec::new();
    args.push(title);
    args.push(section.as_str());
    let take = if extra.len() > 3 {
        3
    } else {
        extra.len()
    };
    for j in 0..take
        invariant
            take <= extra@.len(),
            take == if extra@.len() > 3 {
                3int
            } else {
                extra@.len() as int
            },
            args@.len() == j + 2,
            args@[0]@ == title@,
            args@[1]@ == section_code(section),
            forall|k: int| 0 <= k < j ==> args@[k + 2] == extra@[k],
    {
        args.push(extra[j]);
    }
    roff.control("TH", args.as_slice());
    proof {
        assert(views_of(args@) =~= th_args(title@, section_code(section), views_of(extra@)));
    }
}

/// Map styled slices to font-tagged slices.
fn style_fonts<'a>(text: &[(Style, &'a str)]) -> (r: Vec<(Font, &'a str)>)
    ensures
        crate::roff::font_views_of(r@) == styled_views_of(text@),
{
    let mut r: Vec<(Font, &str)> = Vec::new();
    let n = text.len();
    for i in 0..n
        invariant
            n == text@.len(),
            r@.len() == i,
            forall|k: int|
                0 <= k < i ==> (#[trigger] r@[k]).0 == spec_font(text@[k].0) && r@[k].1
                    == text@[k].1,
    {
        let (style, slice) = text[i];
        r.push((style.font(), slice));
    }
    proof {
        assert(crate::roff::font_views_of(r@) =~= styled_views_of(text@));
    }
    r
}

} // verus!
