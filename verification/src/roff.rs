//! Low level interface for composing ROFF documents.
//!
//! [ROFF] is a family of Unix text-formatting languages, implemented by the
//! `nroff`, `troff`, and `groff` programs, among others.  [`Roff`] is an
//! abstract representation of a document in ROFF format: an annotated buffer
//! of text slices, each tagged with the [`Escape`] class that governs how it
//! is written out.  [`Roff::render`] walks that buffer once and produces the
//! final document with all escaping applied.
//!
//! [ROFF]: https://en.wikipedia.org/wiki/Roff_(software)

use crate::escape::emit_entry;
use crate::monoid::FreeMonoid;
use vstd::prelude::*;
use vstd::string::StringExecFns;

pub use crate::escape::Apostrophes;
pub use crate::escape::Escape;
pub use crate::escape::esc_entry;
pub use crate::escape::esc_run;
pub use crate::escape::spec_preamble;

verus! {

/// A ROFF document with a low level interface.
#[derive(Debug, Clone)]
pub struct Roff {
    payload: FreeMonoid<Escape>,
    /// Keep or strip newlines from inserted text.
    pub strip_newlines: bool,
}

/// Font selector.
#[derive(Debug, Clone, Copy, PartialEq, Eq, Structural)]
pub enum Font {
    /// Currently selected font.
    Current,
    /// Roman font.
    Roman,
    /// Bold font.
    Bold,
    /// Italic font.
    Italic,
    /// A font that is both bold and italic.
    BoldItalic,
    /// Regular constant width font.
    Mono,
    /// Bold constant width font.
    MonoBold,
    /// Italic constant width font.
    MonoItalic,
}

/// The escape sequence selecting a font, `None` for the current font.
pub open spec fn font_escape(f: Font) -> Option<Seq<char>> {
    match f {
        Font::Current => None,
        Font::Roman => Some("\\fR"@),
        Font::Bold => Some("\\fB"@),
        Font::Italic => Some("\\fI"@),
        Font::BoldItalic => Some("\\f(BI"@),
        Font::Mono => Some("\\f(CR"@),
        Font::MonoBold => Some("\\f(CB"@),
        Font::MonoItalic => Some("\\f(CI"@),
    }
}

/// The escape sequence returning to the previous font.
pub open spec fn spec_restore_font() -> Seq<char> {
    "\\fP"@
}

impl Font {
    /// Escape sequence needed to set this font, `None` for the current font.
    pub(crate) fn escape(self) -> (r: Option<&'static str>)
        ensures
            match r {
                Some(s) => font_escape(self) == Some(s@),
                None => font_escape(self) is None,
            },
    {
        match self {
            Font::Current => None,
            Font::Roman => Some("\\fR"),
            Font::Bold => Some("\\fB"),
            Font::Italic => Some("\\fI"),
            Font::BoldItalic => Some("\\f(BI"),
            Font::Mono => Some("\\f(CR"),
            Font::MonoBold => Some("\\f(CB"),
            Font::MonoItalic => Some("\\f(CI"),
        }
    }
}

/// The buffer entries a list of control-sequence arguments contributes.
pub open spec fn arg_entries(args: Seq<Seq<char>>) -> Seq<(Escape, Seq<char>)>
    decreases args.len(),
{
    if args.len() == 0 {
        Seq::empty()
    } else {
        seq![(Escape::Unescaped, " "@), (Escape::Spaces, args[0])] + arg_entries(
            args.subrange(1, args.len() as int),
        )
    }
}

/// The buffer entries one control sequence contributes.
pub open spec fn control_entries(name: Seq<char>, args: Seq<Seq<char>>) -> Seq<
    (Escape, Seq<char>),
> {
    seq![(Escape::UnescapedAtNewline, "."@), (Escape::Unescaped, name)] + arg_entries(args)
        + seq![(Escape::UnescapedAtNewline, ""@)]
}

/// The escape class plain text gets under the given newline stripping mode.
pub open spec fn plain_class(strip: bool) -> Escape {
    if strip {
        Escape::SpecialNoNewline
    } else {
        Escape::Special
    }
}

/// The font a styled slice leaves selected, given the one selected before it.
pub open spec fn font_after(prev: Option<Font>, f: Font) -> Option<Font> {
    if prev == Some(f) {
        prev
    } else if font_escape(f) is Some {
        Some(f)
    } else {
        prev
    }
}

/// The buffer entries one styled slice contributes, without any closing
/// font restore.
pub open spec fn styled_entries(prev: Option<Font>, f: Font, text: Seq<char>, strip: bool) -> Seq<
    (Escape, Seq<char>),
> {
    if prev == Some(f) {
        seq![(plain_class(strip), text)]
    } else {
        match font_escape(f) {
            Some(e) => seq![(Escape::Unescaped, e), (plain_class(strip), text)],
            None => seq![(plain_class(strip), text)],
        }
    }
}

/// The buffer entries a run of styled slices contributes, without any
/// closing font restore; `prev` is the font selected when the run starts.
pub open spec fn text_partial(
    prev: Option<Font>,
    items: Seq<(Font, Seq<char>)>,
    strip: bool,
) -> Seq<(Escape, Seq<char>)>
    decreases items.len(),
{
    if items.len() == 0 {
        Seq::empty()
    } else {
        styled_entries(prev, items[0].0, items[0].1, strip) + text_partial(
            font_after(prev, items[0].0),
            items.subrange(1, items.len() as int),
            strip,
        )
    }
}

/// The font a run of styled slices leaves selected.
pub open spec fn font_after_run(prev: Option<Font>, items: Seq<(Font, Seq<char>)>) -> Option<
    Font,
>
    decreases items.len(),
{
    if items.len() == 0 {
        prev
    } else {
        font_after_run(font_after(prev, items[0].0), items.subrange(1, items.len() as int))
    }
}

/// The buffer entries a whole [`Roff::text`] call contributes: the styled
/// slices followed by a font restore if any font was selected.
pub open spec fn text_entries(items: Seq<(Font, Seq<char>)>, strip: bool) -> Seq<
    (Escape, Seq<char>),
> {
    text_partial(None, items, strip) + if font_after_run(None, items) is Some {
        seq![(Escape::Unescaped, spec_restore_font())]
    } else {
        Seq::empty()
    }
}

/// The views of a slice of string slices.
pub open spec fn views_of(args: Seq<&str>) -> Seq<Seq<char>> {
    args.map_values(|a: &str| a@)
}

/// The views of a slice of font-tagged string slices.
pub open spec fn font_views_of(items: Seq<(Font, &str)>) -> Seq<(Font, Seq<char>)> {
    items.map_values(|it: (Font, &str)| (it.0, it.1@))
}

impl Roff {
    /// The tagged slices the document holds, in order.
    pub closed spec fn entries(self) -> Seq<(Escape, Seq<char>)> {
        self.payload@
    }

    /// The underlying buffer is well formed.
    pub closed spec fn wf(self) -> bool {
        self.payload.wf()
    }

    /// The current newline stripping mode.
    pub closed spec fn stripping(self) -> bool {
        self.strip_newlines
    }

    /// The byte length of the stored text, control annotations not counted.
    pub closed spec fn byte_length(self) -> usize {
        self.payload.byte_length()
    }

    /// The raw text store behind the entries.
    pub closed spec fn stored_text(self) -> Seq<char> {
        self.payload.stored_text()
    }

    /// Create a new empty ROFF document.
    #[must_use]
    pub fn new() -> (r: Self)
        ensures
            r.wf(),
            r.entries() == Seq::<(Escape, Seq<char>)>::empty(),
            r.stored_text() == Seq::<char>::empty(),
            r.stripping() == false,
    {
        Self { payload: FreeMonoid::default(), strip_newlines: false }
    }

    /// Setter for the `strip_newlines` field.
    ///
    /// `strip_newlines` specifies whether [`render`](Self::render) keeps
    /// newline characters inside added text; newlines carry special meaning
    /// on control lines, so control arguments are always stripped.
    pub fn strip_newlines(&mut self, state: bool)
        ensures
            final(self).wf() == old(self).wf(),
            final(self).entries() == old(self).entries(),
            final(self).stripping() == state,
    {
        self.strip_newlines = state;
    }

    /// The current newline stripping mode.
    pub fn strip_mode(&self) -> (b: bool)
        ensures
            b == self.stripping(),
    {
        self.strip_newlines
    }

    /// Remove all the contents, keeping the stripping mode.
    pub fn clear(&mut self)
        ensures
            final(self).wf(),
            final(self).entries() == Seq::<(Escape, Seq<char>)>::empty(),
            final(self).stored_text() == Seq::<char>::empty(),
            final(self).stripping() == old(self).stripping(),
    {
        self.payload.clear();
    }

    /// Size of the textual part of the payload, in bytes.
    ///
    /// Rendered output includes the escapes and control sequences too, so it
    /// is usually bigger.
    #[must_use]
    pub fn len(&self) -> (n: usize)
        ensures
            n == self.byte_length(),
    {
        self.payload.len()
    }

    /// Check if the document is empty.
    #[must_use]
    pub fn is_empty(&self) -> (r: bool)
        ensures
            r == (self.entries().len() == 0 && self.stored_text().len() == 0),
    {
        self.payload.is_empty()
    }

    /// Insert a raw control sequence.
    ///
    /// `name` should not contain the initial `'.'`.  Arguments are escaped
    /// as control-sequence arguments.
    pub fn control(&mut self, name: &str, args: &[&str])
        requires
            old(self).wf(),
        ensures
            final(self).wf(),
            final(self).entries() == old(self).entries() + control_entries(
                name@,
                views_of(args@),
            ),
            final(self).stripping() == old(self).stripping(),
    {
        self.payload.push(Escape::UnescapedAtNewline, ".");
        self.payload.push(Escape::Unescaped, name);
        for i in 0..args.len()
            invariant
                self.wf(),
                self.stripping() == old(self).stripping(),
                self.payload@ == old(self).entries() + seq![
                    (Escape::UnescapedAtNewline, "."@),
                    (Escape::Unescaped, name@),
                ] + arg_entries(views_of(args@.take(i as int))),
        {
            self.payload.push(Escape::Unescaped, " ");
            self.payload.push(Escape::Spaces, args[i]);
            proof {
                lemma_arg_entries_snoc(views_of(args@.take(i as int)), args@[i as int]@);
                assert(views_of(args@.take(i + 1)) =~= views_of(args@.take(i as int)).push(
                    args@[i as int]@,
                ));
                assert(self.payload@ =~= old(self).entries() + seq![
                    (Escape::UnescapedAtNewline, "."@),
                    (Escape::Unescaped, name@),
                ] + arg_entries(views_of(args@.take(i + 1))));
            }
        }
        self.payload.push(Escape::UnescapedAtNewline, "");
        proof {
            assert(args@.take(args@.len() as int) =~= args@);
            assert(final(self).entries() =~= old(self).entries() + control_entries(
                name@,
                views_of(args@),
            ));
        }
    }

    /// Insert a raw control sequence that takes no arguments.
    pub(crate) fn control0(&mut self, name: &str)
        requires
            old(self).wf(),
        ensures
            final(self).wf(),
            final(self).entries() == old(self).entries() + control_entries(
                name@,
                Seq::<Seq<char>>::empty(),
            ),
            final(self).stripping() == old(self).stripping(),
    {
        self.payload.push(Escape::UnescapedAtNewline, ".");
        self.payload.push(Escape::Unescaped, name);
        self.payload.push(Escape::UnescapedAtNewline, "");
        proof {
            assert(arg_entries(Seq::<Seq<char>>::empty()) == Seq::<(Escape, Seq<char>)>::empty());
            assert(final(self).entries() =~= old(self).entries() + control_entries(
                name@,
                Seq::<Seq<char>>::empty(),
            ));
        }
    }

    /// Insert a raw control sequence that takes one argument.
    pub(crate) fn control1(&mut self, name: &str, arg: &str)
        requires
            old(self).wf(),
        ensures
            final(self).wf(),
            final(self).entries() == old(self).entries() + control_entries(name@, seq![arg@]),
            final(self).stripping() == old(self).stripping(),
    {
        self.payload.push(Escape::UnescapedAtNewline, ".");
        self.payload.push(Escape::Unescaped, name);
        self.payload.push(Escape::Unescaped, " ");
        self.payload.push(Escape::Spaces, arg);
        self.payload.push(Escape::UnescapedAtNewline, "");
        proof {
            let args = seq![arg@];
            assert(args[0] == arg@);
            let sub = args.subrange(1, 1);
            assert(sub =~= Seq::<Seq<char>>::empty());
            assert(arg_entries(args) == seq![(Escape::Unescaped, " "@), (Escape::Spaces, arg@)]
                + arg_entries(sub));
            assert(arg_entries(sub) == Seq::<(Escape, Seq<char>)>::empty());
            assert(final(self).entries() =~= old(self).entries() + control_entries(
                name@,
                args,
            ));
        }
    }

    /// Insert a line break in the ROFF document source.
    ///
    /// This will not show up in the output of the formatter.
    pub fn roff_linebreak(&mut self)
        requires
            old(self).wf(),
        ensures
            final(self).wf(),
            final(self).entries() == old(self).entries() + seq![
                (Escape::UnescapedAtNewline, ""@),
            ],
            final(self).stripping() == old(self).stripping(),
    {
        self.payload.push(Escape::UnescapedAtNewline, "");
    }

    /// Insert a comment in the ROFF document source.
    ///
    /// This will not show up in the output of the formatter.
    pub fn roff_comment(&mut self, text: &str)
        requires
            old(self).wf(),
        ensures
            final(self).wf(),
            final(self).entries() == old(self).entries() + seq![
                (Escape::UnescapedAtNewline, ".\\\" "@),
                (Escape::SpecialNoNewline, text@),
            ],
            final(self).stripping() == old(self).stripping(),
    {
        self.payload.push(Escape::UnescapedAtNewline, ".\\\" ");
        self.payload.push(Escape::SpecialNoNewline, text);
        proof {
            assert(final(self).entries() =~= old(self).entries() + seq![
                (Escape::UnescapedAtNewline, ".\\\" "@),
                (Escape::SpecialNoNewline, text@),
            ]);
        }
    }

    /// Insert a raw escape sequence, copied to the output as is.
    pub fn escape(&mut self, arg: &str)
        requires
            old(self).wf(),
        ensures
            final(self).wf(),
            final(self).entries() == old(self).entries() + seq![(Escape::Unescaped, arg@)],
            final(self).stripping() == old(self).stripping(),
    {
        self.payload.push(Escape::Unescaped, arg);
    }

    /// Insert a plain text string; special characters are escaped, and
    /// newlines are collapsed when stripping is on.
    pub fn plaintext(&mut self, text: &str)
        requires
            old(self).wf(),
        ensures
            final(self).wf(),
            final(self).entries() == old(self).entries() + seq![
                (plain_class(old(self).stripping()), text@),
            ],
            final(self).stripping() == old(self).stripping(),
    {
        if self.strip_newlines {
            self.payload.push(Escape::SpecialNoNewline, text);
        } else {
            self.payload.push(Escape::Special, text);
        }
    }

    /// Insert one or more string slices, each written in its own font.
    ///
    /// A font switch is emitted only when the font changes from the previous
    /// slice, and a single restore escape closes the run if any font was
    /// selected.
    pub fn text(&mut self, items: &[(Font, &str)])
        requires
            old(self).wf(),
        ensures
            final(self).wf(),
            final(self).entries() == old(self).entries() + text_entries(
                font_views_of(items@),
                old(self).stripping(),
            ),
            final(self).stripping() == old(self).stripping(),
    {
        let mut prev_font: Option<Font> = None;
        let n = items.len();
        for i in 0..n
            invariant
                n == items@.len(),
                self.wf(),
                self.stripping() == old(self).stripping(),
                self.payload@ == old(self).entries() + text_partial(
                    None,
                    font_views_of(items@.take(i as int)),
                    old(self).stripping(),
                ),
                prev_font == font_after_run(None, font_views_of(items@.take(i as int))),
        {
            let (font, slice) = items[i];
            let same = match prev_font {
                Some(p) => p == font,
                None => false,
            };
            if same {
                self.plaintext(slice);
            } else {
                match font.escape() {
                    Some(esc) => {
                        self.escape(esc);
                        self.plaintext(slice);
                        prev_font = Some(font);
                    },
                    None => {
                        self.plaintext(slice);
                    },
                }
            }
            proof {
                let pv = font_views_of(items@.take(i as int));
                lemma_text_partial_snoc(pv, (font, slice@), old(self).stripping());
                lemma_font_after_run_snoc(pv, (font, slice@));
                assert(font_views_of(items@.take(i + 1)) =~= pv.push((font, slice@)));
                assert(self.payload@ =~= old(self).entries() + text_partial(
                    None,
                    font_views_of(items@.take(i + 1)),
                    old(self).stripping(),
                ));
            }
        }
        let finish = match prev_font {
            Some(_) => true,
            None => false,
        };
        if finish {
            self.escape("\\fP");
        }
        proof {
            assert(items@.take(n as int) =~= items@);
            assert(final(self).entries() =~= old(self).entries() + text_entries(
                font_views_of(items@),
                old(self).stripping(),
            ));
        }
    }

    /// Append another document's contents after this one's, taking over its
    /// stripping mode.
    pub fn append(&mut self, rhs: &Self)
        requires
            old(self).wf(),
            rhs.wf(),
        ensures
            final(self).wf(),
            final(self).entries() == old(self).entries() + rhs.entries(),
            final(self).stripping() == rhs.stripping(),
    {
        self.payload.append(&rhs.payload);
        self.strip_newlines = rhs.strip_newlines;
    }

    /// Render the document to a `String`, applying all escaping.
    ///
    /// Under [`Apostrophes::Handle`] the output starts with the preamble
    /// that defines the portable apostrophe glyph.
    #[must_use]
    pub fn render(&self, ap: Apostrophes) -> (r: String)
        requires
            self.wf(),
        ensures
            r@ == esc_run(
                if ap == Apostrophes::Handle {
                    spec_preamble()
                } else {
                    Seq::<char>::empty()
                },
                self.entries(),
                ap == Apostrophes::Handle,
            ),
    {
        let mut out = String::new();
        let handle = match ap {
            Apostrophes::Handle => true,
            Apostrophes::DontHandle => false,
        };
        if handle {
            out.append(".ie \\n(.g .ds Aq \\(aq\n.el .ds Aq '\n");
        }
        let ghost init = out@;
        let n = self.payload.entry_count();
        for i in 0..n
            invariant
                n == self.entries().len(),
                self.wf(),
                out@ == esc_run(init, self.entries().take(i as int), handle),
                handle == (ap == Apostrophes::Handle),
                init == if ap == Apostrophes::Handle {
                    spec_preamble()
                } else {
                    Seq::<char>::empty()
                },
        {
            let (class, slice) = self.payload.entry(i);
            emit_entry(&mut out, *class, slice, handle);
            proof {
                lemma_esc_run_snoc(init, self.entries().take(i as int), self.entries()[i as int], handle);
                assert(self.entries().take(i + 1) =~= self.entries().take(i as int).push(
                    self.entries()[i as int],
                ));
            }
        }
        proof {
            assert(self.entries().take(n as int) =~= self.entries());
        }
        out
    }
}

impl Default for Roff {
    /// The empty ROFF document.
    fn default() -> (r: Self)
        ensures
            r.wf(),
            r.entries() == Seq::<(Escape, Seq<char>)>::empty(),
            r.stored_text() == Seq::<char>::empty(),
            r.stripping() == false,
    {
        Self::new()
    }
}

/// Folding one more argument into a control sequence's argument entries.
proof fn lemma_arg_entries_snoc(args: Seq<Seq<char>>, a: Seq<char>)
    ensures
        arg_entries(args.push(a)) == arg_entries(args) + seq![
            (Escape::Unescaped, " "@),
            (Escape::Spaces, a),
        ],
    decreases args.len(),
{
    if args.len() == 0 {
        assert(args.push(a)[0] == a);
        let sub = args.push(a).subrange(1, 1);
        assert(sub =~= Seq::<Seq<char>>::empty());
        assert(arg_entries(args.push(a)) == seq![
            (Escape::Unescaped, " "@),
            (Escape::Spaces, a),
        ] + arg_entries(sub));
        assert(arg_entries(sub) == Seq::<(Escape, Seq<char>)>::empty());
        assert(arg_entries(args) == Seq::<(Escape, Seq<char>)>::empty());
        assert(arg_entries(args.push(a)) =~= arg_entries(args) + seq![
            (Escape::Unescaped, " "@),
            (Escape::Spaces, a),
        ]);
    } else {
        let sub = args.subrange(1, args.len() as int);
        assert(args.push(a)[0] == args[0]);
        assert(args.push(a).subrange(1, args.len() as int + 1) =~= sub.push(a));
        assert(arg_entries(args.push(a)) == seq![
            (Escape::Unescaped, " "@),
            (Escape::Spaces, args[0]),
        ] + arg_entries(sub.push(a)));
        lemma_arg_entries_snoc(sub, a);
        assert(arg_entries(args) == seq![
            (Escape::Unescaped, " "@),
            (Escape::Spaces, args[0]),
        ] + arg_entries(sub));
        assert(arg_entries(args.push(a)) =~= arg_entries(args) + seq![
            (Escape::Unescaped, " "@),
            (Escape::Spaces, a),
        ]);
    }
}

/// Folding one more styled slice into a text run's entries.
proof fn lemma_text_partial_snoc(items: Seq<(Font, Seq<char>)>, it: (Font, Seq<char>), strip: bool)
    ensures
        text_partial(None, items.push(it), strip) == text_partial(None, items, strip)
            + styled_entries(font_after_run(None, items), it.0, it.1, strip),
    decreases items.len(),
{
    lemma_text_partial_snoc_from(None, items, it, strip);
}

/// As [`lemma_text_partial_snoc`], from an arbitrary starting font.
proof fn lemma_text_partial_snoc_from(
    prev: Option<Font>,
    items: Seq<(Font, Seq<char>)>,
    it: (Font, Seq<char>),
    strip: bool,
)
    ensures
        text_partial(prev, items.push(it), strip) == text_partial(prev, items, strip)
            + styled_entries(font_after_run(prev, items), it.0, it.1, strip),
    decreases items.len(),
{
    if items.len() == 0 {
        assert(items.push(it)[0] == it);
        let sub = items.push(it).subrange(1, 1);
        assert(sub =~= Seq::<(Font, Seq<char>)>::empty());
        assert(text_partial(prev, items.push(it), strip) == styled_entries(prev, it.0, it.1, strip)
            + text_partial(font_after(prev, it.0), sub, strip));
        assert(text_partial(font_after(prev, it.0), sub, strip)
            == Seq::<(Escape, Seq<char>)>::empty());
        assert(font_after_run(prev, items) == prev);
        assert(text_partial(prev, items, strip) == Seq::<(Escape, Seq<char>)>::empty());
        assert(text_partial(prev, items.push(it), strip) =~= text_partial(prev, items, strip)
            + styled_entries(font_after_run(prev, items), it.0, it.1, strip));
    } else {
        let fa = font_after(prev, items[0].0);
        let sub = items.subrange(1, items.len() as int);
        assert(items.push(it)[0] == items[0]);
        assert(items.push(it).subrange(1, items.len() as int + 1) =~= sub.push(it));
        assert(text_partial(prev, items.push(it), strip) == styled_entries(
            prev,
            items[0].0,
            items[0].1,
            strip,
        ) + text_partial(fa, sub.push(it), strip));
        lemma_text_partial_snoc_from(fa, sub, it, strip);
        assert(text_partial(prev, items, strip) == styled_entries(prev, items[0].0, items[0].1, strip)
            + text_partial(fa, sub, strip));
        assert(font_after_run(prev, items) == font_after_run(fa, sub));
        assert(text_partial(prev, items.push(it), strip) =~= text_partial(prev, items, strip)
            + styled_entries(font_after_run(prev, items), it.0, it.1, strip));
    }
}

/// Folding one more styled slice into the font left selected by a run.
proof fn lemma_font_after_run_snoc(items: Seq<(Font, Seq<char>)>, it: (Font, Seq<char>))
    ensures
        font_after_run(None, items.push(it)) == font_after(font_after_run(None, items), it.0),
    decreases items.len(),
{
    lemma_font_after_run_snoc_from(None, items, it);
}

/// As [`lemma_font_after_run_snoc`], from an arbitrary starting font.
proof fn lemma_font_after_run_snoc_from(
    prev: Option<Font>,
    items: Seq<(Font, Seq<char>)>,
    it: (Font, Seq<char>),
)
    ensures
        font_after_run(prev, items.push(it)) == font_after(font_after_run(prev, items), it.0),
    decreases items.len(),
{
    if items.len() == 0 {
        assert(items.push(it)[0] == it);
        let sub = items.push(it).subrange(1, 1);
        assert(sub =~= Seq::<(Font, Seq<char>)>::empty());
        assert(font_after_run(prev, items.push(it)) == font_after_run(font_after(prev, it.0), sub));
        assert(font_after_run(font_after(prev, it.0), sub) == font_after(prev, it.0));
        assert(font_after_run(prev, items) == prev);
    } else {
        let fa = font_after(prev, items[0].0);
        let sub = items.subrange(1, items.len() as int);
        assert(items.push(it)[0] == items[0]);
        assert(items.push(it).subrange(1, items.len() as int + 1) =~= sub.push(it));
        assert(font_after_run(prev, items.push(it)) == font_after_run(fa, sub.push(it)));
        lemma_font_after_run_snoc_from(fa, sub, it);
        assert(font_after_run(prev, items) == font_after_run(fa, sub));
    }
}

/// Folding one more entry into an escape run.
proof fn lemma_esc_run_snoc(
    out: Seq<char>,
    s: Seq<(Escape, Seq<char>)>,
    e: (Escape, Seq<char>),
    handle_ap: bool,
)
    ensures
        esc_run(out, s.push(e), handle_ap) == esc_entry(esc_run(out, s, handle_ap), e, handle_ap),
    decreases s.len(),
{
    if s.len() == 0 {
        assert(s.push(e)[0] == e);
        let sub = s.push(e).subrange(1, 1);
        assert(sub =~= Seq::<(Escape, Seq<char>)>::empty());
        assert(esc_run(out, s.push(e), handle_ap) == esc_run(
            esc_entry(out, e, handle_ap),
            sub,
            handle_ap,
        ));
        assert(esc_run(esc_entry(out, e, handle_ap), sub, handle_ap) == esc_entry(
            out,
            e,
            handle_ap,
        ));
        assert(esc_run(out, s, handle_ap) == out);
    } else {
        let out2 = esc_entry(out, s[0], handle_ap);
        let sub = s.subrange(1, s.len() as int);
        assert(s.push(e)[0] == s[0]);
        assert(s.push(e).subrange(1, s.len() as int + 1) =~= sub.push(e));
        assert(esc_run(out, s.push(e), handle_ap) == esc_run(out2, sub.push(e), handle_ap));
        lemma_esc_run_snoc(out2, sub, e, handle_ap);
        assert(esc_run(out, s, handle_ap) == esc_run(out2, sub, handle_ap));
    }
}

} // verus!
