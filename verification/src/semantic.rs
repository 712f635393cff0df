//! Semantic markup layer.
//!
//! [`Doc`] is a semantic document: an annotated buffer of text fragments,
//! each tagged either with a [`Style`] or with a structural block marker.
//! Block-level builder methods always wrap their content in a matched
//! start/end pair, so documents built through this interface keep a proper
//! nesting discipline.  A finished document renders either to markdown or to
//! a ROFF manpage.

use crate::monoid::FreeMonoid;
use crate::roff::Apostrophes;
use crate::roff::Escape;
use crate::roff::Font;
use crate::roff::Roff;
use crate::roff::control_entries;
use crate::roff::esc_run;
use crate::roff::font_views_of;
use crate::roff::spec_preamble;
use crate::roff::text_entries;
use crate::roff::views_of;
use crate::shared::Section;
use crate::shared::Style;
use crate::shared::section_code;
use crate::shared::spec_font;
use vstd::prelude::*;
use vstd::string::StringExecFns;

verus! {

/// Logical block of text.
///
/// List items are nested within lists, otherwise blocks should go on the
/// top level.
#[derive(Debug, Clone, Copy, PartialEq, Eq, Structural)]
pub enum LogicalBlock {
    /// Section header.
    Section,
    /// Subsection header.
    Subsection,
    /// A paragraph of text.
    Paragraph,
    /// A preformatted block of text.
    Pre,
    /// Unnumbered list, put `ListItem` inside.
    UnnumberedList,
    /// Numbered list, put `ListItem` inside.
    NumberedList,
    /// Definition list, should contain a sequence of `ListKey` and
    /// `ListItem` pairs.
    DefinitionList,
    /// List key, used inside `DefinitionList` only.
    ListKey,
    /// List item, goes in all types of lists.
    ListItem,
}

/// The tag stored with each fragment of a semantic document.
#[derive(Debug, Clone, Copy, PartialEq, Eq, Structural)]
pub enum Sem {
    /// A structural block opens here; the payload text is empty.
    BlockStart(LogicalBlock),
    /// A structural block closes here; the payload text is empty.
    BlockEnd(LogicalBlock),
    /// A styled span of text; the payload is the rendered content.
    Style(Style),
}

/// Semantic document that can be rendered as markdown or as a man page.
#[derive(Debug, Clone)]
pub struct Doc {
    payload: FreeMonoid<Sem>,
}

impl View for Doc {
    type V = Seq<(Sem, Seq<char>)>;

    /// The tagged fragments of the document, in the order they were written.
    closed spec fn view(&self) -> Seq<(Sem, Seq<char>)> {
        self.payload@
    }
}

impl Doc {
    /// The underlying buffer is well formed.
    pub closed spec fn wf(self) -> bool {
        self.payload.wf()
    }
}

impl Default for Doc {
    /// The empty document.
    fn default() -> (r: Self)
        ensures
            r.wf(),
            r@ == Seq::<(Sem, Seq<char>)>::empty(),
    {
        Doc { payload: FreeMonoid::default() }
    }
}

/// The fragments a matched block contributes: a start marker, the content,
/// and an end marker.
pub open spec fn scoped_entries(b: LogicalBlock, inner: Seq<(Sem, Seq<char>)>) -> Seq<
    (Sem, Seq<char>),
> {
    seq![(Sem::BlockStart(b), ""@)] + inner + seq![(Sem::BlockEnd(b), ""@)]
}

/// The fragments a run of writable values contributes, in order.
pub open spec fn sems_of<S: Write>(items: Seq<S>) -> Seq<(Sem, Seq<char>)>
    decreases items.len(),
{
    if items.len() == 0 {
        Seq::empty()
    } else {
        items[0].sem() + sems_of(items.subrange(1, items.len() as int))
    }
}

/// A trait for writing an object containing text and semantic markup into a
/// document.
///
/// It is implemented for string slices, characters, styled fragments,
/// documents, and slices of any of these, so that heterogeneous content can
/// be composed into one tag stream.
pub trait Write {
    /// The tagged fragments this value contributes to a document.
    spec fn sem(&self) -> Seq<(Sem, Seq<char>)>;

    /// The value is fit to be written; composite fragments require their
    /// parts to be well formed.
    spec fn writable(&self) -> bool;

    /// Append the fragment to a semantic document.
    fn write(&self, to: &mut Doc)
        requires
            old(to).wf(),
            self.writable(),
        ensures
            final(to).wf(),
            final(to)@ == old(to)@ + self.sem(),
    ;
}

impl Write for &str {
    open spec fn sem(&self) -> Seq<(Sem, Seq<char>)> {
        seq![(Sem::Style(Style::Text), self@)]
    }

    open spec fn writable(&self) -> bool {
        true
    }

    fn write(&self, to: &mut Doc) {
        to.payload.push(Sem::Style(Style::Text), self);
    }
}

impl Write for char {
    open spec fn sem(&self) -> Seq<(Sem, Seq<char>)> {
        seq![(Sem::Style(Style::Text), seq![*self])]
    }

    open spec fn writable(&self) -> bool {
        true
    }

    fn write(&self, to: &mut Doc) {
        to.payload.push_char(Sem::Style(Style::Text), *self);
    }
}

impl Write for (Style, &str) {
    open spec fn sem(&self) -> Seq<(Sem, Seq<char>)> {
        seq![(Sem::Style(self.0), self.1@)]
    }

    open spec fn writable(&self) -> bool {
        true
    }

    fn write(&self, to: &mut Doc) {
        to.payload.push(Sem::Style(self.0), self.1);
    }
}

/// A single character with an attached style.
#[derive(Debug, Clone, Copy)]
pub struct StyledChar(pub Style, pub char);

impl Write for StyledChar {
    open spec fn sem(&self) -> Seq<(Sem, Seq<char>)> {
        seq![(Sem::Style(self.0), seq![self.1])]
    }

    open spec fn writable(&self) -> bool {
        true
    }

    fn write(&self, to: &mut Doc) {
        to.payload.push_char(Sem::Style(self.0), self.1);
    }
}

impl Write for &Doc {
    open spec fn sem(&self) -> Seq<(Sem, Seq<char>)> {
        self@
    }

    open spec fn writable(&self) -> bool {
        self.wf()
    }

    fn write(&self, to: &mut Doc) {
        to.payload.append(&self.payload);
    }
}

impl<S: Write> Write for &[S] {
    open spec fn sem(&self) -> Seq<(Sem, Seq<char>)> {
        sems_of(self@)
    }

    open spec fn writable(&self) -> bool {
        forall|i: int| 0 <= i < self@.len() ==> (#[trigger] self@[i]).writable()
    }

    fn write(&self, to: &mut Doc) {
        let n = self.len();
        for i in 0..n
            invariant
                n == self@.len(),
                to.wf(),
                forall|j: int| 0 <= j < self@.len() ==> (#[trigger] self@[j]).writable(),
                to@ == old(to)@ + sems_of(self@.take(i as int)),
        {
            self[i].write(to);
            proof {
                lemma_sems_of_snoc(self@.take(i as int), self@[i as int]);
                assert(self@.take(i + 1) =~= self@.take(i as int).push(self@[i as int]));
                assert(to@ =~= old(to)@ + sems_of(self@.take(i + 1)));
            }
        }
        proof {
            assert(self@.take(n as int) =~= self@);
        }
    }
}

impl<S: Write, const N: usize> Write for [S; N] {
    open spec fn sem(&self) -> Seq<(Sem, Seq<char>)> {
        sems_of(self@)
    }

    open spec fn writable(&self) -> bool {
        forall|i: int| 0 <= i < self@.len() ==> (#[trigger] self@[i]).writable()
    }

    fn write(&self, to: &mut Doc) {
        let s: &[S] = self.as_slice();
        proof {
            assert(s@ == self@);
        }
        s.write(to);
    }
}

impl<S: Write, const N: usize> Write for &[S; N] {
    open spec fn sem(&self) -> Seq<(Sem, Seq<char>)> {
        sems_of(self@)
    }

    open spec fn writable(&self) -> bool {
        forall|i: int| 0 <= i < self@.len() ==> (#[trigger] self@[i]).writable()
    }

    fn write(&self, to: &mut Doc) {
        let s: &[S] = (*self).as_slice();
        proof {
            assert(s@ == self@);
        }
        s.write(to);
    }
}

/// Folding one more writable value into a run of fragments.
proof fn lemma_sems_of_snoc<S: Write>(items: Seq<S>, x: S)
    ensures
        sems_of(items.push(x)) == sems_of(items) + x.sem(),
    decreases items.len(),
{
    if items.len() == 0 {
        assert(items.push(x)[0] == x);
        let sub = items.push(x).subrange(1, 1);
        assert(sub =~= Seq::<S>::empty());
        assert(sems_of(items.push(x)) == x.sem() + sems_of(sub));
        assert(sems_of(sub) == Seq::<(Sem, Seq<char>)>::empty());
        assert(sems_of(items) == Seq::<(Sem, Seq<char>)>::empty());
        assert(sems_of(items.push(x)) =~= sems_of(items) + x.sem());
    } else {
        let sub = items.subrange(1, items.len() as int);
        assert(items.push(x)[0] == items[0]);
        assert(items.push(x).subrange(1, items.len() as int + 1) =~= sub.push(x));
        assert(sems_of(items.push(x)) == items[0].sem() + sems_of(sub.push(x)));
        lemma_sems_of_snoc(sub, x);
        assert(sems_of(items) == items[0].sem() + sems_of(sub));
        assert(sems_of(items.push(x)) =~= sems_of(items) + x.sem());
    }
}

impl Doc {
    /// Wrap a fragment in a matched block start/end pair.
    fn scoped<S: Write>(&mut self, b: LogicalBlock, inner: S)
        requires
            old(self).wf(),
            inner.writable(),
        ensures
            final(self).wf(),
            final(self)@ == old(self)@ + scoped_entries(b, inner.sem()),
    {
        self.payload.push(Sem::BlockStart(b), "");
        inner.write(self);
        self.payload.push(Sem::BlockEnd(b), "");
        proof {
            assert(final(self)@ =~= old(self)@ + scoped_entries(b, inner.sem()));
        }
    }

    /// Insert a document section name.
    ///
    /// When rendered as a manpage the name is written in all caps.
    pub fn section(&mut self, name: &str)
        requires
            old(self).wf(),
        ensures
            final(self).wf(),
            final(self)@ == old(self)@ + scoped_entries(
                LogicalBlock::Section,
                seq![(Sem::Style(Style::Text), name@)],
            ),
    {
        self.scoped(LogicalBlock::Section, name);
    }

    /// Insert a document subsection name.
    pub fn subsection(&mut self, name: &str)
        requires
            old(self).wf(),
        ensures
            final(self).wf(),
            final(self)@ == old(self)@ + scoped_entries(
                LogicalBlock::Subsection,
                seq![(Sem::Style(Style::Text), name@)],
            ),
    {
        self.scoped(LogicalBlock::Subsection, name);
    }

    /// Add a paragraph of text.
    ///
    /// Paragraphs are logically separated from each other by empty lines or
    /// indentation.
    pub fn paragraph<S: Write>(&mut self, text: S)
        requires
            old(self).wf(),
            text.writable(),
        ensures
            final(self).wf(),
            final(self)@ == old(self)@ + scoped_entries(LogicalBlock::Paragraph, text.sem()),
    {
        self.scoped(LogicalBlock::Paragraph, text);
    }

    /// Add a preformatted block of text.
    pub fn pre<S: Write>(&mut self, text: S)
        requires
            old(self).wf(),
            text.writable(),
        ensures
            final(self).wf(),
            final(self)@ == old(self)@ + scoped_entries(LogicalBlock::Pre, text.sem()),
    {
        self.scoped(LogicalBlock::Pre, text);
    }

    /// Insert a numbered list.
    ///
    /// Items should contain one or more [`item`](Self::item) fragments.
    pub fn nlist<S: Write>(&mut self, items: S)
        requires
            old(self).wf(),
            items.writable(),
        ensures
            final(self).wf(),
            final(self)@ == old(self)@ + scoped_entries(LogicalBlock::NumberedList, items.sem()),
    {
        self.scoped(LogicalBlock::NumberedList, items);
    }

    /// Insert an unnumbered list.
    ///
    /// Items should contain one or more [`item`](Self::item) fragments.
    pub fn ulist<S: Write>(&mut self, items: S)
        requires
            old(self).wf(),
            items.writable(),
        ensures
            final(self).wf(),
            final(self)@ == old(self)@ + scoped_entries(
                LogicalBlock::UnnumberedList,
                items.sem(),
            ),
    {
        self.scoped(LogicalBlock::UnnumberedList, items);
    }

    /// Insert a definition list.
    ///
    /// Items should contain a combination of [`item`](Self::item),
    /// [`term`](Self::term) or [`definition`](Self::definition) fragments.
    pub fn dlist<S: Write>(&mut self, items: S)
        requires
            old(self).wf(),
            items.writable(),
        ensures
            final(self).wf(),
            final(self)@ == old(self)@ + scoped_entries(
                LogicalBlock::DefinitionList,
                items.sem(),
            ),
    {
        self.scoped(LogicalBlock::DefinitionList, items);
    }

    /// Insert a list item.
    ///
    /// Contents should be text level fragments; for
    /// [`definition lists`](Doc::dlist) this is the term body field.
    pub fn item<S: Write>(&mut self, item: S)
        requires
            old(self).wf(),
            item.writable(),
        ensures
            final(self).wf(),
            final(self)@ == old(self)@ + scoped_entries(LogicalBlock::ListItem, item.sem()),
    {
        self.scoped(LogicalBlock::ListItem, item);
    }

    /// Insert a term into a definition list.
    ///
    /// Contents should be text level fragments.
    pub fn term<T: Write>(&mut self, term: T)
        requires
            old(self).wf(),
            term.writable(),
        ensures
            final(self).wf(),
            final(self)@ == old(self)@ + scoped_entries(LogicalBlock::ListKey, term.sem()),
    {
        self.scoped(LogicalBlock::ListKey, term);
    }

    /// Insert a definition into a definition list.
    ///
    /// Combines both [`term`](Self::term) and [`item`](Self::item): the two
    /// are written as sibling blocks, a key followed by its body.
    pub fn definition<T: Write, D: Write>(&mut self, term: T, definition: D)
        requires
            old(self).wf(),
            term.writable(),
            definition.writable(),
        ensures
            final(self).wf(),
            final(self)@ == old(self)@ + scoped_entries(LogicalBlock::ListKey, term.sem())
                + scoped_entries(LogicalBlock::ListItem, definition.sem()),
    {
        self.scoped(LogicalBlock::ListKey, term);
        self.scoped(LogicalBlock::ListItem, definition);
    }

    /// Append a semantic fragment to a document.
    pub fn push<S: Write>(&mut self, text: &S)
        requires
            old(self).wf(),
            text.writable(),
        ensures
            final(self).wf(),
            final(self)@ == old(self)@ + text.sem(),
    {
        text.write(self);
    }

    /// Append another document after this one.
    pub fn append(&mut self, rhs: &Doc)
        requires
            old(self).wf(),
            rhs.wf(),
        ensures
            final(self).wf(),
            final(self)@ == old(self)@ + rhs@,
    {
        self.payload.append(&rhs.payload);
    }

    /// Monospaced text fragment.
    pub fn mono(&mut self, payload: &str)
        requires
            old(self).wf(),
        ensures
            final(self).wf(),
            final(self)@ == old(self)@ + seq![(Sem::Style(Style::Mono), payload@)],
    {
        self.payload.push(Sem::Style(Style::Mono), payload);
    }

    /// Literal text fragment: something the user types literally, usually a
    /// command name or an option flag name.
    pub fn literal(&mut self, payload: &str)
        requires
            old(self).wf(),
        ensures
            final(self).wf(),
            final(self)@ == old(self)@ + seq![(Sem::Style(Style::Literal), payload@)],
    {
        self.payload.push(Sem::Style(Style::Literal), payload);
    }

    /// Metavariable fragment: something the user replaces with their own
    /// input, usually an argument placeholder.
    pub fn metavar(&mut self, payload: &str)
        requires
            old(self).wf(),
        ensures
            final(self).wf(),
            final(self)@ == old(self)@ + seq![(Sem::Style(Style::Metavar), payload@)],
    {
        self.payload.push(Sem::Style(Style::Metavar), payload);
    }

    /// Plain text fragment.
    pub fn text(&mut self, payload: &str)
        requires
            old(self).wf(),
        ensures
            final(self).wf(),
            final(self)@ == old(self)@ + seq![(Sem::Style(Style::Text), payload@)],
    {
        self.payload.push(Sem::Style(Style::Text), payload);
    }

    /// Important text fragment: used to highlight some text.
    pub fn important(&mut self, payload: &str)
        requires
            old(self).wf(),
        ensures
            final(self).wf(),
            final(self)@ == old(self)@ + seq![(Sem::Style(Style::Important), payload@)],
    {
        self.payload.push(Sem::Style(Style::Important), payload);
    }
}

/// Literal text fragment: something the user types literally.
pub fn literal(payload: &str) -> (r: (Style, &str))
    ensures
        r.0 == Style::Literal,
        r.1@ == payload@,
{
    (Style::Literal, payload)
}

/// Metavariable fragment: something the user replaces with their own input.
pub fn metavar(payload: &str) -> (r: (Style, &str))
    ensures
        r.0 == Style::Metavar,
        r.1@ == payload@,
{
    (Style::Metavar, payload)
}

/// Plain text fragment.
pub fn text(payload: &str) -> (r: (Style, &str))
    ensures
        r.0 == Style::Text,
        r.1@ == payload@,
{
    (Style::Text, payload)
}

/// Monospaced text fragment.
pub fn mono(payload: &str) -> (r: (Style, &str))
    ensures
        r.0 == Style::Mono,
        r.1@ == payload@,
{
    (Style::Mono, payload)
}

/// Important text fragment: attracts the reader's attention.
pub fn important(payload: &str) -> (r: (Style, &str))
    ensures
        r.0 == Style::Important,
        r.1@ == payload@,
{
    (Style::Important, payload)
}

/// The set of inline markdown decorations open at a point of the output.
///
/// The three attributes are independent so that styles sharing one (such as
/// the bold+mono and italic+mono styles) keep its wrapper open across a
/// transition: only the attributes that differ are closed and opened.
#[derive(Debug, Clone, Copy, PartialEq, Eq, Structural)]
pub struct Styles {
    /// A `<tt>` wrapper is open.
    pub mono: bool,
    /// A `<b>` wrapper is open.
    pub bold: bool,
    /// An `<i>` wrapper is open.
    pub italic: bool,
}

/// No decorations open.
pub open spec fn no_styles() -> Styles {
    Styles { mono: false, bold: false, italic: false }
}

/// The markdown decorations of each style: a total mapping with no
/// fallback branch.
pub open spec fn spec_styles(s: Style) -> Styles {
    match s {
        Style::Literal => Styles { mono: true, bold: true, italic: false },
        Style::Metavar => Styles { mono: true, bold: false, italic: true },
        Style::Mono => Styles { mono: true, bold: false, italic: false },
        Style::Text => Styles { mono: false, bold: false, italic: false },
        Style::Important => Styles { mono: false, bold: true, italic: false },
    }
}

/// The markdown decorations a style renders in.
pub fn styles_of(s: Style) -> (r: Styles)
    ensures
        r == spec_styles(s),
{
    match s {
        Style::Literal => Styles { mono: true, bold: true, italic: false },
        Style::Metavar => Styles { mono: true, bold: false, italic: true },
        Style::Mono => Styles { mono: true, bold: false, italic: false },
        Style::Text => Styles { mono: false, bold: false, italic: false },
        Style::Important => Styles { mono: false, bold: true, italic: false },
    }
}

/// The tags emitted when moving from one set of open decorations to
/// another: only the differing attributes are closed and opened, innermost
/// first on the way out, outermost first on the way in, so that a shared
/// attribute (the mono wrapper of the bold+mono and italic+mono styles)
/// stays open across the transition.
pub open spec fn style_transition(cur: Styles, new: Styles) -> Seq<char> {
    (if cur.italic && !new.italic {
        "</i>"@
    } else {
        Seq::<char>::empty()
    }) + (if cur.bold && !new.bold {
        "</b>"@
    } else {
        Seq::<char>::empty()
    }) + (if cur.mono && !new.mono {
        "</tt>"@
    } else {
        Seq::<char>::empty()
    }) + (if !cur.mono && new.mono {
        "<tt>"@
    } else {
        Seq::<char>::empty()
    }) + (if !cur.bold && new.bold {
        "<b>"@
    } else {
        Seq::<char>::empty()
    }) + (if !cur.italic && new.italic {
        "<i>"@
    } else {
        Seq::<char>::empty()
    })
}

/// Emit the transition from the decorations in `cur` to `new`, and record
/// `new` as the open set.
#[verifier::rlimit(60)]
fn change_style(res: &mut String, cur: &mut Styles, new: Styles)
    ensures
        final(res)@ == old(res)@ + style_transition(*old(cur), new),
        *final(cur) == new,
{
    let ghost o0 = res@;
    let ghost p1: Seq<char> = if cur.italic && !new.italic {
        "</i>"@
    } else {
        Seq::<char>::empty()
    };
    let ghost p2: Seq<char> = if cur.bold && !new.bold {
        "</b>"@
    } else {
        Seq::<char>::empty()
    };
    let ghost p3: Seq<char> = if cur.mono && !new.mono {
        "</tt>"@
    } else {
        Seq::<char>::empty()
    };
    let ghost p4: Seq<char> = if !cur.mono && new.mono {
        "<tt>"@
    } else {
        Seq::<char>::empty()
    };
    let ghost p5: Seq<char> = if !cur.bold && new.bold {
        "<b>"@
    } else {
        Seq::<char>::empty()
    };
    let ghost p6: Seq<char> = if !cur.italic && new.italic {
        "<i>"@
    } else {
        Seq::<char>::empty()
    };
    if cur.italic && !new.italic {
        res.append("</i>");
    }
    proof {
        assert(res@ =~= o0 + p1);
    }
    if cur.bold && !new.bold {
        res.append("</b>");
    }
    proof {
        assert(res@ =~= o0 + p1 + p2);
    }
    if cur.mono && !new.mono {
        res.append("</tt>");
    }
    proof {
        assert(res@ =~= o0 + p1 + p2 + p3);
    }
    if !cur.mono && new.mono {
        res.append("<tt>");
    }
    proof {
        assert(res@ =~= o0 + p1 + p2 + p3 + p4);
    }
    if !cur.bold && new.bold {
        res.append("<b>");
    }
    proof {
        assert(res@ =~= o0 + p1 + p2 + p3 + p4 + p5);
    }
    if !cur.italic && new.italic {
        res.append("<i>");
    }
    proof {
        assert(res@ =~= o0 + p1 + p2 + p3 + p4 + p5 + p6);
    }
    *cur = new;
    proof {
        assert(final(res)@ =~= old(res)@ + style_transition(*old(cur), new));
    }
}

/// Output separated from prior content by a full blank line: nothing is
/// added to an empty output or after an existing blank line, so no double
/// blanks and no blank at document start.
pub open spec fn blank_line_s(out: Seq<char>) -> Seq<char> {
    if out.len() == 0 || (out.len() >= 2 && out[out.len() - 1] == '\n' && out[out.len() - 2]
        == '\n') {
        out
    } else {
        crate::escape::fresh_line(out).push('\n')
    }
}

/// Make it so new text is separated from prior content by an empty line.
fn emit_blank_line(res: &mut String)
    ensures
        final(res)@ == blank_line_s(old(res)@),
{
    let n = res.as_str().unicode_len();
    let ends_blank = n >= 2 && res.as_str().get_char(n - 1) == '\n' && res.as_str().get_char(
        n - 2,
    ) == '\n';
    if n != 0 && !ends_blank {
        crate::escape::emit_fresh_line(res);
        crate::escape::push_char(res, '\n');
    }
}

/// The state the markdown renderer carries across one forward pass.
pub struct MdState {
    /// The output produced so far.
    pub out: Seq<char>,
    /// The inline decorations currently open.
    pub cur: Styles,
    /// Inside a definition list, so list items close and open as `<dd>`.
    pub is_dlist: bool,
}

/// The renderer's starting state.
pub open spec fn md_init() -> MdState {
    MdState { out: Seq::empty(), cur: no_styles(), is_dlist: false }
}

/// All open decorations force-closed, as happens at any structural tag and
/// at the end of the document.
pub open spec fn md_close_styles(st: MdState) -> MdState {
    MdState {
        out: st.out + style_transition(st.cur, no_styles()),
        cur: no_styles(),
        is_dlist: st.is_dlist,
    }
}

/// The markdown a block opening emits, and the list context it sets.
pub open spec fn md_block_start(st: MdState, b: LogicalBlock) -> MdState {
    match b {
        LogicalBlock::DefinitionList => MdState {
            out: blank_line_s(st.out) + "<dl>"@,
            cur: st.cur,
            is_dlist: true,
        },
        LogicalBlock::NumberedList => MdState {
            out: blank_line_s(st.out) + "<ol>"@,
            cur: st.cur,
            is_dlist: false,
        },
        LogicalBlock::UnnumberedList => MdState {
            out: blank_line_s(st.out) + "<ul>"@,
            cur: st.cur,
            is_dlist: false,
        },
        LogicalBlock::ListItem => MdState {
            out: crate::escape::fresh_line(st.out) + if st.is_dlist {
                "<dd>"@
            } else {
                "<li>"@
            },
            cur: st.cur,
            is_dlist: st.is_dlist,
        },
        LogicalBlock::ListKey => MdState {
            out: crate::escape::fresh_line(st.out) + "<dt>"@,
            cur: st.cur,
            is_dlist: st.is_dlist,
        },
        LogicalBlock::Paragraph => MdState {
            out: blank_line_s(st.out) + "<p>"@,
            cur: st.cur,
            is_dlist: st.is_dlist,
        },
        LogicalBlock::Pre => MdState {
            out: blank_line_s(st.out) + "<pre>"@,
            cur: st.cur,
            is_dlist: st.is_dlist,
        },
        LogicalBlock::Section => MdState {
            out: blank_line_s(st.out) + "# "@,
            cur: st.cur,
            is_dlist: st.is_dlist,
        },
        LogicalBlock::Subsection => MdState {
            out: blank_line_s(st.out) + "## "@,
            cur: st.cur,
            is_dlist: st.is_dlist,
        },
    }
}

/// The markdown a block closing emits.
pub open spec fn md_block_end(st: MdState, b: LogicalBlock) -> MdState {
    match b {
        LogicalBlock::DefinitionList => MdState {
            out: st.out + "</dl>"@,
            cur: st.cur,
            is_dlist: st.is_dlist,
        },
        LogicalBlock::UnnumberedList => MdState {
            out: st.out + "</ul>"@,
            cur: st.cur,
            is_dlist: st.is_dlist,
        },
        LogicalBlock::NumberedList => MdState {
            out: st.out + "</ol>"@,
            cur: st.cur,
            is_dlist: st.is_dlist,
        },
        LogicalBlock::ListItem => MdState {
            out: st.out + if st.is_dlist {
                "</dd>"@
            } else {
                "</li>"@
            },
            cur: st.cur,
            is_dlist: st.is_dlist,
        },
        LogicalBlock::ListKey => MdState {
            out: st.out + "</dt>"@,
            cur: st.cur,
            is_dlist: st.is_dlist,
        },
        LogicalBlock::Paragraph => MdState {
            out: st.out + "</p>"@,
            cur: st.cur,
            is_dlist: st.is_dlist,
        },
        LogicalBlock::Pre => MdState {
            out: st.out + "</pre>"@,
            cur: st.cur,
            is_dlist: st.is_dlist,
        },
        LogicalBlock::Section => MdState {
            out: blank_line_s(st.out),
            cur: st.cur,
            is_dlist: st.is_dlist,
        },
        LogicalBlock::Subsection => MdState {
            out: blank_line_s(st.out),
            cur: st.cur,
            is_dlist: st.is_dlist,
        },
    }
}

/// One tagged fragment processed by the markdown renderer.
pub open spec fn md_step(st: MdState, e: (Sem, Seq<char>)) -> MdState {
    match e.0 {
        Sem::Style(sty) => {
            let new = spec_styles(sty);
            MdState {
                out: st.out + style_transition(st.cur, new) + e.1,
                cur: new,
                is_dlist: st.is_dlist,
            }
        },
        Sem::BlockStart(b) => md_block_start(md_close_styles(st), b),
        Sem::BlockEnd(b) => md_block_end(md_close_styles(st), b),
    }
}

/// A whole tag stream processed by the markdown renderer, left to right.
pub open spec fn md_run(st: MdState, s: Seq<(Sem, Seq<char>)>) -> MdState
    decreases s.len(),
{
    if s.len() == 0 {
        st
    } else {
        md_run(md_step(st, s[0]), s.subrange(1, s.len() as int))
    }
}

/// Folding one more fragment into a markdown render.
proof fn lemma_md_run_snoc(st: MdState, s: Seq<(Sem, Seq<char>)>, e: (Sem, Seq<char>))
    ensures
        md_run(st, s.push(e)) == md_step(md_run(st, s), e),
    decreases s.len(),
{
    if s.len() == 0 {
        assert(s.push(e)[0] == e);
        let sub = s.push(e).subrange(1, 1);
        assert(sub =~= Seq::<(Sem, Seq<char>)>::empty());
        assert(md_run(st, s.push(e)) == md_run(md_step(st, e), sub));
        assert(md_run(md_step(st, e), sub) == md_step(st, e));
        assert(md_run(st, s) == st);
    } else {
        let st2 = md_step(st, s[0]);
        let sub = s.subrange(1, s.len() as int);
        assert(s.push(e)[0] == s[0]);
        assert(s.push(e).subrange(1, s.len() as int + 1) =~= sub.push(e));
        assert(md_run(st, s.push(e)) == md_run(st2, sub.push(e)));
        lemma_md_run_snoc(st2, sub, e);
        assert(md_run(st, s) == md_run(st2, sub));
    }
}

/// The markdown rendering of a whole document: a single forward pass, then
/// all decorations still open are closed.
pub open spec fn markdown_of(entries: Seq<(Sem, Seq<char>)>) -> Seq<char> {
    let st = md_run(md_init(), entries);
    st.out + style_transition(st.cur, no_styles())
}

impl Doc {
    /// Render the semantic document into markdown.
    ///
    /// The markup leans on HTML block elements, which keeps documentation
    /// renderers from rewriting dashes and similar characters.
    #[must_use]
    pub fn render_to_markdown(&self) -> (r: String)
        requires
            self.wf(),
        ensures
            r@ == markdown_of(self@),
    {
        let mut res = String::new();
        let mut cur = Styles { mono: false, bold: false, italic: false };
        let mut is_dlist = false;
        let n = self.payload.entry_count();
        for i in 0..n
            invariant
                n == self@.len(),
                self.wf(),
                res@ == md_run(md_init(), self@.take(i as int)).out,
                cur == md_run(md_init(), self@.take(i as int)).cur,
                is_dlist == md_run(md_init(), self@.take(i as int)).is_dlist,
        {
            let ghost st = md_run(md_init(), self@.take(i as int));
            proof {
                lemma_md_run_snoc(md_init(), self@.take(i as int), self@[i as int]);
                assert(self@.take(i + 1) =~= self@.take(i as int).push(self@[i as int]));
            }
            let (meta, slice) = self.payload.entry(i);
            match *meta {
                Sem::Style(sty) => {
                    let new = styles_of(sty);
                    change_style(&mut res, &mut cur, new);
                    res.append(slice);
                },
                Sem::BlockStart(b) => {
                    change_style(
                        &mut res,
                        &mut cur,
                        Styles { mono: false, bold: false, italic: false },
                    );
                    match b {
                        LogicalBlock::DefinitionList => {
                            emit_blank_line(&mut res);
                            is_dlist = true;
                            res.append("<dl>");
                        },
                        LogicalBlock::NumberedList => {
                            emit_blank_line(&mut res);
                            is_dlist = false;
                            res.append("<ol>");
                        },
                        LogicalBlock::UnnumberedList => {
                            emit_blank_line(&mut res);
                            is_dlist = false;
                            res.append("<ul>");
                        },
                        LogicalBlock::ListItem => {
                            crate::escape::emit_fresh_line(&mut res);
                            if is_dlist {
                                res.append("<dd>");
                            } else {
                                res.append("<li>");
                            }
                        },
                        LogicalBlock::ListKey => {
                            crate::escape::emit_fresh_line(&mut res);
                            res.append("<dt>");
                        },
                        LogicalBlock::Paragraph => {
                            emit_blank_line(&mut res);
                            res.append("<p>");
                        },
                        LogicalBlock::Pre => {
                            emit_blank_line(&mut res);
                            res.append("<pre>");
                        },
                        LogicalBlock::Section => {
                            emit_blank_line(&mut res);
                            res.append("# ");
                        },
                        LogicalBlock::Subsection => {
                            emit_blank_line(&mut res);
                            res.append("## ");
                        },
                    }
                },
                Sem::BlockEnd(b) => {
                    change_style(
                        &mut res,
                        &mut cur,
                        Styles { mono: false, bold: false, italic: false },
                    );
                    match b {
                        LogicalBlock::DefinitionList => {
                            res.append("</dl>");
                        },
                        LogicalBlock::UnnumberedList => {
                            res.append("</ul>");
                        },
                        LogicalBlock::NumberedList => {
                            res.append("</ol>");
                        },
                        LogicalBlock::ListItem => {
                            if is_dlist {
                                res.append("</dd>");
                            } else {
                                res.append("</li>");
                            }
                        },
                        LogicalBlock::ListKey => {
                            res.append("</dt>");
                        },
                        LogicalBlock::Paragraph => {
                            res.append("</p>");
                        },
                        LogicalBlock::Pre => {
                            res.append("</pre>");
                        },
                        LogicalBlock::Section => {
                            emit_blank_line(&mut res);
                        },
                        LogicalBlock::Subsection => {
                            emit_blank_line(&mut res);
                        },
                    }
                },
            }
            proof {
                assert(md_run(md_init(), self@.take(i + 1)) == md_step(st, self@[i as int]));
                assert(res@ =~= md_step(st, self@[i as int]).out);
            }
        }
        change_style(&mut res, &mut cur, Styles { mono: false, bold: false, italic: false });
        proof {
            assert(self@.take(n as int) =~= self@);
            assert(res@ =~= markdown_of(self@));
        }
        res
    }
}

/// The decimal digit characters, `0` to `9`.
pub open spec fn digit_char(d: nat) -> char {
    if d == 0 {
        '0'
    } else if d == 1 {
        '1'
    } else if d == 2 {
        '2'
    } else if d == 3 {
        '3'
    } else if d == 4 {
        '4'
    } else if d == 5 {
        '5'
    } else if d == 6 {
        '6'
    } else if d == 7 {
        '7'
    } else if d == 8 {
        '8'
    } else {
        '9'
    }
}

/// The decimal notation of a number, most significant digit first.
pub open spec fn dec_str(n: nat) -> Seq<char>
    decreases n,
{
    if n < 10 {
        seq![digit_char(n)]
    } else {
        dec_str(n / 10).push(digit_char(n % 10))
    }
}

/// Append the decimal notation of `n`.
fn push_decimal(out: &mut String, n: usize)
    ensures
        final(out)@ == old(out)@ + dec_str(n as nat),
    decreases n,
{
    if n >= 10 {
        push_decimal(out, n / 10);
    }
    let d = n % 10;
    match d {
        0 => crate::escape::push_char(out, '0'),
        1 => crate::escape::push_char(out, '1'),
        2 => crate::escape::push_char(out, '2'),
        3 => crate::escape::push_char(out, '3'),
        4 => crate::escape::push_char(out, '4'),
        5 => crate::escape::push_char(out, '5'),
        6 => crate::escape::push_char(out, '6'),
        7 => crate::escape::push_char(out, '7'),
        8 => crate::escape::push_char(out, '8'),
        _ => crate::escape::push_char(out, '9'),
    }
    proof {
        if n < 10 {
            assert(old(out)@ + dec_str(n as nat) =~= old(out)@.push(digit_char(n as nat)));
        } else {
            assert(old(out)@ + dec_str(n as nat) =~= (old(out)@ + dec_str((n / 10) as nat)).push(
                digit_char((n % 10) as nat),
            ));
        }
    }
}

/// What `str::to_uppercase` returns for a given string: the result depends
/// on the characters alone.
pub uninterp spec fn upper_of(s: Seq<char>) -> Seq<char>;

/// Relies on `str::to_uppercase`: returns the uppercase equivalent of the
/// slice, a function of its characters alone.
#[verifier::external_body]
fn uppercase(s: &str) -> (r: String)
    ensures
        r@ == upper_of(s@),
{
    s.to_uppercase()
}

/// The list context the manpage renderer is in: a definition list, an
/// ordered list carrying the next ordinal, or an unordered list.
#[derive(Debug, Clone, Copy, PartialEq, Eq, Structural)]
pub enum ListKind {
    /// Definition list: items rely on the `.TP` mechanism, no prefix.
    Def,
    /// Ordered list: each item gets an incrementing ordinal prefix.
    Ol(usize),
    /// Unordered list: each item gets a bullet prefix.
    Ul,
}

/// The state the manpage renderer carries across one forward pass.
pub struct ManState {
    /// The ROFF buffer entries produced so far.
    pub ents: Seq<(Escape, Seq<char>)>,
    /// Title text diverted while inside a section or subsection header.
    pub capture: Seq<char>,
    /// Styled text is being diverted into `capture`.
    pub capturing: bool,
    /// The list context, consulted when a list item opens.
    pub kind: ListKind,
    /// The newline stripping mode of the ROFF buffer.
    pub strip: bool,
}

/// The renderer's starting state: the `.TH` header line is already emitted.
pub open spec fn man_init(title: Seq<char>, code: Seq<char>, extra: Seq<Seq<char>>) -> ManState {
    ManState {
        ents: control_entries("TH"@, crate::man::th_args(title, code, extra)),
        capture: Seq::empty(),
        capturing: false,
        kind: ListKind::Def,
        strip: false,
    }
}

/// One tagged fragment processed by the manpage renderer.
pub open spec fn man_step(st: ManState, e: (Sem, Seq<char>)) -> ManState {
    match e.0 {
        Sem::BlockStart(b) => match b {
            LogicalBlock::Section => ManState { capturing: true, ..st },
            LogicalBlock::Subsection => ManState { capturing: true, ..st },
            LogicalBlock::Pre => ManState {
                ents: st.ents + control_entries("PP"@, Seq::empty()) + control_entries(
                    "nf"@,
                    Seq::empty(),
                ),
                strip: false,
                ..st
            },
            LogicalBlock::Paragraph => ManState {
                ents: st.ents + control_entries("PP"@, Seq::empty()),
                ..st
            },
            LogicalBlock::UnnumberedList => ManState { kind: ListKind::Ul, ..st },
            LogicalBlock::NumberedList => ManState { kind: ListKind::Ol(1), ..st },
            LogicalBlock::DefinitionList => ManState { kind: ListKind::Def, ..st },
            LogicalBlock::ListItem => match st.kind {
                ListKind::Def => st,
                ListKind::Ol(ix) => ManState {
                    ents: st.ents + text_entries(
                        seq![(Font::Roman, dec_str(ix as nat) + ". "@)],
                        st.strip,
                    ),
                    kind: ListKind::Ol(((ix + 1) as usize)),
                    ..st
                },
                ListKind::Ul => ManState {
                    ents: st.ents + text_entries(seq![(Font::Roman, "* "@)], st.strip),
                    ..st
                },
            },
            LogicalBlock::ListKey => ManState {
                ents: st.ents + control_entries("TP"@, Seq::empty()),
                strip: true,
                ..st
            },
        },
        Sem::BlockEnd(b) => match b {
            LogicalBlock::Section => ManState {
                ents: st.ents + control_entries("SH"@, seq![upper_of(st.capture)]),
                capture: Seq::empty(),
                capturing: false,
                strip: false,
                ..st
            },
            LogicalBlock::Subsection => ManState {
                ents: st.ents + control_entries("SS"@, seq![st.capture]),
                capture: Seq::empty(),
                capturing: false,
                strip: false,
                ..st
            },
            LogicalBlock::Pre => ManState {
                ents: st.ents + control_entries("fi"@, Seq::empty()),
                strip: true,
                ..st
            },
            LogicalBlock::Paragraph => st,
            LogicalBlock::UnnumberedList => st,
            LogicalBlock::NumberedList => st,
            LogicalBlock::DefinitionList => st,
            LogicalBlock::ListItem => ManState {
                ents: st.ents + control_entries("PP"@, Seq::empty()),
                strip: false,
                ..st
            },
            LogicalBlock::ListKey => ManState {
                ents: st.ents + seq![(Escape::UnescapedAtNewline, ""@)],
                strip: false,
                ..st
            },
        },
        Sem::Style(sty) => if st.capturing {
            ManState { capture: st.capture + e.1, ..st }
        } else {
            ManState {
                ents: st.ents + text_entries(seq![(spec_font(sty), e.1)], st.strip),
                ..st
            }
        },
    }
}

/// A whole tag stream processed by the manpage renderer, left to right.
pub open spec fn man_run(st: ManState, s: Seq<(Sem, Seq<char>)>) -> ManState
    decreases s.len(),
{
    if s.len() == 0 {
        st
    } else {
        man_run(man_step(st, s[0]), s.subrange(1, s.len() as int))
    }
}

/// Folding one more fragment into a manpage render.
proof fn lemma_man_run_snoc(st: ManState, s: Seq<(Sem, Seq<char>)>, e: (Sem, Seq<char>))
    ensures
        man_run(st, s.push(e)) == man_step(man_run(st, s), e),
    decreases s.len(),
{
    if s.len() == 0 {
        assert(s.push(e)[0] == e);
        let sub = s.push(e).subrange(1, 1);
        assert(sub =~= Seq::<(Sem, Seq<char>)>::empty());
        assert(man_run(st, s.push(e)) == man_run(man_step(st, e), sub));
        assert(man_run(man_step(st, e), sub) == man_step(st, e));
        assert(man_run(st, s) == st);
    } else {
        let st2 = man_step(st, s[0]);
        let sub = s.subrange(1, s.len() as int);
        assert(s.push(e)[0] == s[0]);
        assert(s.push(e).subrange(1, s.len() as int + 1) =~= sub.push(e));
        assert(man_run(st, s.push(e)) == man_run(st2, sub.push(e)));
        lemma_man_run_snoc(st2, sub, e);
        assert(man_run(st, s) == man_run(st2, sub));
    }
}

/// The ROFF buffer entries a whole manpage render produces.
pub open spec fn manpage_entries(
    doc: Seq<(Sem, Seq<char>)>,
    title: Seq<char>,
    code: Seq<char>,
    extra: Seq<Seq<char>>,
) -> Seq<(Escape, Seq<char>)> {
    man_run(man_init(title, code, extra), doc).ents
}

/// Blocks that open a list context.
pub open spec fn is_list_block(b: LogicalBlock) -> bool {
    b == LogicalBlock::UnnumberedList || b == LogicalBlock::NumberedList || b
        == LogicalBlock::DefinitionList
}

/// The fragment opens a list.
pub open spec fn starts_list(e: (Sem, Seq<char>)) -> bool {
    match e.0 {
        Sem::BlockStart(b) => is_list_block(b),
        _ => false,
    }
}

/// How many lists are open after the given fragments: list starts counted
/// up, list ends counted down.
pub open spec fn open_lists(s: Seq<(Sem, Seq<char>)>) -> int
    decreases s.len(),
{
    if s.len() == 0 {
        0
    } else {
        open_lists(s.drop_last()) + match s.last().0 {
            Sem::BlockStart(b) => if is_list_block(b) {
                1int
            } else {
                0
            },
            Sem::BlockEnd(b) => if is_list_block(b) {
                -1int
            } else {
                0
            },
            Sem::Style(_) => 0,
        }
    }
}

/// No list ever opens while another list is still open: the nesting the
/// ROFF renderer supports.
pub open spec fn lists_flat(s: Seq<(Sem, Seq<char>)>) -> bool {
    forall|i: int|
        0 <= i < s.len() && starts_list(#[trigger] s[i]) ==> open_lists(s.take(i)) == 0
}

impl Doc {
    /// Check that the document nests no list inside another list.
    ///
    /// The ROFF renderer does not support multi-level lists; call this
    /// before [`render_to_manpage`](Self::render_to_manpage) when the
    /// document's structure is not known statically, or use
    /// [`try_render_to_manpage`](Self::try_render_to_manpage).
    pub fn lists_are_flat(&self) -> (b: bool)
        requires
            self.wf(),
        ensures
            b == lists_flat(self@),
    {
        let n = self.payload.entry_count();
        let mut depth: i128 = 0;
        for i in 0..n
            invariant
                n == self@.len(),
                self.wf(),
                depth == open_lists(self@.take(i as int)),
                -(i as int) <= depth <= i as int,
                forall|j: int|
                    0 <= j < i && starts_list(#[trigger] self@[j]) ==> open_lists(self@.take(j))
                        == 0,
        {
            let (meta, _) = self.payload.entry(i);
            proof {
                assert(self@.take(i + 1).drop_last() =~= self@.take(i as int));
                assert(self@.take(i + 1).last() == self@[i as int]);
            }
            match *meta {
                Sem::BlockStart(b) => {
                    let is_list = match b {
                        LogicalBlock::UnnumberedList => true,
                        LogicalBlock::NumberedList => true,
                        LogicalBlock::DefinitionList => true,
                        _ => false,
                    };
                    if is_list {
                        if depth != 0 {
                            proof {
                                assert(starts_list(self@[i as int]) && open_lists(
                                    self@.take(i as int),
                                ) != 0);
                            }
                            return false;
                        }
                        depth = depth + 1;
                    }
                },
                Sem::BlockEnd(b) => {
                    let is_list = match b {
                        LogicalBlock::UnnumberedList => true,
                        LogicalBlock::NumberedList => true,
                        LogicalBlock::DefinitionList => true,
                        _ => false,
                    };
                    if is_list {
                        depth = depth - 1;
                    }
                },
                Sem::Style(_) => {},
            }
        }
        proof {
            assert(self@.take(n as int) =~= self@);
        }
        true
    }

    /// Render the semantic document into a manpage.
    ///
    /// Creates a manpage with the given `title` in the given `section`;
    /// `extra` can hold up to 3 items populating the header and footer
    /// lines: a free form date of the last update, the project or suite the
    /// program belongs to, and a fancier human readable application name.
    ///
    /// Section and subsection titles are emitted as control-sequence
    /// arguments, uppercased for sections, with any styling stripped.
    /// Nested lists are not supported in this output format and are
    /// excluded by precondition; see
    /// [`try_render_to_manpage`](Self::try_render_to_manpage) for a total
    /// variant.
    #[must_use]
    pub fn render_to_manpage(&self, title: &str, section: Section, extra: &[&str]) -> (r: String)
        requires
            self.wf(),
            lists_flat(self@),
            self@.len() < usize::MAX,
        ensures
            r@ == esc_run(
                spec_preamble(),
                manpage_entries(self@, title@, section_code(section), views_of(extra@)),
                true,
            ),
    {
        let mut roff = Roff::new();
        crate::man::th_control(&mut roff, title, section, extra);
        let ghost init = man_init(title@, section_code(section), views_of(extra@));
        let mut capture = String::new();
        let mut capturing = false;
        let mut kind = ListKind::Def;
        let n = self.payload.entry_count();
        for i in 0..n
            invariant
                n == self@.len(),
                n < usize::MAX,
                self.wf(),
                roff.wf(),
                init == man_init(title@, section_code(section), views_of(extra@)),
                roff.entries() == man_run(init, self@.take(i as int)).ents,
                roff.stripping() == man_run(init, self@.take(i as int)).strip,
                capture@ == man_run(init, self@.take(i as int)).capture,
                capturing == man_run(init, self@.take(i as int)).capturing,
                kind == man_run(init, self@.take(i as int)).kind,
                match kind {
                    ListKind::Ol(ix) => ix as int <= i + 1,
                    _ => true,
                },
        {
            let ghost st = man_run(init, self@.take(i as int));
            proof {
                lemma_man_run_snoc(init, self@.take(i as int), self@[i as int]);
                assert(self@.take(i + 1) =~= self@.take(i as int).push(self@[i as int]));
            }
            let (meta, slice) = self.payload.entry(i);
            match *meta {
                Sem::BlockStart(b) => match b {
                    LogicalBlock::Section => {
                        capturing = true;
                    },
                    LogicalBlock::Subsection => {
                        capturing = true;
                    },
                    LogicalBlock::Pre => {
                        roff.control0("PP");
                        roff.control0("nf");
                        roff.strip_newlines(false);
                    },
                    LogicalBlock::Paragraph => {
                        roff.control0("PP");
                    },
                    LogicalBlock::UnnumberedList => {
                        kind = ListKind::Ul;
                    },
                    LogicalBlock::NumberedList => {
                        kind = ListKind::Ol(1);
                    },
                    LogicalBlock::DefinitionList => {
                        kind = ListKind::Def;
                    },
                    LogicalBlock::ListItem => {
                        match kind {
                            ListKind::Def => {},
                            ListKind::Ol(ix) => {
                                let mut num = String::new();
                                push_decimal(&mut num, ix);
                                num.append(". ");
                                roff_text1(&mut roff, Font::Roman, num.as_str());
                                proof {
                                    assert(num@ == dec_str(ix as nat) + ". "@);
                                }
                                kind = ListKind::Ol(ix + 1);
                            },
                            ListKind::Ul => {
                                roff_text1(&mut roff, Font::Roman, "* ");
                            },
                        }
                    },
                    LogicalBlock::ListKey => {
                        roff.control0("TP");
                        roff.strip_newlines(true);
                    },
                },
                Sem::BlockEnd(b) => match b {
                    LogicalBlock::Section => {
                        capturing = false;
                        let upper = uppercase(capture.as_str());
                        roff.control1("SH", upper.as_str());
                        roff.strip_newlines(false);
                        capture = String::new();
                    },
                    LogicalBlock::Subsection => {
                        capturing = false;
                        roff.control1("SS", capture.as_str());
                        roff.strip_newlines(false);
                        capture = String::new();
                    },
                    LogicalBlock::Pre => {
                        roff.control0("fi");
                        roff.strip_newlines(true);
                    },
                    LogicalBlock::Paragraph => {},
                    LogicalBlock::UnnumberedList => {},
                    LogicalBlock::NumberedList => {},
                    LogicalBlock::DefinitionList => {},
                    LogicalBlock::ListItem => {
                        roff.control0("PP");
                        roff.strip_newlines(false);
                    },
                    LogicalBlock::ListKey => {
                        roff.roff_linebreak();
                        roff.strip_newlines(false);
                    },
                },
                Sem::Style(sty) => {
                    if capturing {
                        capture.append(slice);
                    } else {
                        roff_text1(&mut roff, sty.font(), slice);
                    }
                },
            }
            proof {
                assert(man_run(init, self@.take(i + 1)) == man_step(st, self@[i as int]));
            }
        }
        proof {
            assert(self@.take(n as int) =~= self@);
        }
        roff.render(Apostrophes::Handle)
    }

    /// Render the semantic document into a manpage, checking the list
    /// structure first.
    ///
    /// Returns `None`, rather than a miscompiled page, when the document
    /// nests a list inside another list, which the ROFF output format does
    /// not support.
    pub fn try_render_to_manpage(&self, title: &str, section: Section, extra: &[&str]) -> (r:
        Option<String>)
        requires
            self.wf(),
            self@.len() < usize::MAX,
        ensures
            match r {
                Some(s) => lists_flat(self@) && s@ == esc_run(
                    spec_preamble(),
                    manpage_entries(self@, title@, section_code(section), views_of(extra@)),
                    true,
                ),
                None => !lists_flat(self@),
            },
    {
        if self.lists_are_flat() {
            Some(self.render_to_manpage(title, section, extra))
        } else {
            None
        }
    }
}

/// Insert one font-tagged slice into a ROFF document.
fn roff_text1(roff: &mut Roff, f: Font, s: &str)
    requires
        old(roff).wf(),
    ensures
        final(roff).wf(),
        final(roff).entries() == old(roff).entries() + text_entries(
            seq![(f, s@)],
            old(roff).stripping(),
        ),
        final(roff).stripping() == old(roff).stripping(),
{
    let mut items: Vec<(Font, &str)> = Vec::new();
    items.push((f, s));
    roff.text(items.as_slice());
    proof {
        assert(font_views_of(items@) =~= seq![(f, s@)]);
    }
}

} // verus!
