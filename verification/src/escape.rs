//! The ROFF escaping primitive.
//!
//! Each slice of text carries an [`Escape`] class saying how it must be
//! written into ROFF output: verbatim control syntax, ordinary text whose
//! special characters are escaped, or a control-sequence argument whose
//! spaces must not break.  The escaping rules are fixed:
//!
//! - a literal backslash becomes the two-character escape `\\`;
//! - a literal dash becomes the non-breaking hyphen escape `\-`;
//! - a line that would otherwise begin with a control character (`.` or `'`)
//!   or a space is prefixed with the zero-width no-op escape `\&`;
//! - in the no-newline classes, newlines inside text become single spaces;
//! - in the argument class, spaces and newlines become the non-breaking `\ `,
//!   and, when apostrophe handling is on, apostrophes become the portable
//!   glyph `\*(Aq` defined by the document preamble.

use vstd::prelude::*;
use vstd::string::StrSliceExecFns;
use vstd::string::StringExecFns;

verus! {

/// How a slice of text is treated when rendering ROFF output.
#[derive(Debug, Clone, Copy, PartialEq, Eq, Structural)]
pub enum Escape {
    /// Pass through verbatim: the text is control-sequence syntax.
    Unescaped,
    /// Pass through verbatim, but start on a fresh output line.
    UnescapedAtNewline,
    /// Ordinary text: escape special characters, preserve newlines.
    Special,
    /// Ordinary text: escape special characters, collapse newlines to spaces.
    SpecialNoNewline,
    /// A control-sequence argument: escape special characters and make
    /// spaces and newlines non-breaking.
    Spaces,
}

/// Whether apostrophes are replaced by a portability glyph.
///
/// With `Handle`, rendering emits a preamble macro pair so that `\*(Aq`
/// names a portable apostrophe, and substitutes it for apostrophes in
/// control-sequence arguments.  With `DontHandle` apostrophes pass through
/// unchanged, which keeps golden output readable when no formatter will
/// interpret the preamble.
#[derive(Debug, Clone, Copy, PartialEq, Eq, Structural)]
pub enum Apostrophes {
    /// Emit the preamble and substitute apostrophes in arguments.
    Handle,
    /// Leave apostrophes alone.
    DontHandle,
}

/// The preamble emitted under [`Apostrophes::Handle`]: it defines the string
/// register `Aq` as a portable apostrophe glyph.
pub open spec fn spec_preamble() -> Seq<char> {
    ".ie \\n(.g .ds Aq \\(aq\n.el .ds Aq '\n"@
}

/// Does the output currently sit at the start of a line?
pub open spec fn line_start(out: Seq<char>) -> bool {
    out.len() == 0 || out[out.len() - 1] == '\n'
}

/// Output extended so that what follows starts on a fresh line.
pub open spec fn fresh_line(out: Seq<char>) -> Seq<char> {
    if line_start(out) {
        out
    } else {
        out.push('\n')
    }
}

/// The escaped form of one ordinary-text character, given whether the output
/// sits at a line start and whether newlines are collapsed.
pub open spec fn esc_special_char(c: char, ls: bool, no_newline: bool) -> Seq<char> {
    if c == '\\' {
        "\\\\"@
    } else if c == '-' {
        "\\-"@
    } else if c == '\n' && no_newline {
        " "@
    } else if (c == '.' || c == '\'' || c == ' ') && ls {
        "\\&"@.push(c)
    } else {
        seq![c]
    }
}

/// Ordinary-text escaping of a whole slice, appended to `out`.
pub open spec fn esc_special(out: Seq<char>, s: Seq<char>, no_newline: bool) -> Seq<char>
    decreases s.len(),
{
    if s.len() == 0 {
        out
    } else {
        esc_special(
            out + esc_special_char(s[0], line_start(out), no_newline),
            s.subrange(1, s.len() as int),
            no_newline,
        )
    }
}

/// The escaped form of one control-sequence-argument character.
pub open spec fn esc_spaces_char(c: char, ls: bool, handle_ap: bool) -> Seq<char> {
    if c == '\\' {
        "\\\\"@
    } else if c == '-' {
        "\\-"@
    } else if c == ' ' || c == '\n' {
        "\\ "@
    } else if c == '\'' && handle_ap {
        "\\*(Aq"@
    } else if (c == '.' || c == '\'') && ls {
        "\\&"@.push(c)
    } else {
        seq![c]
    }
}

/// Control-sequence-argument escaping of a whole slice, appended to `out`.
pub open spec fn esc_spaces(out: Seq<char>, s: Seq<char>, handle_ap: bool) -> Seq<char>
    decreases s.len(),
{
    if s.len() == 0 {
        out
    } else {
        esc_spaces(
            out + esc_spaces_char(s[0], line_start(out), handle_ap),
            s.subrange(1, s.len() as int),
            handle_ap,
        )
    }
}

/// One tagged slice rendered after `out`.
pub open spec fn esc_entry(out: Seq<char>, e: (Escape, Seq<char>), handle_ap: bool) -> Seq<char> {
    match e.0 {
        Escape::Unescaped => out + e.1,
        Escape::UnescapedAtNewline => fresh_line(out) + e.1,
        Escape::Special => esc_special(out, e.1, false),
        Escape::SpecialNoNewline => esc_special(out, e.1, true),
        Escape::Spaces => esc_spaces(out, e.1, handle_ap),
    }
}

/// A whole tagged stream rendered after `out`, left to right.
pub open spec fn esc_run(
    out: Seq<char>,
    s: Seq<(Escape, Seq<char>)>,
    handle_ap: bool,
) -> Seq<char>
    decreases s.len(),
{
    if s.len() == 0 {
        out
    } else {
        esc_run(esc_entry(out, s[0], handle_ap), s.subrange(1, s.len() as int), handle_ap)
    }
}

/// Relies on `String::push`: appends exactly the given character.
#[verifier::external_body]
pub(crate) fn push_char(out: &mut String, c: char)
    ensures
        final(out)@ == old(out)@.push(c),
{
    out.push(c)
}

/// Does the output string currently sit at the start of a line?
pub(crate) fn line_start_exec(out: &String) -> (b: bool)
    ensures
        b == line_start(out@),
{
    let n = out.as_str().unicode_len();
    if n == 0 {
        true
    } else {
        out.as_str().get_char(n - 1) == '\n'
    }
}

/// Append a newline unless the output already sits at a line start.
pub(crate) fn emit_fresh_line(out: &mut String)
    ensures
        final(out)@ == fresh_line(old(out)@),
{
    if !line_start_exec(out) {
        push_char(out, '\n');
    }
}

/// Folding one more character into an ordinary-text escape run.
proof fn lemma_esc_special_snoc(out: Seq<char>, s: Seq<char>, c: char, no_newline: bool)
    ensures
        esc_special(out, s.push(c), no_newline) == esc_special(out, s, no_newline)
            + esc_special_char(c, line_start(esc_special(out, s, no_newline)), no_newline),
    decreases s.len(),
{
    if s.len() == 0 {
        assert(s.push(c)[0] == c);
        assert(s.push(c).subrange(1, 1) =~= Seq::<char>::empty());
        assert(esc_special(out, s.push(c), no_newline) == esc_special(
            out + esc_special_char(c, line_start(out), no_newline),
            s.push(c).subrange(1, 1),
            no_newline,
        ));
    } else {
        let out2 = out + esc_special_char(s[0], line_start(out), no_newline);
        assert(s.push(c)[0] == s[0]);
        assert(s.push(c).subrange(1, s.len() as int + 1) =~= s.subrange(1, s.len() as int).push(c));
        lemma_esc_special_snoc(out2, s.subrange(1, s.len() as int), c, no_newline);
    }
}

/// Folding one more character into an argument escape run.
proof fn lemma_esc_spaces_snoc(out: Seq<char>, s: Seq<char>, c: char, handle_ap: bool)
    ensures
        esc_spaces(out, s.push(c), handle_ap) == esc_spaces(out, s, handle_ap)
            + esc_spaces_char(c, line_start(esc_spaces(out, s, handle_ap)), handle_ap),
    decreases s.len(),
{
    if s.len() == 0 {
        assert(s.push(c)[0] == c);
        assert(s.push(c).subrange(1, 1) =~= Seq::<char>::empty());
        assert(esc_spaces(out, s.push(c), handle_ap) == esc_spaces(
            out + esc_spaces_char(c, line_start(out), handle_ap),
            s.push(c).subrange(1, 1),
            handle_ap,
        ));
    } else {
        let out2 = out + esc_spaces_char(s[0], line_start(out), handle_ap);
        assert(s.push(c)[0] == s[0]);
        assert(s.push(c).subrange(1, s.len() as int + 1) =~= s.subrange(1, s.len() as int).push(c));
        lemma_esc_spaces_snoc(out2, s.subrange(1, s.len() as int), c, handle_ap);
    }
}

/// Append the ordinary-text escaping of `text` to `out`.
pub(crate) fn emit_special(out: &mut String, text: &str, no_newline: bool)
    ensures
        final(out)@ == esc_special(old(out)@, text@, no_newline),
{
    let n = text.unicode_len();
    for i in 0..n
        invariant
            n == text@.len(),
            out@ == esc_special(old(out)@, text@.take(i as int), no_newline),
    {
        let c = text.get_char(i);
        let ls = line_start_exec(out);
        proof {
            lemma_esc_special_snoc(old(out)@, text@.take(i as int), c, no_newline);
            assert(text@.take(i + 1) =~= text@.take(i as int).push(c));
        }
        if c == '\\' {
            out.append("\\\\");
        } else if c == '-' {
            out.append("\\-");
        } else if c == '\n' && no_newline {
            out.append(" ");
        } else if (c == '.' || c == '\'' || c == ' ') && ls {
            out.append("\\&");
            push_char(out, c);
        } else {
            push_char(out, c);
            proof {
                assert(old(out)@ + seq![c] =~= old(out)@.push(c));
            }
        }
    }
    proof {
        assert(text@.take(n as int) =~= text@);
    }
}

/// Append the argument escaping of `text` to `out`.
pub(crate) fn emit_spaces(out: &mut String, text: &str, handle_ap: bool)
    ensures
        final(out)@ == esc_spaces(old(out)@, text@, handle_ap),
{
    let n = text.unicode_len();
    for i in 0..n
        invariant
            n == text@.len(),
            out@ == esc_spaces(old(out)@, text@.take(i as int), handle_ap),
    {
        let c = text.get_char(i);
        let ls = line_start_exec(out);
        proof {
            lemma_esc_spaces_snoc(old(out)@, text@.take(i as int), c, handle_ap);
            assert(text@.take(i + 1) =~= text@.take(i as int).push(c));
        }
        if c == '\\' {
            out.append("\\\\");
        } else if c == '-' {
            out.append("\\-");
        } else if c == ' ' || c == '\n' {
            out.append("\\ ");
        } else if c == '\'' && handle_ap {
            out.append("\\*(Aq");
        } else if (c == '.' || c == '\'') && ls {
            out.append("\\&");
            push_char(out, c);
        } else {
            push_char(out, c);
            proof {
                assert(old(out)@ + seq![c] =~= old(out)@.push(c));
            }
        }
    }
    proof {
        assert(text@.take(n as int) =~= text@);
    }
}

/// Append one tagged slice to `out` under the given escaping class.
pub(crate) fn emit_entry(out: &mut String, class: Escape, text: &str, handle_ap: bool)
    ensures
        final(out)@ == esc_entry(old(out)@, (class, text@), handle_ap),
{
    match class {
        Escape::Unescaped => {
            out.append(text);
        },
        Escape::UnescapedAtNewline => {
            emit_fresh_line(out);
            out.append(text);
        },
        Escape::Special => {
            emit_special(out, text, false);
        },
        Escape::SpecialNoNewline => {
            emit_special(out, text, true);
        },
        Escape::Spaces => {
            emit_spaces(out, text, handle_ap);
        },
    }
}

/// Escaping a plain slice is the identity on that slice.
///
/// Ordinary-text escaping with newlines preserved leaves `s` unchanged
/// whenever `s` holds no backslash and no dash, and no line of `s` — given
/// the line position `out` ends at — begins with `.`, `'` or a space.
pub proof fn lemma_escape_plain_identity(out: Seq<char>, s: Seq<char>)
    requires
        forall|i: int| 0 <= i < s.len() ==> s[i] != '\\' && s[i] != '-',
        forall|i: int|
            0 <= i < s.len() && ((#[trigger] s[i]) == '.' || s[i] == '\'' || s[i] == ' ') ==> !(
            if i == 0 {
                line_start(out)
            } else {
                s[i - 1] == '\n'
            }),
    ensures
        esc_special(out, s, false) == out + s,
    decreases s.len(),
{
    if s.len() == 0 {
        assert(esc_special(out, s, false) =~= out + s);
    } else {
        let c = s[0];
        assert(esc_special_char(c, line_start(out), false) == seq![c]);
        let out2 = out + seq![c];
        let rest = s.subrange(1, s.len() as int);
        assert forall|i: int|
            0 <= i < rest.len() && ((#[trigger] rest[i]) == '.' || rest[i] == '\'' || rest[i]
                == ' ') implies !(if i == 0 {
            line_start(out2)
        } else {
            rest[i - 1] == '\n'
        }) by {
            assert(rest[i] == s[i + 1]);
            if i == 0 {
                assert(line_start(out2) == (c == '\n'));
            } else {
                assert(rest[i - 1] == s[i]);
            }
        }
        lemma_escape_plain_identity(out2, rest);
        assert(out2 + rest =~= out + s);
    }
}

/// Ordinary-text escaping processes concatenated input piecewise: escaping
/// `a + b` is escaping `a` and then escaping `b` after it.
pub proof fn lemma_esc_special_concat(out: Seq<char>, a: Seq<char>, b: Seq<char>, no_newline: bool)
    ensures
        esc_special(out, a + b, no_newline) == esc_special(
            esc_special(out, a, no_newline),
            b,
            no_newline,
        ),
    decreases a.len(),
{
    if a.len() == 0 {
        assert(a + b =~= b);
        assert(esc_special(out, a, no_newline) == out);
    } else {
        let c = a[0];
        assert((a + b)[0] == c);
        let out2 = out + esc_special_char(c, line_start(out), no_newline);
        assert((a + b).subrange(1, (a + b).len() as int) =~= a.subrange(1, a.len() as int) + b);
        lemma_esc_special_concat(out2, a.subrange(1, a.len() as int), b, no_newline);
    }
}

/// The escaped form of text standing in the middle of a line: only the
/// backslash and dash escapes apply.
pub open spec fn esc_inline(s: Seq<char>) -> Seq<char>
    decreases s.len(),
{
    if s.len() == 0 {
        Seq::empty()
    } else {
        esc_special_char(s[0], false, false) + esc_inline(s.subrange(1, s.len() as int))
    }
}

/// The zero-width no-op prefix a line receives: `\&` when it begins with a
/// control character or a space, nothing otherwise.
pub open spec fn line_prefix(line: Seq<char>) -> Seq<char> {
    if line.len() > 0 && (line[0] == '.' || line[0] == '\'' || line[0] == ' ') {
        "\\&"@
    } else {
        Seq::<char>::empty()
    }
}

/// Away from a line start, ordinary-text escaping applies only the
/// backslash and dash escapes.
pub proof fn lemma_escape_midline(out: Seq<char>, s: Seq<char>)
    requires
        !line_start(out),
        forall|i: int| 0 <= i < s.len() ==> (#[trigger] s[i]) != '\n',
    ensures
        esc_special(out, s, false) == out + esc_inline(s),
    decreases s.len(),
{
    reveal_strlit("\\\\");
    reveal_strlit("\\-");
    if s.len() == 0 {
        assert(out + esc_inline(s) =~= out);
    } else {
        let c = s[0];
        let piece = esc_special_char(c, false, false);
        let out2 = out + piece;
        assert(piece.len() > 0 && piece[piece.len() - 1] != '\n');
        assert(!line_start(out2));
        let rest = s.subrange(1, s.len() as int);
        lemma_escape_midline(out2, rest);
        assert(out2 + esc_inline(rest) =~= out + esc_inline(s));
    }
}

/// One whole line of ordinary text, escaped: the line gets the zero-width
/// no-op prefix exactly when it begins with `.`, `'` or a space, and is
/// otherwise unchanged apart from the backslash and dash escapes.
pub proof fn lemma_escape_line(out: Seq<char>, line: Seq<char>)
    requires
        line_start(out),
        forall|i: int| 0 <= i < line.len() ==> (#[trigger] line[i]) != '\n',
    ensures
        esc_special(out, line, false) == out + line_prefix(line) + esc_inline(line),
{
    reveal_strlit("\\\\");
    reveal_strlit("\\-");
    reveal_strlit("\\&");
    if line.len() == 0 {
        assert(out + line_prefix(line) + esc_inline(line) =~= out);
    } else {
        let c = line[0];
        let piece = esc_special_char(c, true, false);
        let out2 = out + piece;
        assert(piece.len() > 0 && piece[piece.len() - 1] != '\n');
        assert(!line_start(out2));
        let rest = line.subrange(1, line.len() as int);
        lemma_escape_midline(out2, rest);
        assert(piece =~= line_prefix(line) + esc_special_char(c, false, false));
        assert(out2 + esc_inline(rest) =~= out + line_prefix(line) + esc_inline(line));
    }
}

/// How many newline characters a sequence holds.
pub open spec fn newline_count(s: Seq<char>) -> nat
    decreases s.len(),
{
    if s.len() == 0 {
        0
    } else {
        (if s[0] == '\n' {
            1nat
        } else {
            0
        }) + newline_count(s.subrange(1, s.len() as int))
    }
}

/// Newline counting distributes over concatenation.
pub proof fn lemma_newline_count_concat(a: Seq<char>, b: Seq<char>)
    ensures
        newline_count(a + b) == newline_count(a) + newline_count(b),
    decreases a.len(),
{
    if a.len() == 0 {
        assert(a + b =~= b);
    } else {
        assert((a + b)[0] == a[0]);
        assert((a + b).subrange(1, (a + b).len() as int) =~= a.subrange(1, a.len() as int) + b);
        lemma_newline_count_concat(a.subrange(1, a.len() as int), b);
    }
}

/// A sequence with no newline characters counts zero newlines.
proof fn lemma_no_newlines(s: Seq<char>)
    requires
        forall|i: int| 0 <= i < s.len() ==> (#[trigger] s[i]) != '\n',
    ensures
        newline_count(s) == 0,
    decreases s.len(),
{
    if s.len() > 0 {
        lemma_no_newlines(s.subrange(1, s.len() as int));
    }
}

/// The escaped form of one ordinary-text character holds exactly the
/// newlines of that character: one when the character is a preserved
/// newline, none otherwise.
proof fn lemma_esc_special_char_newlines(c: char, ls: bool, no_newline: bool)
    ensures
        newline_count(esc_special_char(c, ls, no_newline)) == if c == '\n' && !no_newline {
            1nat
        } else {
            0
        },
{
    reveal_strlit("\\\\");
    reveal_strlit("\\-");
    reveal_strlit("\\&");
    reveal_strlit(" ");
    let piece = esc_special_char(c, ls, no_newline);
    if c == '\n' && !no_newline {
        assert(piece =~= seq!['\n']);
        assert(newline_count(seq!['\n'].subrange(1, 1)) == 0);
    } else {
        assert(forall|i: int| 0 <= i < piece.len() ==> (#[trigger] piece[i]) != '\n');
        lemma_no_newlines(piece);
    }
}

/// Ordinary-text escaping with newlines preserved keeps every newline: the
/// output holds exactly the newlines of the prior output plus those of the
/// input, none collapsed to spaces.
pub proof fn lemma_escape_preserves_newlines(out: Seq<char>, s: Seq<char>)
    ensures
        newline_count(esc_special(out, s, false)) == newline_count(out) + newline_count(s),
    decreases s.len(),
{
    if s.len() > 0 {
        let c = s[0];
        let piece = esc_special_char(c, line_start(out), false);
        lemma_esc_special_char_newlines(c, line_start(out), false);
        lemma_newline_count_concat(out, piece);
        lemma_escape_preserves_newlines(out + piece, s.subrange(1, s.len() as int));
    }
}

/// Ordinary-text escaping with newline collapsing removes every newline of
/// the input: the output holds exactly the newlines of the prior output.
pub proof fn lemma_escape_collapses_newlines(out: Seq<char>, s: Seq<char>)
    ensures
        newline_count(esc_special(out, s, true)) == newline_count(out),
    decreases s.len(),
{
    if s.len() > 0 {
        let c = s[0];
        let piece = esc_special_char(c, line_start(out), true);
        lemma_esc_special_char_newlines(c, line_start(out), true);
        lemma_newline_count_concat(out, piece);
        lemma_escape_collapses_newlines(out + piece, s.subrange(1, s.len() as int));
    }
}

/// Escaping a plain control-sequence argument is the identity on it.
///
/// Argument escaping leaves `s` unchanged whenever `s` holds no backslash,
/// dash, space or newline, no apostrophe while apostrophes are handled, and
/// does not begin with `.` or `'` at a line start.
pub proof fn lemma_escape_argument_identity(out: Seq<char>, s: Seq<char>, handle_ap: bool)
    requires
        forall|i: int|
            0 <= i < s.len() ==> (#[trigger] s[i]) != '\\' && s[i] != '-' && s[i] != ' ' && s[i]
                != '\n',
        handle_ap ==> forall|i: int| 0 <= i < s.len() ==> (#[trigger] s[i]) != '\'',
        s.len() > 0 && (s[0] == '.' || s[0] == '\'') ==> !line_start(out),
    ensures
        esc_spaces(out, s, handle_ap) == out + s,
    decreases s.len(),
{
    if s.len() == 0 {
        assert(esc_spaces(out, s, handle_ap) =~= out + s);
    } else {
        let c = s[0];
        assert(esc_spaces_char(c, line_start(out), handle_ap) == seq![c]);
        let out2 = out + seq![c];
        let rest = s.subrange(1, s.len() as int);
        assert(line_start(out2) == (c == '\n'));
        lemma_escape_argument_identity(out2, rest, handle_ap);
        assert(out2 + rest =~= out + s);
    }
}

/// A line beginning with `.`, `'` or a space gets the zero-width no-op
/// prefix `\&` inserted before it.
pub proof fn lemma_line_start_control_prefixed(out: Seq<char>, c: char)
    requires
        line_start(out),
        c == '.' || c == '\'' || c == ' ',
    ensures
        esc_special(out, seq![c], false) == out + "\\&"@.push(c),
{
    let s = seq![c];
    assert(s[0] == c);
    assert(esc_special_char(c, line_start(out), false) == "\\&"@.push(c));
    assert(s.subrange(1, 1) =~= Seq::<char>::empty());
    assert(esc_special(out, s, false) == esc_special(out + "\\&"@.push(c), s.subrange(1, 1), false));
}

} // verus!
