//! Tests for the semantic layer's markdown rendering.

use roff::{literal, metavar, mono, text, Doc, Style, StyledChar};

fn doc() -> Doc {
    let mut doc = Doc::default();
    doc.section("Description");
    doc.paragraph(&[text("Pass "), literal("--help"), text(" for info.")]);
    doc.section("Options");
    let mut items = Doc::default();
    items.definition(
        &[literal("-v"), mono(" "), literal("--verbose")],
        text("Use verbose output"),
    );
    items.definition(literal("--help"), text("Print usage"));
    items.definition(literal("--version"), text("Print version"));
    doc.dlist(&items);

    doc.pre(text("Exit code:\n 0: if OK\n 1: if not OK"));

    doc.paragraph(&[
        text("A few lines\n"),
        text("of text\n"),
        text(".can  be   here"),
    ]);

    doc
}

#[test]
fn semantic_to_markdown() {
    let doc = doc();

    let expected = "\
# Description

<p>Pass <tt><b>--help</b></tt> for info.</p>

# Options

<dl>
<dt><tt><b>-v</b> <b>--verbose</b></tt></dt>
<dd>Use verbose output</dd>
<dt><tt><b>--help</b></tt></dt>
<dd>Print usage</dd>
<dt><tt><b>--version</b></tt></dt>
<dd>Print version</dd></dl>

<pre>Exit code:
 0: if OK
 1: if not OK</pre>

<p>A few lines
of text
.can  be   here</p>";

    assert_eq!(doc.render_to_markdown(), expected);
}

#[test]
fn md_literal_fragment() {
    let mut doc = Doc::default();
    doc.text("Pass ");
    doc.literal("--help");
    doc.text(" to print the usage");
    assert_eq!(
        doc.render_to_markdown(),
        "Pass <tt><b>--help</b></tt> to print the usage"
    );
}

#[test]
fn md_metavar_shares_mono_wrapper() {
    let mut doc = Doc::default();
    doc.text("To save output to file: ");
    doc.literal("-o");
    doc.mono(" ");
    doc.metavar("FILE");
    assert_eq!(
        doc.render_to_markdown(),
        "To save output to file: <tt><b>-o</b> <i>FILE</i></tt>"
    );
}

#[test]
fn md_same_style_spans_share_wrappers() {
    let mut doc = Doc::default();
    doc.literal("-a");
    doc.literal("bc");
    assert_eq!(doc.render_to_markdown(), "<tt><b>-abc</b></tt>");
}

#[test]
fn md_important_is_bold() {
    let mut doc = Doc::default();
    doc.text("Please ");
    doc.important("do not");
    doc.text(" the cat!");
    assert_eq!(doc.render_to_markdown(), "Please <b>do not</b> the cat!");
}

#[test]
fn md_styled_chars() {
    let mut doc = Doc::default();
    doc.push(&[
        StyledChar(Style::Literal, '-'),
        StyledChar(Style::Literal, 'h'),
    ]);
    assert_eq!(doc.render_to_markdown(), "<tt><b>-h</b></tt>");
}

#[test]
fn md_slices_and_chars_mix() {
    let mut doc = Doc::default();
    let mut inner = Doc::default();
    inner.push(&[
        StyledChar(Style::Literal, '-'),
        StyledChar(Style::Literal, 'h'),
    ]);
    inner.push(&[text(" and "), literal("--help"), text(" prints usage")]);
    doc.paragraph(&inner);
    assert_eq!(
        doc.render_to_markdown(),
        "<p><tt><b>-h</b></tt> and <tt><b>--help</b></tt> prints usage</p>"
    );
}

#[test]
fn md_ulist() {
    let mut doc = Doc::default();
    doc.section("Usage");
    doc.paragraph(&[text("Program takes "), literal("--help"), text(" flag")]);
    let mut items = Doc::default();
    items.item(text("program is written in Rust"));
    items.item(text("program should not crash"));
    items.item(&[
        text("pass "),
        literal("--version"),
        text(" to see the version"),
    ]);
    doc.ulist(&items);

    let expected = "\
# Usage

<p>Program takes <tt><b>--help</b></tt> flag</p>

<ul>
<li>program is written in Rust</li>
<li>program should not crash</li>
<li>pass <tt><b>--version</b></tt> to see the version</li></ul>";
    assert_eq!(doc.render_to_markdown(), expected);
}

#[test]
fn md_nlist_uses_ol() {
    let mut doc = Doc::default();
    let mut items = Doc::default();
    items.item(text("first"));
    items.item(text("second"));
    doc.nlist(&items);
    assert_eq!(
        doc.render_to_markdown(),
        "<ol>\n<li>first</li>\n<li>second</li></ol>"
    );
}

#[test]
fn md_empty_doc_renders_empty() {
    let doc = Doc::default();
    assert_eq!(doc.render_to_markdown(), "");
}

#[test]
fn md_pre_keeps_newlines() {
    let mut doc = Doc::default();
    doc.pre(text("a\n.b\n c"));
    assert_eq!(doc.render_to_markdown(), "<pre>a\n.b\n c</pre>");
}

#[test]
fn md_subsection_heading() {
    let mut doc = Doc::default();
    doc.section("One");
    doc.subsection("Two");
    doc.paragraph(text("body"));
    assert_eq!(
        doc.render_to_markdown(),
        "# One\n\n## Two\n\n<p>body</p>"
    );
}

#[test]
fn md_term_and_item() {
    let mut items = Doc::default();
    items.term(text("key"));
    items.item(text("value"));
    let mut doc = Doc::default();
    doc.dlist(&items);
    assert_eq!(doc.render_to_markdown(), "<dl>\n<dt>key</dt>\n<dd>value</dd></dl>");
}

#[test]
fn md_char_fragment() {
    let mut doc = Doc::default();
    doc.push(&'x');
    assert_eq!(doc.render_to_markdown(), "x");
}

#[test]
fn doc_append_concatenates() {
    let mut a = Doc::default();
    a.text("one ");
    let mut b = Doc::default();
    b.text("two");
    a.append(&b);
    assert_eq!(a.render_to_markdown(), "one two");
}
