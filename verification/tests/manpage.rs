//! Tests for the ROFF manpage rendering.

use roff::man::Manpage;
use roff::mdoc::MDoc;
use roff::roff::{Apostrophes, Roff};
use roff::{literal, mono, text, Doc, Section, Style};

fn doc() -> Doc {
    let mut doc = Doc::default();
    doc.section("Description");
    doc.paragraph(&[text("Pass "), literal("--help"), text(" for info.")]);
    doc.section("Options");
    let mut items = Doc::default();
    items.definition(
        &[literal("-v"), mono(" "), literal("--verbose")],
        text("Use verbose output"),
    );
    items.definition(literal("--help"), text("Print usage"));
    items.definition(literal("--version"), text("Print version"));
    doc.dlist(&items);
    doc
}

#[test]
fn man_escapes_dashes_and_uppercases_sections() {
    let page = doc().render_to_manpage("SIMPLE", Section::General, &[]);

    assert!(page.contains(".TH SIMPLE 1\n"));
    // section titles come as plain uppercased control arguments
    assert!(page.contains(".SH DESCRIPTION\n"));
    assert!(page.contains(".SH OPTIONS\n"));
    assert!(!page.contains("Description"));
    // the double dash is escaped to non-breaking hyphens
    assert!(page.contains("\\fB\\-\\-help\\fP"));
    assert!(!page.contains("--help"));
    // each definition term is introduced by a .TP control
    assert_eq!(page.matches(".TP\n").count(), 3);
}

#[test]
fn man_pre_preserves_newlines() {
    let mut doc = Doc::default();
    doc.pre(text("Exit code:\n 0: if OK\n 1: if not OK"));
    let page = doc.render_to_manpage("X", Section::General, &[]);
    assert!(page.contains(
        ".PP\n.nf\n\\fRExit code:\n\\& 0: if OK\n\\& 1: if not OK\\fP\n.fi\n"
    ));
}

#[test]
fn man_numbered_list_ordinals() {
    let mut doc = Doc::default();
    let mut items = Doc::default();
    items.item(text("first"));
    items.item(text("second"));
    doc.nlist(&items);
    let page = doc.render_to_manpage("X", Section::General, &[]);
    assert!(page.contains("\\fR1. \\fP"));
    assert!(page.contains("\\fR2. \\fP"));
}

#[test]
fn man_unnumbered_list_bullets() {
    let mut doc = Doc::default();
    let mut items = Doc::default();
    items.item(text("only"));
    doc.ulist(&items);
    let page = doc.render_to_manpage("X", Section::General, &[]);
    assert!(page.contains("\\fR* \\fP\\fRonly\\fP"));
}

#[test]
fn try_render_rejects_nested_lists() {
    let mut inner_items = Doc::default();
    inner_items.item(text("a"));
    let mut sub = Doc::default();
    sub.ulist(&inner_items);
    let mut outer_items = Doc::default();
    outer_items.item(&sub);
    let mut doc = Doc::default();
    doc.ulist(&outer_items);

    assert!(doc
        .try_render_to_manpage("X", Section::General, &[])
        .is_none());
}

#[test]
fn try_render_accepts_flat_lists() {
    let d = doc();
    let direct = d.render_to_manpage("SIMPLE", Section::General, &[]);
    let checked = d
        .try_render_to_manpage("SIMPLE", Section::General, &[])
        .expect("flat lists must render");
    assert_eq!(direct, checked);
}

#[test]
fn manpage_builder_header_and_label() {
    let mut page = Manpage::new("CORRUPT", Section::General, &[]);
    page.section("NAME");
    page.paragraph(&[(Style::Text, "corrupt - modify files")]);
    page.section("OPTIONS");
    page.label(
        None,
        &[
            (Style::Literal, "-n"),
            (Style::Text, "="),
            (Style::Metavar, "BITS"),
        ],
    );
    let out = page.render();
    assert!(out.starts_with(".ie \\n(.g .ds Aq \\(aq\n.el .ds Aq '\n"));
    assert!(out.contains(".TH CORRUPT 1\n"));
    assert!(out.contains(".SH NAME\n"));
    assert!(out.contains("\\fRcorrupt \\- modify files\\fP"));
    assert!(out.contains(".TP\n\\fB\\-n\\fR=\\fIBITS\\fP\n.PP\n"));
}

#[test]
fn manpage_extra_metadata_and_custom_section() {
    let page = Manpage::new("X", Section::Custom("3x"), &["2024-01-01", "suite"]);
    let out = page.render();
    assert!(out.contains(".TH X 3x 2024\\-01\\-01 suite\n"));
}

#[test]
fn manpage_extra_metadata_is_capped_at_three() {
    let page = Manpage::new("X", Section::General, &["a", "b", "c", "d"]);
    let out = page.render();
    assert!(out.contains(".TH X 1 a b c\n"));
    assert!(!out.contains(" d\n"));
}

#[test]
fn apostrophes_handled_in_control_arguments() {
    let mut doc = Roff::new();
    doc.control("SH", &["it's"]);
    assert_eq!(
        doc.render(Apostrophes::Handle),
        ".ie \\n(.g .ds Aq \\(aq\n.el .ds Aq '\n.SH it\\*(Aqs\n"
    );
    let mut plain = Roff::new();
    plain.control("SH", &["it's"]);
    assert_eq!(plain.render(Apostrophes::DontHandle), ".SH it's\n");
}

#[test]
fn control_arguments_escape_spaces_and_newlines() {
    let mut doc = Roff::new();
    doc.control("SH", &["Section\nname with newline"]);
    assert_eq!(
        doc.render(Apostrophes::DontHandle),
        ".SH Section\\ name\\ with\\ newline\n"
    );
}

#[test]
fn roff_comment_does_not_render_content_specially() {
    let mut doc = Roff::new();
    doc.roff_comment("generator note");
    assert_eq!(doc.render(Apostrophes::DontHandle), ".\\\" generator note");
}

#[test]
fn mdoc_preamble_builds() {
    let _doc = MDoc::new("January 1, 2024", "X", "x", "do an x thing");
}

#[test]
fn subsection_title_keeps_case() {
    let mut doc = Doc::default();
    doc.section("One");
    doc.subsection("Mixed Case");
    doc.paragraph(text("body"));
    let page = doc.render_to_manpage("X", Section::General, &[]);
    assert!(page.contains(".SH ONE\n"));
    assert!(page.contains(".SS Mixed\\ Case\n"));
}

#[test]
fn roff_escape_inserts_raw_sequences() {
    let mut doc = Roff::new();
    doc.escape("\\fB");
    doc.plaintext("bold ");
    doc.escape("\\f(CR");
    doc.plaintext("mono bold ");
    doc.escape("\\f[R]");
    doc.plaintext("regular plaintext");
    assert_eq!(
        doc.render(Apostrophes::DontHandle),
        "\\fBbold \\f(CRmono bold \\f[R]regular plaintext"
    );
}

#[test]
fn roff_len_and_clear() {
    let mut doc = Roff::new();
    assert!(doc.is_empty());
    doc.plaintext("abc");
    assert_eq!(doc.len(), 3);
    assert!(!doc.is_empty());
    doc.clear();
    assert!(doc.is_empty());
    assert_eq!(doc.len(), 0);
}

#[test]
fn roff_strip_newlines_collapses_text_newlines() {
    let mut doc = Roff::new();
    doc.plaintext("this newline is kept\n");
    doc.strip_newlines(true);
    doc.plaintext("but this one\nis removed.");
    assert_eq!(
        doc.render(Apostrophes::DontHandle),
        "this newline is kept\nbut this one is removed."
    );
}

#[test]
fn manpage_raw_stream_extends_the_page() {
    let mut page = Manpage::new("X", Section::General, &[]);
    page.raw().control("PP", &[]);
    page.raw().roff_comment("raw note");
    let out = page.render();
    assert!(out.contains(".PP\n"));
    assert!(out.contains(".\\\" raw note"));
}
