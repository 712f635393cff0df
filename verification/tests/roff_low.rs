//! Tests for the low level ROFF composer.

use roff::roff::{Apostrophes, Font, Roff};

#[test]
fn roff_escape_dash_in_plaintext() {
    let mut doc = Roff::default();
    doc.plaintext("-");
    assert_eq!(r"\-", doc.render(Apostrophes::DontHandle));
}

#[test]
fn roff_escape_backslash_in_plaintext() {
    let mut doc = Roff::default();
    doc.plaintext(r"\x");
    assert_eq!(r"\\x", doc.render(Apostrophes::DontHandle));
}

#[test]
fn roff_escape_backslash_and_dash_in_plaintext() {
    let mut doc = Roff::default();
    doc.plaintext(r"\-");
    assert_eq!(r"\\\-", doc.render(Apostrophes::DontHandle));
}

#[test]
fn roff_escapes_leading_control_chars_and_space_in_plaintext() {
    let mut doc = Roff::default();
    doc.plaintext("foo\n.bar\n'yo\n hmm");
    assert_eq!("foo\n\\&.bar\n\\&'yo\n\\& hmm", doc.render(Apostrophes::DontHandle));
}

#[test]
fn roff_escape_plain_in_plaintext() {
    let mut doc = Roff::default();
    doc.plaintext("abc");
    assert_eq!("abc", doc.render(Apostrophes::DontHandle));
}

#[test]
fn roff_render_dash_in_plaintext() {
    let mut doc = Roff::default();
    doc.plaintext("foo-bar");
    assert_eq!("foo\\-bar", doc.render(Apostrophes::DontHandle));
}

#[test]
fn roff_render_dash_in_font() {
    let mut doc = Roff::default();
    doc.text(&[(Font::Current, "foo-bar")]);
    assert_eq!("foo\\-bar", doc.render(Apostrophes::DontHandle));
}

#[test]
fn roff_render_roman() {
    let mut doc = Roff::default();
    doc.text(&[(Font::Current, "foo")]);
    assert_eq!("foo", doc.render(Apostrophes::DontHandle));
}

#[test]
fn roff_render_italic() {
    let mut doc = Roff::default();
    doc.text(&[(Font::Italic, "foo")]);
    assert_eq!("\\fIfoo\\fP", doc.render(Apostrophes::DontHandle));
}

#[test]
fn roff_render_bold() {
    let mut doc = Roff::default();
    doc.text(&[(Font::Bold, "foo")]);
    assert_eq!("\\fBfoo\\fP", doc.render(Apostrophes::DontHandle));
}

#[test]
fn roff_render_text_roman() {
    let mut doc = Roff::default();
    doc.text(&[(Font::Roman, "roman")]);
    assert_eq!("\\fRroman\\fP", doc.render(Apostrophes::DontHandle));
}

#[test]
fn roff_render_text_plain() {
    let mut doc = Roff::default();
    doc.text(&[(Font::Current, "roman")]);
    assert_eq!("roman", doc.render(Apostrophes::DontHandle));
}

#[test]
fn roff_render_text_with_leading_period() {
    let mut doc = Roff::default();
    doc.text(&[(Font::Current, ".roman")]);
    assert_eq!("\\&.roman", doc.render(Apostrophes::DontHandle));
}

#[test]
fn roff_render_text_with_newline_period() {
    let mut doc = Roff::default();
    doc.text(&[(Font::Current, "foo\n.roman")]);
    assert_eq!("foo\n\\&.roman", doc.render(Apostrophes::DontHandle));
}

#[test]
fn roff_render_line_break() {
    let mut doc = Roff::default();
    doc.text(&[(Font::Current, "roman\n")]);
    doc.control("br", &[]);
    doc.text(&[(Font::Current, "more\n")]);
    assert_eq!("roman\n.br\nmore\n", doc.render(Apostrophes::DontHandle));
}

#[test]
fn roff_render_control() {
    let mut doc = Roff::default();
    doc.control("foo", &["bar", "foo and bar"]);
    assert_eq!(".foo bar foo\\ and\\ bar\n", doc.render(Apostrophes::DontHandle));
}

#[test]
fn roff_twice_bold() {
    let mut doc = Roff::default();
    doc.text(&[
        (Font::Bold, "bold,"),
        (Font::Current, " more bold"),
        (Font::Bold, " and more bold"),
    ]);
    assert_eq!("\\fBbold, more bold and more bold\\fP", doc.render(Apostrophes::DontHandle));
}

#[test]
fn roff_multiple_controls() {
    let mut doc = Roff::default();
    doc.control("br", &[]);
    doc.control("br", &[]);
    doc.control("br", &[]);
    assert_eq!(".br\n.br\n.br\n", doc.render(Apostrophes::DontHandle));
}
