//! Glyphs and their ASCII stand-ins.

use rdmatop::tui::glyphs::{
    ascii, ascii_border, cursor, detect, h_scrollbar, locale_utf8, meter, probe_answer,
    tmux_answer, tr, unicode, v_scrollbar,
};

#[test]
fn ascii_map_covers_ui_glyphs() {
    // Every glyph the UI emits must have an ASCII stand-in, and none map
    // back to a multibyte char.
    for c in [
        '│', '─', '↑', '↓', '←', '→', '●', '▏', '▐', '▲', '▼', '◀', '▶', '▬', '±', '…', '█',
        '▇', '▆', '▅', '▄', '▃', '▂', '▁', '░',
    ] {
        let a = ascii(c).unwrap_or_else(|| panic!("no ascii for {c:?}"));
        assert!(a.is_ascii(), "{c:?} -> {a:?} is not ascii");
    }
}

#[test]
fn transliteration_replaces_glyphs_only() {
    assert_eq!(tr("plain text 123", false), "plain text 123");
    assert_eq!(tr("↑ / k │ ─", false), "^ / k | -");
    assert!(tr("↑↓←→±…▏●█░▶", false).is_ascii());
    // Text of the host, such as a command line, is left as it is.
    assert_eq!(tr("é 中", false), "é 中");
    assert_eq!(tr("↑ é", true), "↑ é");
}

#[test]
fn an_explicit_answer_beats_the_locale() {
    assert!(unicode(Some(true), false));
    assert!(!unicode(Some(false), true));
    assert!(unicode(None, true));
    assert!(!unicode(None, false));
    // In tmux its own answer decides; outside the cursor probe does.
    assert!(detect(true, Some(true), Some(false), false));
    assert!(!detect(true, Some(false), Some(true), true));
    assert!(detect(false, Some(false), Some(true), false));
    assert!(detect(false, None, None, true));
}

#[test]
fn tmux_answers_with_one_or_zero() {
    assert_eq!(tmux_answer(Some(b'1')), Some(true));
    assert_eq!(tmux_answer(Some(b'0')), Some(false));
    assert_eq!(tmux_answer(None), None);
    assert!(probe_answer(1));
    assert!(!probe_answer(3));
}

#[test]
fn the_first_set_locale_decides() {
    assert!(locale_utf8(Some("en_US.UTF-8"), Some("C"), Some("C")));
    assert!(locale_utf8(None, Some("de_DE.utf8"), Some("C")));
    assert!(locale_utf8(Some(""), None, Some("C.UTF-8")));
    assert!(!locale_utf8(Some("C"), Some("en_US.UTF-8"), None));
    assert!(!locale_utf8(None, None, None));
}

#[test]
fn glyph_sets_follow_the_terminal() {
    assert_ne!(meter(true), meter(false));
    assert!(meter(false).0.is_ascii() && meter(false).1.is_ascii());
    assert!(cursor(false).is_ascii() && !cursor(true).is_ascii());
    assert!(v_scrollbar(false).thumb.is_ascii() && h_scrollbar(false).track.is_ascii());
    assert_eq!(v_scrollbar(true).begin, "▲");
    assert_eq!(h_scrollbar(true).end, "▶");
    assert_eq!(ascii_border(), ("+", "|", "-"));
}
