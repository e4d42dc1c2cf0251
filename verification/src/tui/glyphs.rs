//! ASCII fallback for terminals that can't render UTF-8, where box-drawing and
//! block glyphs come out as garbage. The terminal is probed at startup, and
//! the interface is drawn in Unicode or ASCII accordingly.

use vstd::prelude::*;

use crate::lists;
use crate::text;

verus! {

/// Whether glyphs can safely be drawn in UTF-8: what was found at startup, or
/// what the locale says while nothing was.
pub fn unicode(found: Option<bool>, locale: bool) -> (r: bool)
    ensures
        r == (match found {
            Some(b) => b,
            None => locale,
        }),
{
    match found {
        Some(b) => b,
        None => locale,
    }
}

/// Decides UTF-8 support from the live terminal. Inside tmux its client flag
/// is trusted; otherwise the probe. The locale decides where there is no
/// answer: the probe is fooled inside tmux, so it never stands in there.
pub fn detect(in_tmux: bool, tmux: Option<bool>, probe: Option<bool>, locale: bool) -> (r: bool)
    ensures
        r == (match (if in_tmux {
            tmux
        } else {
            probe
        }) {
            Some(b) => b,
            None => locale,
        }),
{
    if in_tmux {
        unicode(tmux, locale)
    } else {
        unicode(probe, locale)
    }
}

/// The answer of tmux about its client, by the first byte that it printed.
pub fn tmux_answer(first: Option<u8>) -> (r: Option<bool>)
    ensures
        r == (if first == Some(49u8) {
            Some(true)
        } else if first == Some(48u8) {
            Some(false)
        } else {
            None
        }),
{
    match first {
        Some(b) => if b == 49 {
            Some(true)
        } else if b == 48 {
            Some(false)
        } else {
            None
        },
        None => None,
    }
}

/// Whether a glyph of several bytes that takes one column moved the cursor by
/// one: then the terminal decoded UTF-8.
pub fn probe_answer(column: u16) -> (r: bool)
    ensures
        r == (column == 1),
{
    column == 1
}

/// Whether a locale names UTF-8.
pub open spec fn names_utf8(locale: Seq<char>) -> bool {
    let upper = text::uppercased(locale);
    text::has_infix(upper, "UTF-8"@) || text::has_infix(upper, "UTF8"@)
}

/// The value of the first locale variable that is set and not empty.
pub open spec fn effective_locale(
    lc_all: Option<Seq<char>>,
    lc_ctype: Option<Seq<char>>,
    lang: Option<Seq<char>>,
) -> Option<Seq<char>> {
    if lc_all is Some && lc_all->0.len() > 0 {
        lc_all
    } else if lc_ctype is Some && lc_ctype->0.len() > 0 {
        lc_ctype
    } else if lang is Some && lang->0.len() > 0 {
        lang
    } else {
        None
    }
}

fn nonempty_text<'a>(v: Option<&'a str>) -> (r: Option<&'a str>)
    ensures
        r == (if v is Some && v->0@.len() > 0 {
            v
        } else {
            None
        }),
{
    match v {
        Some(s) => if s.unicode_len() > 0 {
            Some(s)
        } else {
            None
        },
        None => None,
    }
}

/// Locale fallback, like htop: a UTF-8 `LC_*`/`LANG` gets blocks, else ASCII.
/// POSIX precedence: LC_ALL > LC_CTYPE > LANG; first non-empty decides.
pub fn locale_utf8(lc_all: Option<&str>, lc_ctype: Option<&str>, lang: Option<&str>) -> (r: bool)
    ensures
        r == (match effective_locale(
            lists::opt_view(lc_all),
            lists::opt_view(lc_ctype),
            lists::opt_view(lang),
        ) {
            Some(v) => names_utf8(v),
            None => false,
        }),
{
    let chosen: Option<&str> = match nonempty_text(lc_all) {
        Some(s) => Some(s),
        None => match nonempty_text(lc_ctype) {
            Some(s) => Some(s),
            None => nonempty_text(lang),
        },
    };
    match chosen {
        Some(s) => {
            let upper = text::ascii_uppercase(s);
            text::contains(upper.as_str(), "UTF-8") || text::contains(upper.as_str(), "UTF8")
        },
        None => false,
    }
}

/// The ASCII stand-in of a glyph.
pub open spec fn stand_in(c: char) -> Option<Seq<char>> {
    if c == '│' || c == '▏' || c == '▐' {
        Some("|"@)
    } else if c == '─' || c == '░' {
        Some("-"@)
    } else if c == '↑' || c == '▲' {
        Some("^"@)
    } else if c == '↓' || c == '▼' {
        Some("v"@)
    } else if c == '←' || c == '◀' {
        Some("<"@)
    } else if c == '→' || c == '▶' {
        Some(">"@)
    } else if c == '●' || c == '▆' || c == '▅' {
        Some("*"@)
    } else if c == '▬' {
        Some("="@)
    } else if c == '±' {
        Some("+-"@)
    } else if c == '…' {
        Some("..."@)
    } else if c == '█' || c == '▇' {
        Some("#"@)
    } else if c == '▄' || c == '▃' {
        Some("+"@)
    } else if c == '▂' {
        Some("."@)
    } else if c == '▁' {
        Some("_"@)
    } else {
        None
    }
}

/// Map a Unicode glyph to its closest ASCII stand-in.
pub fn ascii(c: char) -> (r: Option<&'static str>)
    ensures
        lists::opt_view(r) == stand_in(c),
{
    if c == '│' || c == '▏' || c == '▐' {
        Some("|")
    } else if c == '─' || c == '░' {
        Some("-")
    } else if c == '↑' || c == '▲' {
        Some("^")
    } else if c == '↓' || c == '▼' {
        Some("v")
    } else if c == '←' || c == '◀' {
        Some("<")
    } else if c == '→' || c == '▶' {
        Some(">")
    } else if c == '●' || c == '▆' || c == '▅' {
        Some("*")
    } else if c == '▬' {
        Some("=")
    } else if c == '±' {
        Some("+-")
    } else if c == '…' {
        Some("...")
    } else if c == '█' || c == '▇' {
        Some("#")
    } else if c == '▄' || c == '▃' {
        Some("+")
    } else if c == '▂' {
        Some(".")
    } else if c == '▁' {
        Some("_")
    } else {
        None
    }
}

/// Text with every glyph that has a stand-in replaced by it.
pub open spec fn transliterated(s: Seq<char>) -> Seq<char>
    decreases s.len(),
{
    if s.len() == 0 {
        seq![]
    } else {
        transliterated(s.drop_last()) + (match stand_in(s.last()) {
            Some(a) => a,
            None => seq![s.last()],
        })
    }
}

/// Transliterate a string to ASCII when the terminal can't do UTF-8.
pub fn tr(s: &str, unicode: bool) -> (r: String)
    ensures
        r@ == (if unicode {
            s@
        } else {
            transliterated(s@)
        }),
{
    if unicode {
        return s.to_owned();
    }
    let chars = text::chars_of(s);
    let mut out = String::new();
    let mut i: usize = 0;
    while i < chars.len()
        invariant
            i <= chars.len(),
            chars@ == s@,
            out@ == transliterated(s@.take(i as int)),
        decreases chars.len() - i,
    {
        proof {
            text::lemma_take_step(s@, i as int);
        }
        let ghost before = out@;
        match ascii(chars[i]) {
            Some(a) => {
                out.append(a);
            },
            None => {
                out.push(chars[i]);
                assert(out@ =~= before + seq![s@[i as int]]);
            },
        }
        i += 1;
    }
    assert(s@.take(s@.len() as int) =~= s@);
    out
}

/// Throughput meter fill/empty chars: solid block over faint shade in UTF-8,
/// htop-style pipe over blank in ASCII.
pub fn meter(unicode: bool) -> (r: (char, char))
    ensures
        r == (if unicode {
            ('█', '░')
        } else {
            ('|', ' ')
        }),
{
    if unicode {
        ('█', '░')
    } else {
        ('|', ' ')
    }
}

/// Selection cursor for tables (`highlight_symbol`).
pub fn cursor(unicode: bool) -> (r: &'static str)
    ensures
        r@ == (if unicode {
            "▶ "@
        } else {
            "> "@
        }),
{
    if unicode {
        "▶ "
    } else {
        "> "
    }
}

/// The four glyphs of a scrollbar: thumb, track, and both ends.
#[derive(Clone, Copy, Debug)]
pub struct ScrollGlyphs {
    pub thumb: &'static str,
    pub track: &'static str,
    pub begin: &'static str,
    pub end: &'static str,
}

/// The glyphs of the vertical scrollbar.
pub fn v_scrollbar(unicode: bool) -> (r: ScrollGlyphs)
    ensures
        unicode ==> r.thumb@ == "▐"@ && r.track@ == "│"@ && r.begin@ == "▲"@ && r.end@ == "▼"@,
        !unicode ==> r.thumb@ == "#"@ && r.track@ == "|"@ && r.begin@ == "^"@ && r.end@ == "v"@,
{
    if unicode {
        ScrollGlyphs { thumb: "▐", track: "│", begin: "▲", end: "▼" }
    } else {
        ScrollGlyphs { thumb: "#", track: "|", begin: "^", end: "v" }
    }
}

/// The glyphs of the horizontal scrollbar.
pub fn h_scrollbar(unicode: bool) -> (r: ScrollGlyphs)
    ensures
        unicode ==> r.thumb@ == "▬"@ && r.track@ == "─"@ && r.begin@ == "◀"@ && r.end@ == "▶"@,
        !unicode ==> r.thumb@ == "="@ && r.track@ == "-"@ && r.begin@ == "<"@ && r.end@ == ">"@,
{
    if unicode {
        ScrollGlyphs { thumb: "▬", track: "─", begin: "◀", end: "▶" }
    } else {
        ScrollGlyphs { thumb: "=", track: "-", begin: "<", end: ">" }
    }
}

/// The three glyphs of an ASCII box: corner, upright and level.
pub fn ascii_border() -> (r: (&'static str, &'static str, &'static str))
    ensures
        r.0@ == "+"@,
        r.1@ == "|"@,
        r.2@ == "-"@,
{
    ("+", "|", "-")
}

/// Whether every character of a text is ASCII.
pub open spec fn all_ascii(s: Seq<char>) -> bool {
    forall|i: int| 0 <= i < s.len() ==> (#[trigger] s[i]) as u32 <= 0x7f
}

/// Every stand-in is ASCII.
pub proof fn law_stand_ins_are_ascii(c: char)
    ensures
        match stand_in(c) {
            Some(a) => a.len() > 0 && all_ascii(a),
            None => true,
        },
{
    reveal_strlit("|");
    reveal_strlit("-");
    reveal_strlit("^");
    reveal_strlit("v");
    reveal_strlit("<");
    reveal_strlit(">");
    reveal_strlit("*");
    reveal_strlit("=");
    reveal_strlit("+-");
    reveal_strlit("...");
    reveal_strlit("#");
    reveal_strlit("+");
    reveal_strlit(".");
    reveal_strlit("_");
}

/// ASCII text is left as it is.
pub proof fn law_ascii_text_is_kept(s: Seq<char>)
    requires
        all_ascii(s),
    ensures
        transliterated(s) == s,
    decreases s.len(),
{
    if s.len() > 0 {
        assert(s[s.len() - 1] as u32 <= 0x7f);
        assert forall|i: int| 0 <= i < s.drop_last().len() implies (#[trigger] s.drop_last()[i])
            as u32 <= 0x7f by {
            assert(s[i] as u32 <= 0x7f);
        }
        law_ascii_text_is_kept(s.drop_last());
        assert(stand_in(s.last()) is None);
        assert(transliterated(s) =~= s);
    }
}

/// Text whose every character is ASCII or has a stand-in comes out as ASCII.
pub proof fn law_transliteration_is_ascii(s: Seq<char>)
    requires
        forall|i: int|
            0 <= i < s.len() ==> (#[trigger] s[i]) as u32 <= 0x7f || stand_in(s[i]) is Some,
    ensures
        all_ascii(transliterated(s)),
    decreases s.len(),
{
    if s.len() > 0 {
        let head = s.drop_last();
        assert forall|i: int| 0 <= i < head.len() implies (#[trigger] head[i]) as u32 <= 0x7f
            || stand_in(head[i]) is Some by {
            assert(s[i] == head[i]);
        }
        law_transliteration_is_ascii(head);
        let c = s[s.len() - 1];
        law_stand_ins_are_ascii(c);
        let before = transliterated(head);
        let after = transliterated(s);
        assert forall|i: int| 0 <= i < after.len() implies (#[trigger] after[i]) as u32
            <= 0x7f by {
            if i < before.len() {
                assert(after[i] == before[i]);
            } else {
                match stand_in(c) {
                    Some(a) => {
                        assert(after[i] == a[i - before.len()]);
                    },
                    None => {
                        assert(after[i] == c);
                    },
                }
            }
        }
    }
}

/// Text is rewritten character by character, in order; a character without a
/// stand-in stays.
pub proof fn law_text_is_rewritten_in_order(a: Seq<char>, b: Seq<char>, c: char)
    ensures
        transliterated(a + b) == transliterated(a) + transliterated(b),
        stand_in(c) is None ==> transliterated(seq![c]) == seq![c],
        stand_in(c) matches Some(s) ==> transliterated(seq![c]) == s,
    decreases b.len(),
{
    assert(seq![c].drop_last() =~= seq![]);
    assert(transliterated(seq![]) =~= seq![]);
    assert(transliterated(seq![c]) =~= (match stand_in(c) {
        Some(s) => s,
        None => seq![c],
    }));
    if b.len() == 0 {
        assert(a + b =~= a);
        assert(transliterated(b) =~= seq![]);
    } else {
        law_text_is_rewritten_in_order(a, b.drop_last(), c);
        assert((a + b).drop_last() =~= a + b.drop_last());
        assert((a + b).last() == b.last());
    }
    assert(transliterated(a + b) =~= transliterated(a) + transliterated(b));
}

/// Of the locale settings the first that is set counts: the one for everything,
/// then the one for characters, then the language; an empty one is not set.
pub proof fn law_locale_precedence(
    lc_all: Option<Seq<char>>,
    lc_ctype: Option<Seq<char>>,
    lang: Option<Seq<char>>,
    s: Seq<char>,
)
    requires
        s.len() > 0,
    ensures
        effective_locale(Some(s), lc_ctype, lang) == Some(s),
        effective_locale(None, Some(s), lang) == Some(s),
        effective_locale(Some(seq![]), Some(s), lang) == Some(s),
        effective_locale(None, None, Some(s)) == Some(s),
        effective_locale(None, None, None) is None,
        effective_locale(None, None, Some(seq![])) is None,
        effective_locale(None, lc_ctype, lang) == effective_locale(Some(seq![]), lc_ctype, lang),
        effective_locale(lc_all, None, lang) == effective_locale(lc_all, Some(seq![]), lang),
{
}

} // verus!
