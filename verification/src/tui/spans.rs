//! Styled text. A colour is named by what it stands for, and a number that
//! only a renderer can write keeps its exact parts.

use vstd::prelude::*;

use crate::lists;
use crate::metrics::{Mean, MeanView, Rate};
use crate::text;

verus! {

/// What a colour stands for.
#[derive(Debug)]
pub enum Tone {
    Fg,
    Muted,
    Accent,
    Good,
    Warning,
    Error,
    HeaderFg,
    GroupTitle,
    /// The mode field of the status bar.
    Mode,
    /// The mark of a running recording.
    Recording,
    /// Good, warning or muted, as a throughput is high, middling or low.
    ByThroughput(Mean),
    /// Error, warning or good, as the share of a whole is high, middling or
    /// low.
    ByShare { part: u128, whole: u128 },
}

/// What a tone holds.
pub enum ToneView {
    Fg,
    Muted,
    Accent,
    Good,
    Warning,
    Error,
    HeaderFg,
    GroupTitle,
    Mode,
    Recording,
    ByThroughput(MeanView),
    ByShare { part: nat, whole: nat },
}

impl View for Tone {
    type V = ToneView;

    open spec fn view(&self) -> ToneView {
        match self {
            Tone::Fg => ToneView::Fg,
            Tone::Muted => ToneView::Muted,
            Tone::Accent => ToneView::Accent,
            Tone::Good => ToneView::Good,
            Tone::Warning => ToneView::Warning,
            Tone::Error => ToneView::Error,
            Tone::HeaderFg => ToneView::HeaderFg,
            Tone::GroupTitle => ToneView::GroupTitle,
            Tone::Mode => ToneView::Mode,
            Tone::Recording => ToneView::Recording,
            Tone::ByThroughput(m) => ToneView::ByThroughput(m@),
            Tone::ByShare { part, whole } => ToneView::ByShare {
                part: *part as nat,
                whole: *whole as nat,
            },
        }
    }
}

/// A number to be written, by how it is written.
#[derive(Debug)]
pub enum Number {
    /// A mean of bytes as gigabits per second, with two decimals.
    Gbps(Mean),
    /// The sum of some means of bytes as gigabits per second, with two
    /// decimals.
    TotalGbps(Vec<Mean>),
    /// A mean per second, without decimals.
    PerSec(Mean),
    /// The sum of some means per second, without decimals.
    TotalPerSec(Vec<Mean>),
    /// A bar that a throughput fills, scaled to a link rate in Mb/s.
    Bar { rate: Mean, link_mbps: Option<u64> },
    /// A mean of packets per second, with a unit.
    Packets(Mean),
    /// A mean of bytes per second, with a binary unit.
    Bytes(Mean),
    /// A mean of events per second, with a unit.
    Events(Mean),
    /// A rate of bytes, cut to whole bytes per second, as megabytes per second
    /// with one decimal.
    LinkMegabytes(Rate),
    /// A mean of bytes as megabytes per second, with one decimal.
    GpuMegabytes(Mean),
    /// A line of bars, the last entries of a history.
    Spark { rates: Vec<Mean>, width: usize },
    /// A share in percent, with one decimal.
    Percent { part: u128, whole: u128 },
    /// The cells of a gauge that a share fills.
    GaugeFill { part: u128, whole: u128, width: usize },
    /// The cells of a gauge that a share leaves.
    GaugeRest { part: u128, whole: u128, width: usize },
    /// Bytes over a span, per second, with a short decimal unit.
    ShortBytes { bytes: u128, elapsed_ns: u64 },
}

/// What a number to be written holds.
pub enum NumberView {
    Gbps(MeanView),
    TotalGbps(Seq<MeanView>),
    PerSec(MeanView),
    TotalPerSec(Seq<MeanView>),
    Bar { rate: MeanView, link_mbps: Option<u64> },
    Packets(MeanView),
    Bytes(MeanView),
    Events(MeanView),
    LinkMegabytes(Rate),
    GpuMegabytes(MeanView),
    Spark { rates: Seq<MeanView>, width: int },
    Percent { part: nat, whole: nat },
    GaugeFill { part: nat, whole: nat, width: int },
    GaugeRest { part: nat, whole: nat, width: int },
    ShortBytes { bytes: nat, elapsed_ns: u64 },
}

impl View for Number {
    type V = NumberView;

    open spec fn view(&self) -> NumberView {
        match self {
            Number::Gbps(m) => NumberView::Gbps(m@),
            Number::TotalGbps(v) => NumberView::TotalGbps(lists::views(v@)),
            Number::PerSec(m) => NumberView::PerSec(m@),
            Number::TotalPerSec(v) => NumberView::TotalPerSec(lists::views(v@)),
            Number::Bar { rate, link_mbps } => NumberView::Bar {
                rate: rate@,
                link_mbps: *link_mbps,
            },
            Number::Packets(m) => NumberView::Packets(m@),
            Number::Bytes(m) => NumberView::Bytes(m@),
            Number::Events(m) => NumberView::Events(m@),
            Number::LinkMegabytes(r) => NumberView::LinkMegabytes(*r),
            Number::GpuMegabytes(m) => NumberView::GpuMegabytes(m@),
            Number::Spark { rates, width } => NumberView::Spark {
                rates: lists::views(rates@),
                width: *width as int,
            },
            Number::Percent { part, whole } => NumberView::Percent {
                part: *part as nat,
                whole: *whole as nat,
            },
            Number::GaugeFill { part, whole, width } => NumberView::GaugeFill {
                part: *part as nat,
                whole: *whole as nat,
                width: *width as int,
            },
            Number::GaugeRest { part, whole, width } => NumberView::GaugeRest {
                part: *part as nat,
                whole: *whole as nat,
                width: *width as int,
            },
            Number::ShortBytes { bytes, elapsed_ns } => NumberView::ShortBytes {
                bytes: *bytes as nat,
                elapsed_ns: *elapsed_ns,
            },
        }
    }
}

/// A piece of a span: text, or a number right-aligned in a field of at least
/// some width.
#[derive(Debug)]
pub enum Piece {
    Text(String),
    Number { value: Number, width: usize },
}

/// What a piece holds.
pub enum PieceView {
    Text(Seq<char>),
    Number { value: NumberView, width: int },
}

impl View for Piece {
    type V = PieceView;

    open spec fn view(&self) -> PieceView {
        match self {
            Piece::Text(s) => PieceView::Text(s@),
            Piece::Number { value, width } => PieceView::Number {
                value: value@,
                width: *width as int,
            },
        }
    }
}

/// Text in one style.
#[derive(Debug)]
pub struct Span {
    pub pieces: Vec<Piece>,
    pub tone: Tone,
    pub bold: bool,
}

/// What a span holds.
#[verifier::ext_equal]
pub struct SpanView {
    pub pieces: Seq<PieceView>,
    pub tone: ToneView,
    pub bold: bool,
}

impl View for Span {
    type V = SpanView;

    open spec fn view(&self) -> SpanView {
        SpanView { pieces: lists::views(self.pieces@), tone: self.tone@, bold: self.bold }
    }
}

/// One line of styled text.
#[derive(Debug)]
pub struct Line {
    pub spans: Vec<Span>,
}

impl View for Line {
    type V = Seq<SpanView>;

    open spec fn view(&self) -> Seq<SpanView> {
        lists::views(self.spans@)
    }
}

/// A span of text.
pub open spec fn words(text: Seq<char>, tone: ToneView, bold: bool) -> SpanView {
    SpanView { pieces: seq![PieceView::Text(text)], tone, bold }
}

/// A span of text.
pub fn styled(text: &str, tone: Tone, bold: bool) -> (r: Span)
    ensures
        r@ == words(text@, tone@, bold),
{
    let pieces = vec![Piece::Text(text.to_owned())];
    assert(lists::views(pieces@) =~= seq![PieceView::Text(text@)]);
    Span { pieces, tone, bold }
}

/// A span with a number between two texts.
pub open spec fn figure(
    before: Seq<char>,
    value: NumberView,
    width: int,
    after: Seq<char>,
    tone: ToneView,
) -> SpanView {
    SpanView {
        pieces: seq![
            PieceView::Text(before),
            PieceView::Number { value, width },
            PieceView::Text(after),
        ],
        tone,
        bold: false,
    }
}

/// A span with a number between two texts.
pub fn numbered(before: &str, value: Number, width: usize, after: &str, tone: Tone) -> (r: Span)
    ensures
        r@ == figure(before@, value@, width as int, after@, tone@),
{
    let ghost shown = value@;
    let pieces = vec![
        Piece::Text(before.to_owned()),
        Piece::Number { value, width },
        Piece::Text(after.to_owned()),
    ];
    assert(lists::views(pieces@) =~= seq![
        PieceView::Text(before@),
        PieceView::Number { value: shown, width: width as int },
        PieceView::Text(after@),
    ]);
    Span { pieces, tone, bold: false }
}

/// A line of one span.
pub fn single(span: Span) -> (r: Line)
    ensures
        r@ == seq![span@],
{
    let spans = vec![span];
    assert(lists::views(spans@) =~= seq![span@]);
    Line { spans }
}

/// A line without text.
pub fn blank() -> (r: Line)
    ensures
        r@ == Seq::<SpanView>::empty(),
{
    let r = Line { spans: Vec::new() };
    assert(lists::views(r.spans@) =~= Seq::empty());
    r
}

/// The whole number nearest to a quotient, the even one of two.
pub open spec fn half_even(n: nat, d: nat) -> nat {
    let q = n / d;
    let r = n % d;
    if 2 * r < d || 2 * r == d && q % 2 == 0 {
        q
    } else {
        q + 1
    }
}

/// Divides to the nearest whole number, the even one of two.
pub fn divide_half_even(n: u128, d: u128) -> (r: u128)
    requires
        0 < d <= 0xffff_ffff_ffff_ffff,
    ensures
        r == half_even(n as nat, d as nat),
{
    let q: u128 = n / d;
    let rest: u128 = n % d;
    if 2 * rest < d || 2 * rest == d && q % 2 == 0 {
        q
    } else {
        assert(rest > 0);
        assert(d > 1);
        assert(q < 0xffff_ffff_ffff_ffff_ffff_ffff_ffff_ffff) by (nonlinear_arith)
            requires
                q == n / d,
                d > 1,
                n <= 0xffff_ffff_ffff_ffff_ffff_ffff_ffff_ffff,
        ;
        q + 1
    }
}

/// The unit that a double of this size is a multiple of, at least `u`.
pub open spec fn double_unit(n: nat, u: nat) -> nat
    decreases n - u,
{
    if u == 0 || n < 0x20_0000_0000_0000 * u {
        u
    } else {
        double_unit(n, 2 * u)
    }
}

/// A whole number as a double holds it: to 53 binary digits, half to even.
pub open spec fn as_double(n: nat) -> nat {
    half_even(n, double_unit(n, 1)) * double_unit(n, 1)
}

fn nearest_double(n: u64) -> (r: u128)
    ensures
        r == as_double(n as nat),
        r <= 2 * n,
{
    let mut u: u64 = 1;
    while n as u128 >= 0x20_0000_0000_0000u128 * u as u128
        invariant
            1 <= u <= n || u == 1,
            u <= 0x1000,
            double_unit(n as nat, 1) == double_unit(n as nat, u as nat),
        decreases n - u,
    {
        assert(0x20_0000_0000_0000u128 * u as u128 <= 0xffff_ffff_ffff_ffff);
        assert(u < 0x800);
        u = 2 * u;
    }
    let q: u128 = divide_half_even(n as u128, u as u128);
    assert(q * u <= 2 * n) by {
        assert(q <= n / u + 1);
        if u == 1 {
            assert(n % u == 0);
        } else {
            assert((n / u + 1) * u <= n + u) by (nonlinear_arith)
                requires
                    u >= 1,
            ;
            assert(q * u <= (n / u + 1) * u) by (nonlinear_arith)
                requires
                    q <= n / u + 1,
                    u >= 1,
            ;
        }
    }
    q * u as u128
}

/// A number of tenths, with its decimal point.
pub open spec fn tenths_text(t: nat) -> Seq<char> {
    text::decimal(t / 10) + "."@ + text::decimal(t % 10)
}

/// Writes a number of tenths.
pub fn write_tenths(t: u128) -> (r: String)
    ensures
        r@ == tenths_text(t as nat),
{
    let mut out = text::decimal_u128(t / 10);
    out.append(".");
    out.append(text::decimal_u128(t % 10).as_str());
    out
}

/// A size in a unit of 1024 smaller ones, with one decimal.
pub open spec fn in_units(n: u64, unit: nat) -> Seq<char> {
    tenths_text(half_even(as_double(n as nat) * 10, unit))
}

fn write_in_units(n: u64, unit: u64) -> (r: String)
    requires
        unit > 0,
    ensures
        r@ == in_units(n, unit as nat),
{
    let d: u128 = nearest_double(n);
    write_tenths(divide_half_even(d * 10, unit as u128))
}

/// A size in kilobytes as shown.
pub open spec fn mem_text(kb: u64) -> Seq<char> {
    if kb >= 1_048_576 {
        in_units(kb, 1_048_576) + "G"@
    } else if kb >= 1024 {
        text::decimal(half_even(kb as nat, 1024)) + "M"@
    } else {
        text::decimal(kb as nat) + "K"@
    }
}

/// Writes a size in kilobytes.
pub fn fmt_mem_kb(kb: u64) -> (r: String)
    ensures
        r@ == mem_text(kb),
{
    if kb >= 1_048_576 {
        let mut out = write_in_units(kb, 1_048_576);
        out.append("G");
        out
    } else if kb >= 1024 {
        let mut out = text::decimal_u128(divide_half_even(kb as u128, 1024));
        out.append("M");
        out
    } else {
        let mut out = text::decimal_u64(kb);
        out.append("K");
        out
    }
}

/// Used and total memory as the gauge shows them.
pub open spec fn mem_label_text(used_mb: u64, total_mb: u64) -> Seq<char> {
    if total_mb >= 1024 {
        in_units(used_mb, 1024) + "/"@ + in_units(total_mb, 1024) + "G]"@
    } else {
        text::decimal(used_mb as nat) + "/"@ + text::decimal(total_mb as nat) + "M]"@
    }
}

/// Writes used and total memory.
pub fn mem_label(used_mb: u64, total_mb: u64) -> (r: String)
    ensures
        r@ == mem_label_text(used_mb, total_mb),
{
    if total_mb >= 1024 {
        let mut out = write_in_units(used_mb, 1024);
        out.append("/");
        out.append(write_in_units(total_mb, 1024).as_str());
        out.append("G]");
        out
    } else {
        let mut out = text::decimal_u64(used_mb);
        out.append("/");
        out.append(text::decimal_u64(total_mb).as_str());
        out.append("M]");
        out
    }
}

/// The length of a text in bytes.
pub open spec fn byte_len(s: Seq<char>) -> nat {
    vstd::utf8::encode_utf8(s).len()
}

/// The characters at the start of a text that fit in some bytes.
pub open spec fn fitting(s: Seq<char>, bytes: int) -> Seq<char>
    decreases s.len(),
{
    if s.len() == 0 || byte_len(seq![s[0]]) > bytes {
        seq![]
    } else {
        seq![s[0]] + fitting(s.drop_first(), bytes - byte_len(seq![s[0]]))
    }
}

/// What is left of some bytes behind the characters that fit.
pub open spec fn spare(s: Seq<char>, bytes: int) -> int
    decreases s.len(),
{
    if s.len() == 0 || byte_len(seq![s[0]]) > bytes {
        bytes
    } else {
        spare(s.drop_first(), bytes - byte_len(seq![s[0]]))
    }
}

/// Whether a text is short enough, or can be cut one byte short of a maximum
/// between two characters.
pub open spec fn cuts_cleanly(s: Seq<char>, max: int) -> bool {
    byte_len(s) <= max || spare(s, max - 1) == 0
}

/// A text cut to a maximum number of bytes, with an ellipsis in place of what
/// was cut.
pub open spec fn truncated(s: Seq<char>, max: int) -> Seq<char> {
    if byte_len(s) <= max {
        s
    } else {
        fitting(s, max - 1) + "…"@
    }
}

fn fit(s: &str, bytes: usize) -> (r: (String, usize))
    ensures
        r.0@ == fitting(s@, bytes as int),
        r.1 == spare(s@, bytes as int),
{
    let chars = text::chars_of(s);
    let mut left: usize = bytes;
    let mut out = String::new();
    let mut i: usize = 0;
    assert(s@.skip(0) =~= s@);
    assert(out@ + fitting(s@.skip(0), left as int) =~= fitting(s@, bytes as int));
    while i < chars.len()
        invariant
            i <= chars.len(),
            chars@ == s@,
            left <= bytes,
            out@ + fitting(s@.skip(i as int), left as int) == fitting(s@, bytes as int),
            spare(s@.skip(i as int), left as int) == spare(s@, bytes as int),
        decreases chars.len() - i,
    {
        let one = text::string_of(&chars.as_slice()[i..i + 1]);
        let w: usize = one.as_str().as_bytes().len();
        let ghost rest = s@.skip(i as int);
        proof {
            assert(rest[0] == s@[i as int]);
            assert(one@ =~= seq![rest[0]]);
            assert(w == byte_len(seq![rest[0]]));
            assert(rest.drop_first() =~= s@.skip(i + 1));
        }
        if w > left {
            assert(out@ + Seq::<char>::empty() =~= out@);
            return (out, left);
        }
        let ghost before = out@;
        out.append(one.as_str());
        left = left - w;
        assert(out@ + fitting(s@.skip(i + 1), left as int) =~= before + (seq![rest[0]] + fitting(
            s@.skip(i + 1),
            left as int,
        )));
        i += 1;
    }
    assert(s@.skip(i as int) =~= seq![]);
    assert(out@ + Seq::<char>::empty() =~= out@);
    (out, left)
}

/// Tests whether a text can be cut between two characters.
pub fn can_truncate(s: &str, max: usize) -> (r: bool)
    requires
        max >= 1,
    ensures
        r == cuts_cleanly(s@, max as int),
{
    s.as_bytes().len() <= max || fit(s, max - 1).1 == 0
}

/// Cuts a text to a maximum number of bytes.
pub fn truncate(s: &str, max: usize) -> (r: String)
    requires
        max >= 1,
        cuts_cleanly(s@, max as int),
    ensures
        r@ == truncated(s@, max as int),
{
    if s.as_bytes().len() <= max {
        s.to_owned()
    } else {
        let (mut out, _) = fit(s, max - 1);
        out.append("…");
        out
    }
}

/// Rounding gives the nearest whole number, and the even one of two that are
/// equally near.
pub proof fn law_rounding_is_to_the_nearest(n: nat, d: nat)
    requires
        d > 0,
    ensures
        2 * n <= (2 * half_even(n, d) + 1) * d,
        2 * n >= (2 * half_even(n, d) - 1) * d,
        2 * (n % d) == d ==> half_even(n, d) % 2 == 0,
{
    let q = (n / d) as int;
    let r = (n % d) as int;
    let x = d as int;
    assert(n == q * x + r) by {
        vstd::arithmetic::div_mod::lemma_fundamental_div_mod(n as int, d as int);
        assert(x * q == q * x) by (nonlinear_arith);
    }
    assert(0 <= r < x) by (nonlinear_arith)
        requires
            x > 0,
            r == n as int % x,
    ;
    assert((2 * q + 1) * x == 2 * (q * x) + x) by (nonlinear_arith);
    assert((2 * q - 1) * x == 2 * (q * x) - x) by (nonlinear_arith);
    assert((2 * (q + 1) + 1) * x == 2 * (q * x) + 3 * x) by (nonlinear_arith);
    assert((2 * (q + 1) - 1) * x == 2 * (q * x) + x) by (nonlinear_arith);
}

/// Memory is written in the largest unit of which there is one at least.
pub proof fn law_memory_unit_fits(kb: u64)
    ensures
        kb < 1024 ==> mem_text(kb) == text::decimal(kb as nat) + "K"@,
        1024 <= kb < 1_048_576 ==> mem_text(kb) == text::decimal(half_even(kb as nat, 1024)) + "M"@,
        1_048_576 <= kb < 0x20_0000_0000_0000 ==> mem_text(kb) == tenths_text(
            half_even((kb * 10) as nat, 1_048_576),
        ) + "G"@,
{
    assert(double_unit(kb as nat, 1) == 1 || kb >= 0x20_0000_0000_0000);
}

/// A text that fits stays as it is; one that is too long keeps a beginning of it
/// and is marked as cut.
pub proof fn law_cut_text_keeps_its_beginning(s: Seq<char>, max: int)
    ensures
        byte_len(s) <= max ==> truncated(s, max) == s,
        byte_len(s) > max ==> exists|n: int|
            0 <= n <= s.len() && truncated(s, max) == #[trigger] s.take(n) + "…"@,
{
    if byte_len(s) > max {
        lemma_fitting_is_a_beginning(s, max - 1);
        let n = fitting(s, max - 1).len() as int;
        assert(truncated(s, max) == s.take(n) + "…"@);
    }
}

proof fn lemma_fitting_is_a_beginning(s: Seq<char>, bytes: int)
    ensures
        fitting(s, bytes).len() <= s.len(),
        fitting(s, bytes) == s.take(fitting(s, bytes).len() as int),
    decreases s.len(),
{
    if s.len() > 0 && byte_len(seq![s[0]]) <= bytes {
        let left = bytes - byte_len(seq![s[0]]);
        let rest = s.drop_first();
        lemma_fitting_is_a_beginning(rest, left);
        let n = fitting(rest, left).len() as int;
        assert(seq![s[0]] + rest.take(n) =~= s.take(n + 1));
    } else {
        assert(s.take(0) =~= seq![]);
    }
}

/// What a value holds is what its fields hold, each under its own name.
pub proof fn law_views_hold_every_field(
    span: Span,
)
    ensures
        span@.pieces == lists::views(span.pieces@),
        span@.tone == span.tone@,
        span@.bold == span.bold,
{
}

} // verus!
