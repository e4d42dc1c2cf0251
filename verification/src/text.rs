//! Text primitives over characters.
//!
//! Every function is specified on the sequence of characters a string holds,
//! so callers state their own results as plain sequences.

use vstd::prelude::*;

verus! {

/// `String::push` appends one character to the end of the string.
pub assume_specification[ String::push ](s: &mut String, c: char)
    ensures
        final(s)@ == old(s)@.push(c),
;

/// One more element of a prefix.
pub proof fn lemma_take_step<T>(s: Seq<T>, i: int)
    requires
        0 <= i < s.len(),
    ensures
        s.take(i + 1).drop_last() == s.take(i),
        s.take(i + 1).last() == s[i],
        s.take(i + 1) == s.take(i).push(s[i]),
{
    assert(s.take(i + 1).drop_last() =~= s.take(i));
    assert(s.take(i + 1) =~= s.take(i).push(s[i]));
}

/// The characters of a string, in order.
pub fn chars_of(s: &str) -> (r: Vec<char>)
    ensures
        r@ == s@,
{
    let mut out: Vec<char> = Vec::new();
    for c in it: s.chars()
        invariant
            out@ == s@.take(it.index() as int),
            it.seq() == s@,
    {
        proof {
            lemma_take_step(s@, it.index() as int);
        }
        out.push(c);
    }
    assert(s@.take(s@.len() as int) =~= s@);
    out
}

/// The string that holds the given characters.
pub fn string_of(chars: &[char]) -> (r: String)
    ensures
        r@ == chars@,
{
    let mut out = String::new();
    let mut i: usize = 0;
    while i < chars.len()
        invariant
            i <= chars.len(),
            out@ == chars@.take(i as int),
        decreases chars.len() - i,
    {
        proof {
            lemma_take_step(chars@, i as int);
        }
        out.push(chars[i]);
        i += 1;
    }
    assert(chars@.take(chars@.len() as int) =~= chars@);
    out
}

/// Whether two strings hold the same characters.
pub fn same(a: &str, b: &str) -> (r: bool)
    ensures
        r == (a@ == b@),
{
    let x = a.to_owned();
    let y = b.to_owned();
    x == y
}

/// The decimal digit of a value below ten.
pub open spec fn digit(d: nat) -> char {
    (48 + d) as char
}

/// A number written in decimal without leading zeros.
pub open spec fn decimal(n: nat) -> Seq<char>
    decreases n,
{
    if n < 10 {
        seq![digit(n)]
    } else {
        decimal(n / 10).push(digit(n % 10))
    }
}

fn digit_char(d: u8) -> (r: char)
    requires
        d < 10,
    ensures
        r == digit(d as nat),
{
    (48 + d) as char
}

/// Writes a number in decimal.
pub fn decimal_u128(n: u128) -> (r: String)
    ensures
        r@ == decimal(n as nat),
    decreases n,
{
    if n < 10 {
        let mut out = String::new();
        out.push(digit_char(n as u8));
        assert(out@ =~= seq![digit(n as nat)]);
        out
    } else {
        let mut out = decimal_u128(n / 10);
        out.push(digit_char((n % 10) as u8));
        out
    }
}

/// Writes a 64-bit number in decimal.
pub fn decimal_u64(n: u64) -> (r: String)
    ensures
        r@ == decimal(n as nat),
{
    decimal_u128(n as u128)
}

/// A signed number in decimal, with a leading minus sign when negative.
pub open spec fn signed_decimal(n: int) -> Seq<char> {
    if n < 0 {
        seq!['-'] + decimal((-n) as nat)
    } else {
        decimal(n as nat)
    }
}

/// Writes a signed number in decimal.
pub fn decimal_i64(n: i64) -> (r: String)
    ensures
        r@ == signed_decimal(n as int),
{
    if n < 0 {
        let mut out = String::new();
        out.push('-');
        let magnitude: u128 = (-(n as i128)) as u128;
        let digits = decimal_u128(magnitude);
        out.append(digits.as_str());
        assert(out@ =~= seq!['-'] + decimal(magnitude as nat));
        out
    } else {
        decimal_u128(n as u128)
    }
}

/// The lower-case hexadecimal digit of a value below sixteen.
pub open spec fn hex_digit(d: nat) -> char {
    if d < 10 {
        (48 + d) as char
    } else {
        (87 + d) as char
    }
}

/// A number written in lower-case hexadecimal without leading zeros.
pub open spec fn hexadecimal(n: nat) -> Seq<char>
    decreases n,
{
    if n < 16 {
        seq![hex_digit(n)]
    } else {
        hexadecimal(n / 16).push(hex_digit(n % 16))
    }
}

/// Writes a number in lower-case hexadecimal.
pub fn hexadecimal_u64(n: u64) -> (r: String)
    ensures
        r@ == hexadecimal(n as nat),
    decreases n,
{
    let low: u8 = (n % 16) as u8;
    let c: char = if low < 10 {
        (48 + low) as char
    } else {
        (87 + low) as char
    };
    if n < 16 {
        let mut out = String::new();
        out.push(c);
        assert(out@ =~= seq![hex_digit(n as nat)]);
        out
    } else {
        let mut out = hexadecimal_u64(n / 16);
        out.push(c);
        out
    }
}

/// `n` copies of one character.
pub open spec fn repeated(c: char, n: int) -> Seq<char> {
    Seq::new(
        if n > 0 {
            n as nat
        } else {
            0
        },
        |i: int| c,
    )
}

/// Writes `n` copies of one character.
pub fn repeat_char(c: char, n: usize) -> (r: String)
    ensures
        r@ == repeated(c, n as int),
{
    let mut out = String::new();
    let mut i: usize = 0;
    while i < n
        invariant
            i <= n,
            out@ == repeated(c, i as int),
        decreases n - i,
    {
        out.push(c);
        i += 1;
        assert(out@ =~= repeated(c, i as int));
    }
    out
}

/// Text padded on the right with spaces to at least `width` characters.
pub open spec fn padded_right(s: Seq<char>, width: int) -> Seq<char> {
    s + repeated(' ', width - s.len())
}

/// Text padded on the left to at least `width` characters.
pub open spec fn padded_left(s: Seq<char>, fill: char, width: int) -> Seq<char> {
    repeated(fill, width - s.len()) + s
}

/// Left-aligns text in a field.
pub fn pad_right(s: &str, width: usize) -> (r: String)
    ensures
        r@ == padded_right(s@, width as int),
{
    let len: usize = s.unicode_len();
    let mut out = s.to_owned();
    if len < width {
        let fill = repeat_char(' ', width - len);
        out.append(fill.as_str());
    }
    assert(out@ =~= padded_right(s@, width as int));
    out
}

/// Right-aligns text in a field.
pub fn pad_left(s: &str, fill: char, width: usize) -> (r: String)
    ensures
        r@ == padded_left(s@, fill, width as int),
{
    let len: usize = s.unicode_len();
    let mut out = if len < width {
        repeat_char(fill, width - len)
    } else {
        String::new()
    };
    out.append(s);
    assert(out@ =~= padded_left(s@, fill, width as int));
    out
}

/// Whether a character separates words: the Unicode White_Space property.
pub open spec fn is_space(c: char) -> bool {
    let n = c as u32;
    ||| 0x09 <= n <= 0x0d
    ||| n == 0x20
    ||| n == 0x85
    ||| n == 0xa0
    ||| n == 0x1680
    ||| 0x2000 <= n <= 0x200a
    ||| n == 0x2028
    ||| n == 0x2029
    ||| n == 0x202f
    ||| n == 0x205f
    ||| n == 0x3000
}

/// Tests the Unicode White_Space property.
pub fn whitespace(c: char) -> (r: bool)
    ensures
        r == is_space(c),
{
    let n: u32 = c as u32;
    (0x09 <= n && n <= 0x0d) || n == 0x20 || n == 0x85 || n == 0xa0 || n == 0x1680 || (0x2000 <= n
        && n <= 0x200a) || n == 0x2028 || n == 0x2029 || n == 0x202f || n == 0x205f || n == 0x3000
}

/// Whether a character ends a field; no separator means white space.
pub open spec fn separates(sep: Option<char>, c: char) -> bool {
    match sep {
        Some(x) => c == x,
        None => is_space(c),
    }
}

/// The pieces between separators, empty ones included.
pub open spec fn pieces(s: Seq<char>, sep: Option<char>) -> Seq<Seq<char>>
    decreases s.len(),
{
    if s.len() == 0 {
        seq![Seq::<char>::empty()]
    } else {
        let before = pieces(s.drop_last(), sep);
        if separates(sep, s.last()) {
            before.push(Seq::empty())
        } else {
            before.update(before.len() - 1, before.last().push(s.last()))
        }
    }
}

/// The contents of a list of strings.
pub open spec fn strings(v: Seq<String>) -> Seq<Seq<char>> {
    Seq::new(v.len(), |i: int| v[i]@)
}

/// Splits text at every separator.
pub fn split_pieces(s: &str, sep: Option<char>) -> (r: Vec<String>)
    ensures
        strings(r@) == pieces(s@, sep),
        r.len() >= 1,
{
    let chars = chars_of(s);
    let mut done: Vec<String> = Vec::new();
    let mut current = String::new();
    let mut i: usize = 0;
    assert(strings(done@).push(current@) =~= pieces(chars@.take(0), sep));
    while i < chars.len()
        invariant
            i <= chars.len(),
            chars@ == s@,
            strings(done@).push(current@) == pieces(chars@.take(i as int), sep),
        decreases chars.len() - i,
    {
        proof {
            lemma_take_step(chars@, i as int);
        }
        let c = chars[i];
        let ends = match sep {
            Some(x) => c == x,
            None => whitespace(c),
        };
        let ghost before = strings(done@).push(current@);
        if ends {
            done.push(current);
            current = String::new();
            assert(strings(done@) =~= before);
            assert(strings(done@).push(current@) =~= before.push(Seq::empty()));
        } else {
            current.push(c);
            assert(strings(done@).push(current@) =~= before.update(
                before.len() - 1,
                before.last().push(c),
            ));
        }
        i += 1;
    }
    assert(chars@.take(chars@.len() as int) =~= chars@);
    let ghost before = strings(done@).push(current@);
    done.push(current);
    assert(strings(done@) =~= before);
    done
}

/// The entries of a list that are not empty, in order.
pub open spec fn nonempty(v: Seq<Seq<char>>) -> Seq<Seq<char>>
    decreases v.len(),
{
    if v.len() == 0 {
        seq![]
    } else if v.last().len() == 0 {
        nonempty(v.drop_last())
    } else {
        nonempty(v.drop_last()).push(v.last())
    }
}

/// The words of a text: its non-empty pieces between white space.
pub open spec fn words(s: Seq<char>) -> Seq<Seq<char>> {
    nonempty(pieces(s, None))
}

/// Keeps the entries that are not empty.
pub fn drop_empty(v: Vec<String>) -> (r: Vec<String>)
    ensures
        strings(r@) == nonempty(strings(v@)),
{
    let mut out: Vec<String> = Vec::new();
    let mut i: usize = 0;
    assert(strings(out@) =~= nonempty(strings(v@).take(0)));
    while i < v.len()
        invariant
            i <= v.len(),
            strings(out@) == nonempty(strings(v@).take(i as int)),
        decreases v.len() - i,
    {
        proof {
            lemma_take_step(strings(v@), i as int);
        }
        if v[i].as_str().unicode_len() > 0 {
            let ghost before = strings(out@);
            out.push(v[i].clone());
            assert(strings(out@) =~= before.push(v@[i as int]@));
        }
        i += 1;
    }
    assert(strings(v@).take(v@.len() as int) =~= strings(v@));
    out
}

/// Splits text into words at white space.
pub fn split_words(s: &str) -> (r: Vec<String>)
    ensures
        strings(r@) == words(s@),
{
    drop_empty(split_pieces(s, None))
}

/// One line without the carriage return of its line ending.
pub open spec fn without_return(s: Seq<char>) -> Seq<char> {
    if s.len() > 0 && s.last() == '\r' {
        s.drop_last()
    } else {
        s
    }
}

/// The lines of a text. A line ends at a line feed, which may follow a
/// carriage return; an ending after the last line is optional.
pub open spec fn text_lines(s: Seq<char>) -> Seq<Seq<char>> {
    let parts = pieces(s, Some('\n'));
    let ended = Seq::new((parts.len() - 1) as nat, |i: int| without_return(parts[i]));
    if parts.last().len() == 0 {
        ended
    } else {
        ended.push(parts.last())
    }
}

/// Splits text into lines.
pub fn split_lines(s: &str) -> (r: Vec<String>)
    ensures
        strings(r@) == text_lines(s@),
{
    let parts = split_pieces(s, Some('\n'));
    let ghost spec_parts = pieces(s@, Some('\n'));
    let mut out: Vec<String> = Vec::new();
    let last: usize = parts.len() - 1;
    let mut i: usize = 0;
    while i < last
        invariant
            i <= last,
            parts.len() == last + 1,
            strings(parts@) == spec_parts,
            strings(out@) == Seq::new(i as nat, |k: int| without_return(spec_parts[k])),
        decreases last - i,
    {
        let ghost before = strings(out@);
        let chars = chars_of(parts[i].as_str());
        assert(chars@ == spec_parts[i as int]);
        let n: usize = chars.len();
        let line = if n > 0 && chars[n - 1] == '\r' {
            let shorter = &chars.as_slice()[0..n - 1];
            assert(shorter@ =~= chars@.drop_last());
            string_of(shorter)
        } else {
            parts[i].clone()
        };
        out.push(line);
        i += 1;
        assert(strings(out@) =~= before.push(without_return(spec_parts[i - 1])));
        assert(strings(out@) =~= Seq::new(i as nat, |k: int| without_return(spec_parts[k])));
    }
    assert(strings(parts@)[last as int] == spec_parts.last());
    if parts[last].as_str().unicode_len() > 0 {
        let ghost before = strings(out@);
        out.push(parts[last].clone());
        assert(strings(out@) =~= before.push(spec_parts.last()));
    }
    out
}

/// Text without leading white space.
pub open spec fn trimmed_start(s: Seq<char>) -> Seq<char>
    decreases s.len(),
{
    if s.len() > 0 && is_space(s[0]) {
        trimmed_start(s.drop_first())
    } else {
        s
    }
}

/// Text without trailing white space.
pub open spec fn trimmed_end(s: Seq<char>) -> Seq<char>
    decreases s.len(),
{
    if s.len() > 0 && is_space(s.last()) {
        trimmed_end(s.drop_last())
    } else {
        s
    }
}

/// Text without surrounding white space.
pub open spec fn trimmed(s: Seq<char>) -> Seq<char> {
    trimmed_start(trimmed_end(s))
}

/// Removes surrounding white space.
pub fn trim(s: &str) -> (r: String)
    ensures
        r@ == trimmed(s@),
{
    let chars = chars_of(s);
    let mut end: usize = chars.len();
    assert(chars@.take(end as int) =~= chars@);
    while end > 0 && whitespace(chars[end - 1])
        invariant
            end <= chars.len(),
            trimmed_end(chars@.take(end as int)) == trimmed_end(chars@),
        decreases end,
    {
        proof {
            lemma_take_step(chars@, end - 1);
        }
        end -= 1;
    }
    let ghost kept = chars@.take(end as int);
    assert(trimmed_end(chars@) == kept);
    let mut start: usize = 0;
    assert(kept.skip(0) =~= kept);
    while start < end && whitespace(chars[start])
        invariant
            start <= end <= chars.len(),
            kept == chars@.take(end as int),
            trimmed_start(kept.skip(start as int)) == trimmed_start(kept),
        decreases end - start,
    {
        assert(kept.skip(start as int)[0] == chars@[start as int]);
        assert(kept.skip(start as int).drop_first() =~= kept.skip(start as int + 1));
        start += 1;
    }
    assert(kept.skip(start as int).len() > 0 ==> kept.skip(start as int)[0] == chars@[start as int]);
    let part = &chars.as_slice()[start..end];
    assert(part@ =~= kept.skip(start as int));
    string_of(part)
}

/// Whether `s` begins with `p`.
pub open spec fn has_prefix(s: Seq<char>, p: Seq<char>) -> bool {
    s.len() >= p.len() && s.take(p.len() as int) == p
}

/// Whether `s` ends with `p`.
pub open spec fn has_suffix(s: Seq<char>, p: Seq<char>) -> bool {
    s.len() >= p.len() && s.skip(s.len() - p.len()) == p
}

/// Whether `p` occurs in `s` at position `i`.
pub open spec fn occurs_at(s: Seq<char>, p: Seq<char>, i: int) -> bool {
    0 <= i && i + p.len() <= s.len() && s.subrange(i, i + p.len()) == p
}

/// Whether `p` occurs somewhere in `s`.
pub open spec fn has_infix(s: Seq<char>, p: Seq<char>) -> bool {
    exists|i: int| occurs_at(s, p, i)
}

fn matches_at(s: &[char], p: &[char], at: usize) -> (r: bool)
    requires
        at <= s.len(),
    ensures
        r == occurs_at(s@, p@, at as int),
{
    if s.len() - at < p.len() {
        return false;
    }
    let mut i: usize = 0;
    while i < p.len()
        invariant
            i <= p.len(),
            at + p.len() <= s.len(),
            forall|k: int| 0 <= k < i ==> s@[at + k] == p@[k],
        decreases p.len() - i,
    {
        if s[at + i] != p[i] {
            assert(s@.subrange(at as int, at + p.len())[i as int] != p@[i as int]);
            return false;
        }
        i += 1;
    }
    assert(s@.subrange(at as int, at + p.len()) =~= p@);
    true
}

/// Tests for a leading string.
pub fn starts_with(s: &str, p: &str) -> (r: bool)
    ensures
        r == has_prefix(s@, p@),
{
    let a = chars_of(s);
    let b = chars_of(p);
    assert(a.len() >= b.len() ==> a@.subrange(0, b.len() as int) =~= a@.take(b.len() as int));
    matches_at(a.as_slice(), b.as_slice(), 0)
}

/// Tests for a trailing string.
pub fn ends_with(s: &str, p: &str) -> (r: bool)
    ensures
        r == has_suffix(s@, p@),
{
    let a = chars_of(s);
    let b = chars_of(p);
    if a.len() < b.len() {
        return false;
    }
    assert(a@.subrange(a.len() - b.len(), a.len() as int) =~= a@.skip(a.len() - b.len()));
    matches_at(a.as_slice(), b.as_slice(), a.len() - b.len())
}

/// Tests for a string anywhere.
pub fn contains(s: &str, p: &str) -> (r: bool)
    ensures
        r == has_infix(s@, p@),
{
    let a = chars_of(s);
    let b = chars_of(p);
    let mut i: usize = 0;
    while i <= a.len()
        invariant
            i <= a.len() + 1,
            a@ == s@,
            b@ == p@,
            forall|k: int| 0 <= k < i ==> !occurs_at(s@, p@, k),
        decreases a.len() + 1 - i,
    {
        if matches_at(a.as_slice(), b.as_slice(), i) {
            assert(occurs_at(s@, p@, i as int));
            return true;
        }
        if i == a.len() {
            assert forall|k: int| !occurs_at(s@, p@, k) by {}
            return false;
        }
        i += 1;
    }
    false
}

/// Text with every `from` replaced by `to`.
pub open spec fn replaced(s: Seq<char>, from: char, to: char) -> Seq<char> {
    s.map_values(
        |c: char|
            if c == from {
                to
            } else {
                c
            },
    )
}

/// Replaces every occurrence of one character by another.
pub fn replace_char(s: &str, from: char, to: char) -> (r: String)
    ensures
        r@ == replaced(s@, from, to),
{
    let chars = chars_of(s);
    let mut out = String::new();
    let mut i: usize = 0;
    while i < chars.len()
        invariant
            i <= chars.len(),
            chars@ == s@,
            out@ == replaced(s@, from, to).take(i as int),
        decreases chars.len() - i,
    {
        proof {
            lemma_take_step(replaced(s@, from, to), i as int);
        }
        if chars[i] == from {
            out.push(to);
        } else {
            out.push(chars[i]);
        }
        i += 1;
    }
    assert(replaced(s@, from, to).take(s@.len() as int) =~= replaced(s@, from, to));
    out
}

/// A character with an ASCII letter made upper case.
pub open spec fn ascii_upper(c: char) -> char {
    if 'a' <= c && c <= 'z' {
        ((c as u32) - 32) as char
    } else {
        c
    }
}

/// Text with its ASCII letters made upper case.
pub open spec fn uppercased(s: Seq<char>) -> Seq<char> {
    s.map_values(|c: char| ascii_upper(c))
}

/// Makes ASCII letters upper case.
pub fn ascii_uppercase(s: &str) -> (r: String)
    ensures
        r@ == uppercased(s@),
{
    let chars = chars_of(s);
    let mut out = String::new();
    let mut i: usize = 0;
    while i < chars.len()
        invariant
            i <= chars.len(),
            chars@ == s@,
            out@ == uppercased(s@).take(i as int),
        decreases chars.len() - i,
    {
        proof {
            lemma_take_step(uppercased(s@), i as int);
        }
        let c = chars[i];
        let n: u32 = c as u32;
        if 97 <= n && n <= 122 {
            let low: u8 = (n - 32) as u8;
            out.push(low as char);
        } else {
            out.push(c);
        }
        i += 1;
    }
    assert(uppercased(s@).take(s@.len() as int) =~= uppercased(s@));
    out
}

/// The entries of a list with a separator between each two.
pub open spec fn joined(v: Seq<Seq<char>>, sep: Seq<char>) -> Seq<char>
    decreases v.len(),
{
    if v.len() == 0 {
        seq![]
    } else if v.len() == 1 {
        v[0]
    } else {
        joined(v.drop_last(), sep) + sep + v.last()
    }
}

/// Joins strings with a separator.
pub fn join(v: &[String], sep: &str) -> (r: String)
    ensures
        r@ == joined(strings(v@), sep@),
{
    let mut out = String::new();
    let mut i: usize = 0;
    assert(strings(v@).take(0) =~= seq![]);
    while i < v.len()
        invariant
            i <= v.len(),
            out@ == joined(strings(v@).take(i as int), sep@),
        decreases v.len() - i,
    {
        proof {
            lemma_take_step(strings(v@), i as int);
        }
        if i > 0 {
            out.append(sep);
        }
        out.append(v[i].as_str());
        i += 1;
        assert(out@ =~= joined(strings(v@).take(i as int), sep@));
    }
    assert(strings(v@).take(v@.len() as int) =~= strings(v@));
    out
}

/// The value of a decimal digit.
pub open spec fn digit_value(c: char) -> Option<nat> {
    if '0' <= c && c <= '9' {
        Some((c as u32 - 48) as nat)
    } else {
        None
    }
}

/// The number a run of decimal digits writes; an empty run is zero.
pub open spec fn digits_value(s: Seq<char>) -> Option<nat>
    decreases s.len(),
{
    if s.len() == 0 {
        Some(0)
    } else {
        match (digits_value(s.drop_last()), digit_value(s.last())) {
            (Some(v), Some(d)) => Some(v * 10 + d),
            _ => None,
        }
    }
}

/// The unsigned number that text writes: an optional plus sign and at least
/// one digit, with a value of at most `max`.
pub open spec fn unsigned_value(s: Seq<char>, max: nat) -> Option<nat> {
    let digits = if s.len() > 0 && s[0] == '+' {
        s.skip(1)
    } else {
        s
    };
    if digits.len() == 0 {
        None
    } else {
        match digits_value(digits) {
            Some(v) => if v <= max {
                Some(v)
            } else {
                None
            },
            None => None,
        }
    }
}

fn digit_of(c: char) -> (r: Option<u64>)
    ensures
        match digit_value(c) {
            Some(d) => r == Some(d as u64) && d < 10,
            None => r is None,
        },
{
    let n: u32 = c as u32;
    if 48 <= n && n <= 57 {
        Some((n - 48) as u64)
    } else {
        None
    }
}

fn read_digits(s: &[char], max: u64) -> (r: Option<u64>)
    ensures
        match digits_value(s@) {
            Some(v) => if v <= max {
                r == Some(v as u64)
            } else {
                r is None
            },
            None => r is None,
        },
{
    let mut value: u64 = 0;
    let mut bad = false;
    let mut over = false;
    let mut i: usize = 0;
    while i < s.len()
        invariant
            i <= s.len(),
            bad == (digits_value(s@.take(i as int)) is None),
            !bad && over ==> digits_value(s@.take(i as int))->0 > max,
            !bad && !over ==> digits_value(s@.take(i as int))->0 == value && value <= max,
        decreases s.len() - i,
    {
        proof {
            lemma_take_step(s@, i as int);
        }
        if let Some(d) = digit_of(s[i]) {
            let wide: u128 = value as u128 * 10 + d as u128;
            if wide > max as u128 {
                over = true;
            } else if !over {
                value = wide as u64;
            }
        } else {
            bad = true;
        }
        i += 1;
    }
    assert(s@.take(s@.len() as int) =~= s@);
    if bad || over {
        None
    } else {
        Some(value)
    }
}

/// Reads an unsigned number of at most `max`.
pub fn parse_unsigned(s: &str, max: u64) -> (r: Option<u64>)
    ensures
        match unsigned_value(s@, max as nat) {
            Some(v) => r == Some(v as u64) && v <= max,
            None => r is None,
        },
{
    let chars = chars_of(s);
    let n: usize = chars.len();
    if n > 0 && chars[0] == '+' {
        let digits = &chars.as_slice()[1..n];
        assert(digits@ =~= s@.skip(1));
        if n == 1 {
            None
        } else {
            read_digits(digits, max)
        }
    } else if n == 0 {
        None
    } else {
        read_digits(chars.as_slice(), max)
    }
}

/// The signed 32-bit number that text writes: an optional sign and at least
/// one digit, within range.
pub open spec fn signed_value(s: Seq<char>) -> Option<int> {
    if s.len() > 0 && s[0] == '-' {
        if s.len() == 1 || s[1] == '+' {
            None
        } else {
            match unsigned_value(s.skip(1), 0x8000_0000) {
                Some(v) => Some(-(v as int)),
                None => None,
            }
        }
    } else {
        match unsigned_value(s, 0x7fff_ffff) {
            Some(v) => Some(v as int),
            None => None,
        }
    }
}

/// Reads a signed 32-bit number.
pub fn parse_i32(s: &str) -> (r: Option<i32>)
    ensures
        match signed_value(s@) {
            Some(v) => r == Some(v as i32) && i32::MIN <= v <= i32::MAX,
            None => r is None,
        },
{
    let chars = chars_of(s);
    let n: usize = chars.len();
    if n > 0 && chars[0] == '-' {
        if n == 1 || chars[1] == '+' {
            return None;
        }
        let digits = &chars.as_slice()[1..n];
        assert(digits@ =~= s@.skip(1));
        match read_digits(digits, 0x8000_0000) {
            Some(v) => Some((-(v as i64)) as i32),
            None => None,
        }
    } else {
        match parse_unsigned(s, 0x7fff_ffff) {
            Some(v) => Some(v as i32),
            None => None,
        }
    }
}

proof fn lemma_decimal_digits(n: nat)
    ensures
        digits_value(decimal(n)) == Some(n),
        decimal(n).len() >= 1,
        '0' <= decimal(n)[0] <= '9',
    decreases n,
{
    if n < 10 {
        assert(seq![digit(n)].drop_last() =~= seq![]);
    } else {
        lemma_decimal_digits(n / 10);
        assert(decimal(n).drop_last() =~= decimal(n / 10));
        assert(decimal(n)[0] == decimal(n / 10)[0]);
    }
}

/// A number written in decimal is read back as the same number.
pub proof fn law_decimal_round_trip(n: nat, max: nat)
    requires
        n <= max,
    ensures
        unsigned_value(decimal(n), max) == Some(n),
{
    lemma_decimal_digits(n);
}

/// The characters of a decimal number are digits.
pub proof fn lemma_decimal_chars(n: nat)
    ensures
        forall|i: int| 0 <= i < decimal(n).len() ==> '0' <= #[trigger] decimal(n)[i] <= '9',
    decreases n,
{
    if n >= 10 {
        lemma_decimal_chars(n / 10);
    }
    assert forall|i: int| 0 <= i < decimal(n).len() implies '0' <= #[trigger] decimal(n)[i]
        <= '9' by {
        if n >= 10 && i < decimal(n).len() - 1 {
            assert(decimal(n)[i] == decimal(n / 10)[i]);
        }
    }
}

/// A field that follows a separator is the last piece.
proof fn lemma_last_piece(s: Seq<char>, c: char, field: Seq<char>)
    requires
        !field.contains(c),
    ensures
        pieces(s + seq![c] + field, Some(c)) == pieces(s, Some(c)).push(field),
    decreases field.len(),
{
    let all = s + seq![c] + field;
    if field.len() == 0 {
        assert(all.drop_last() =~= s);
        assert(field =~= Seq::<char>::empty());
    } else {
        assert(!field.drop_last().contains(c)) by {
            if field.drop_last().contains(c) {
                let i = choose|i: int| 0 <= i < field.len() - 1 && field.drop_last()[i] == c;
                assert(field[i] == c);
            }
        }
        lemma_last_piece(s, c, field.drop_last());
        assert(all.drop_last() =~= s + seq![c] + field.drop_last());
        assert(field[field.len() - 1] == field.last());
        assert(field.drop_last().push(field.last()) =~= field);
        assert(pieces(all, Some(c)) =~= pieces(s, Some(c)).push(field));
    }
}

/// Text without a separator is a single piece.
proof fn lemma_only_piece(c: char, field: Seq<char>)
    requires
        !field.contains(c),
    ensures
        pieces(field, Some(c)) == seq![field],
    decreases field.len(),
{
    if field.len() > 0 {
        assert(!field.drop_last().contains(c)) by {
            if field.drop_last().contains(c) {
                let i = choose|i: int| 0 <= i < field.len() - 1 && field.drop_last()[i] == c;
                assert(field[i] == c);
            }
        }
        lemma_only_piece(c, field.drop_last());
        assert(field[field.len() - 1] == field.last());
        assert(field.drop_last().push(field.last()) =~= field);
        assert(!separates(Some(c), field.last()));
        let before = pieces(field.drop_last(), Some(c));
        assert(before.last() == field.drop_last());
    } else {
        assert(field =~= Seq::<char>::empty());
    }
    assert(pieces(field, Some(c)) =~= seq![field]);
}

/// Splitting joined fields at the separator gives the fields back.
pub proof fn law_split_undoes_join(fields: Seq<Seq<char>>, c: char)
    requires
        fields.len() >= 1,
        forall|i: int| 0 <= i < fields.len() ==> !(#[trigger] fields[i]).contains(c),
    ensures
        pieces(joined(fields, seq![c]), Some(c)) == fields,
    decreases fields.len(),
{
    if fields.len() == 1 {
        lemma_only_piece(c, fields[0]);
        assert(seq![fields[0]] =~= fields);
    } else {
        assert forall|i: int| 0 <= i < fields.drop_last().len() implies !(
        #[trigger] fields.drop_last()[i]).contains(c) by {
            assert(fields.drop_last()[i] == fields[i]);
        }
        law_split_undoes_join(fields.drop_last(), c);
        assert(!fields[fields.len() - 1].contains(c));
        lemma_last_piece(joined(fields.drop_last(), seq![c]), c, fields.last());
        assert(fields.drop_last().push(fields.last()) =~= fields);
    }
}

/// Fields joined after others are joined behind a separator.
pub proof fn lemma_joined_after(a: Seq<Seq<char>>, b: Seq<Seq<char>>, sep: Seq<char>)
    requires
        a.len() >= 1,
        b.len() >= 1,
    ensures
        joined(a + b, sep) == joined(a, sep) + sep + joined(b, sep),
    decreases b.len(),
{
    assert((a + b).drop_last() =~= a + b.drop_last());
    assert((a + b).last() == b.last());
    if b.len() == 1 {
        assert(a + b.drop_last() =~= a);
    } else {
        lemma_joined_after(a, b.drop_last(), sep);
        assert(joined(a + b, sep) =~= joined(a, sep) + sep + joined(b, sep));
    }
}

/// Dropping blank pieces keeps every other piece, in order, and no blank one.
pub proof fn law_blank_pieces_are_dropped(v: Seq<Seq<char>>)
    ensures
        forall|i: int| 0 <= i < nonempty(v).len() ==> (#[trigger] nonempty(v)[i]).len() > 0,
        forall|i: int| 0 <= i < nonempty(v).len() ==> v.contains(#[trigger] nonempty(v)[i]),
        forall|k: int|
            0 <= k < v.len() && (#[trigger] v[k]).len() > 0 ==> nonempty(v).contains(v[k]),
        nonempty(v).len() <= v.len(),
    decreases v.len(),
{
    if v.len() > 0 {
        let front = v.drop_last();
        law_blank_pieces_are_dropped(front);
        let before = nonempty(front);
        let after = nonempty(v);
        assert(v.last() == v[v.len() - 1]);
        assert forall|i: int| 0 <= i < after.len() implies (#[trigger] after[i]).len() > 0
            && v.contains(after[i]) by {
            if i < before.len() {
                assert(after[i] == before[i]);
                let k = front.index_of(before[i]);
                assert(front.contains(before[i]));
                assert(v[k] == before[i]);
            } else {
                assert(after[i] == v[v.len() - 1]);
            }
        }
        assert forall|k: int| 0 <= k < v.len() && (#[trigger] v[k]).len() > 0 implies after.contains(
            v[k],
        ) by {
            if k < front.len() {
                assert(front[k] == v[k]);
                assert(before.contains(v[k]));
                let i = before.index_of(v[k]);
                assert(after[i] == v[k]);
            } else {
                assert(after[after.len() - 1] == v[k]);
            }
        }
    }
}

/// Pieces without blanks of two lists are those of the one before those of the
/// other.
pub proof fn law_blank_dropping_concatenates(a: Seq<Seq<char>>, b: Seq<Seq<char>>)
    ensures
        nonempty(a + b) == nonempty(a) + nonempty(b),
    decreases b.len(),
{
    if b.len() == 0 {
        assert(a + b =~= a);
        assert(nonempty(b) =~= seq![]);
    } else {
        law_blank_dropping_concatenates(a, b.drop_last());
        assert((a + b).drop_last() =~= a + b.drop_last());
        assert((a + b).last() == b.last());
    }
    assert(nonempty(a + b) =~= nonempty(a) + nonempty(b));
}

proof fn lemma_trimmed_end(s: Seq<char>)
    ensures
        trimmed_end(s).len() <= s.len(),
        trimmed_end(s) == s.take(trimmed_end(s).len() as int),
        forall|i: int| trimmed_end(s).len() <= i < s.len() ==> is_space(#[trigger] s[i]),
        trimmed_end(s).len() > 0 ==> !is_space(trimmed_end(s).last()),
    decreases s.len(),
{
    if s.len() > 0 && is_space(s.last()) {
        let front = s.drop_last();
        lemma_trimmed_end(front);
        assert(front.take(trimmed_end(front).len() as int) =~= s.take(
            trimmed_end(front).len() as int,
        ));
        assert forall|i: int| trimmed_end(s).len() <= i < s.len() implies is_space(
            #[trigger] s[i],
        ) by {
            if i < front.len() {
                assert(front[i] == s[i]);
            }
        }
    } else {
        assert(s.take(s.len() as int) =~= s);
    }
}

proof fn lemma_trimmed_start(s: Seq<char>)
    ensures
        trimmed_start(s).len() <= s.len(),
        trimmed_start(s) == s.skip(s.len() - trimmed_start(s).len()),
        forall|i: int| 0 <= i < s.len() - trimmed_start(s).len() ==> is_space(#[trigger] s[i]),
        trimmed_start(s).len() > 0 ==> !is_space(trimmed_start(s)[0]),
    decreases s.len(),
{
    if s.len() > 0 && is_space(s[0]) {
        let rest = s.drop_first();
        lemma_trimmed_start(rest);
        assert(rest.skip(rest.len() - trimmed_start(rest).len()) =~= s.skip(
            s.len() - trimmed_start(s).len(),
        ));
        assert forall|i: int| 0 <= i < s.len() - trimmed_start(s).len() implies is_space(
            #[trigger] s[i],
        ) by {
            if i > 0 {
                assert(rest[i - 1] == s[i]);
            }
        }
    } else {
        assert(s.skip(0) =~= s);
    }
}

/// Trimming takes away white space at both ends and nothing else.
pub proof fn law_trimming_takes_only_white_space(s: Seq<char>)
    ensures
        exists|i: int|
            #![trigger s.skip(i)]
            {
                &&& 0 <= i <= s.len() - trimmed(s).len()
                &&& trimmed(s) == s.skip(i).take(trimmed(s).len() as int)
                &&& forall|k: int| 0 <= k < i ==> is_space(#[trigger] s[k])
                &&& forall|k: int|
                    i + trimmed(s).len() <= k < s.len() ==> is_space(#[trigger] s[k])
            },
        trimmed(s).len() > 0 ==> !is_space(trimmed(s)[0]) && !is_space(trimmed(s).last()),
{
    let e = trimmed_end(s);
    lemma_trimmed_end(s);
    lemma_trimmed_start(e);
    let t = trimmed(s);
    let i = e.len() - t.len();
    assert(s.skip(i).take(t.len() as int) =~= t);
    assert forall|k: int| 0 <= k < i implies is_space(#[trigger] s[k]) by {
        assert(e[k] == s[k]);
    }
    if t.len() > 0 {
        assert(t.last() == e.last());
    }
}

/// A list in which one piece follows another ends with it.
proof fn lemma_joined_last(v: Seq<Seq<char>>, sep: Seq<char>, c: char)
    requires
        v.len() > 0,
    ensures
        joined(v.update(v.len() - 1, v.last().push(c)), sep) == joined(v, sep).push(c),
        joined(v.push(Seq::empty()), sep) == joined(v, sep) + sep,
{
    let w = v.update(v.len() - 1, v.last().push(c));
    assert(w.drop_last() =~= v.drop_last());
    assert(w.last() == v.last().push(c));
    assert(joined(w, sep) =~= joined(v, sep).push(c));
    assert(v.push(Seq::empty()).drop_last() =~= v);
    assert(joined(v.push(Seq::empty()), sep) =~= joined(v, sep) + sep);
}

proof fn lemma_some_piece(s: Seq<char>, sep: Option<char>)
    ensures
        pieces(s, sep).len() > 0,
    decreases s.len(),
{
    if s.len() > 0 {
        lemma_some_piece(s.drop_last(), sep);
    }
}

/// Joining what was split at a character gives the text back.
pub proof fn law_join_undoes_split(s: Seq<char>, c: char)
    ensures
        joined(pieces(s, Some(c)), seq![c]) == s,
    decreases s.len(),
{
    if s.len() > 0 {
        let front = s.drop_last();
        law_join_undoes_split(front, c);
        lemma_some_piece(front, Some(c));
        lemma_joined_last(pieces(front, Some(c)), seq![c], s.last());
        assert(front.push(s.last()) =~= s);
        assert(front + seq![s.last()] =~= s);
    }
}

/// A word holds no white space, a piece none of the character it was split at.
pub proof fn law_pieces_hold_no_separator(s: Seq<char>, sep: Option<char>)
    ensures
        forall|i: int, k: int|
            #![trigger pieces(s, sep)[i][k]]
            0 <= i < pieces(s, sep).len() && 0 <= k < pieces(s, sep)[i].len() ==> !separates(
                sep,
                pieces(s, sep)[i][k],
            ),
    decreases s.len(),
{
    if s.len() > 0 {
        let front = s.drop_last();
        law_pieces_hold_no_separator(front, sep);
        lemma_some_piece(front, sep);
        let before = pieces(front, sep);
        let after = pieces(s, sep);
        assert forall|i: int, k: int|
            #![trigger after[i][k]]
            0 <= i < after.len() && 0 <= k < after[i].len() implies !separates(
            sep,
            after[i][k],
        ) by {
            if i < before.len() && k < before[i].len() {
                assert(after[i][k] == before[i][k]);
            }
        }
    }
}

/// Padding brings a text to a width and never shortens it; the text itself stays
/// at its end of the field.
pub proof fn law_padding_keeps_the_text(s: Seq<char>, fill: char, width: int)
    ensures
        s.len() <= width ==> padded_left(s, fill, width).len() == width,
        s.len() >= width ==> padded_left(s, fill, width) == s,
        padded_left(s, fill, width).skip(padded_left(s, fill, width).len() - s.len()) == s,
        s.len() <= width ==> padded_right(s, width).len() == width,
        s.len() >= width ==> padded_right(s, width) == s,
        padded_right(s, width).take(s.len() as int) == s,
{
    assert(padded_left(s, fill, width).skip(padded_left(s, fill, width).len() - s.len()) =~= s);
    assert(padded_right(s, width).take(s.len() as int) =~= s);
    if s.len() >= width {
        assert(padded_left(s, fill, width) =~= s);
        assert(padded_right(s, width) =~= s);
    }
}

/// Replacing a character changes it wherever it stands and nothing else.
pub proof fn law_replacing_changes_one_character(s: Seq<char>, from: char, to: char, i: int)
    requires
        0 <= i < s.len(),
    ensures
        replaced(s, from, to).len() == s.len(),
        s[i] == from ==> replaced(s, from, to)[i] == to,
        s[i] != from ==> replaced(s, from, to)[i] == s[i],
{
}

/// A hexadecimal number is written digit by digit, the least significant last,
/// with the letters from `a` on.
pub proof fn law_hexadecimal_digits(n: nat, d: nat)
    requires
        d < 16,
    ensures
        hexadecimal(d).len() == 1,
        d < 10 ==> hexadecimal(d)[0] as u32 == '0' as u32 + d,
        d >= 10 ==> hexadecimal(d)[0] as u32 == 'a' as u32 + d - 10,
        n > 0 ==> hexadecimal(16 * n + d) == hexadecimal(n) + hexadecimal(d),
{
    if n > 0 {
        assert((16 * n + d) / 16 == n);
        assert((16 * n + d) % 16 == d);
        assert(hexadecimal(16 * n + d) =~= hexadecimal(n) + hexadecimal(d));
    }
}

/// A decimal number is written digit by digit, the least significant last.
pub proof fn law_decimal_digits(n: nat, d: nat)
    requires
        d < 10,
    ensures
        decimal(d).len() == 1,
        decimal(d)[0] as u32 == '0' as u32 + d,
        n > 0 ==> decimal(10 * n + d) == decimal(n) + decimal(d),
{
    if n > 0 {
        assert((10 * n + d) / 10 == n);
        assert((10 * n + d) % 10 == d);
        assert(decimal(10 * n + d) =~= decimal(n) + decimal(d));
    }
}

/// A negative number is written with its sign before its size.
pub proof fn law_sign_stands_first(n: int)
    ensures
        n >= 0 ==> signed_decimal(n) == decimal(n as nat),
        n < 0 ==> signed_decimal(n) == seq!['-'] + decimal((-n) as nat),
{
}

/// Lines that were each ended are read back one by one.
pub proof fn law_lines_are_read_back(lines: Seq<Seq<char>>)
    requires
        lines.len() > 0,
        forall|i: int|
            0 <= i < lines.len() ==> !(#[trigger] lines[i]).contains('\n') && (lines[i].len() > 0
                ==> lines[i].last() != '\r'),
    ensures
        text_lines(joined(lines, seq!['\n']) + seq!['\n']) == lines,
{
    let all = joined(lines, seq!['\n']);
    law_split_undoes_join(lines, '\n');
    let s = all + seq!['\n'];
    assert(s.drop_last() =~= all);
    let parts = pieces(s, Some('\n'));
    assert(parts == lines.push(Seq::empty()));
    assert(parts.last().len() == 0);
    assert forall|i: int| 0 <= i < lines.len() implies #[trigger] text_lines(s)[i] == lines[i] by {
        assert(parts[i] == lines[i]);
    }
    assert(text_lines(s) =~= lines);
}

/// Small letters become capitals and nothing else changes.
pub proof fn law_only_letters_are_raised(s: Seq<char>, i: int)
    requires
        0 <= i < s.len(),
    ensures
        uppercased(s).len() == s.len(),
        !('a' <= s[i] <= 'z') ==> uppercased(s)[i] == s[i],
        'a' <= s[i] <= 'z' ==> uppercased(s)[i] as u32 + 32 == s[i] as u32,
{
}

} // verus!
