//! Character-level operations on text, with the meaning of each stated over `Seq<char>`.

use vstd::prelude::*;
use vstd::utf8::*;

verus! {

/// A code point with the Unicode property `White_Space`.
pub open spec fn is_white_space(c: char) -> bool {
    ||| '\u{9}' <= c <= '\u{d}'
    ||| c == '\u{20}' || c == '\u{85}' || c == '\u{a0}' || c == '\u{1680}'
    ||| '\u{2000}' <= c <= '\u{200a}'
    ||| c == '\u{2028}' || c == '\u{2029}' || c == '\u{202f}' || c == '\u{205f}' || c == '\u{3000}'
}

/// `t` without its leading white space.
pub open spec fn trim_start_of(t: Seq<char>) -> Seq<char>
    decreases t.len(),
{
    if t.len() > 0 && is_white_space(t[0]) {
        trim_start_of(t.drop_first())
    } else {
        t
    }
}

/// `t` without its trailing white space.
pub open spec fn trim_end_of(t: Seq<char>) -> Seq<char>
    decreases t.len(),
{
    if t.len() > 0 && is_white_space(t.last()) {
        trim_end_of(t.drop_last())
    } else {
        t
    }
}

/// `t` without white space at either end.
pub open spec fn trim_of(t: Seq<char>) -> Seq<char> {
    trim_start_of(trim_end_of(t))
}

/// `part` stands in `t` at position `i`.
pub open spec fn occurs_at(t: Seq<char>, part: Seq<char>, i: int) -> bool {
    0 <= i <= t.len() - part.len() && t.subrange(i, i + part.len()) == part
}

/// `part` stands somewhere in `t`.
pub open spec fn contains_text(t: Seq<char>, part: Seq<char>) -> bool {
    exists|i: int| occurs_at(t, part, i)
}

/// The lower-case form of an ASCII letter; every other character as it is.
pub open spec fn ascii_lower(c: char) -> char {
    if 'A' <= c <= 'Z' {
        ((c as u8) + 32) as char
    } else {
        c
    }
}

/// `t` with its ASCII letters in lower case.
pub open spec fn lower_of(t: Seq<char>) -> Seq<char> {
    Seq::new(t.len(), |i: int| ascii_lower(t[i]))
}

/// `'0'` to `'9'` for the digits 0 to 9.
pub open spec fn digit_char(d: nat) -> char {
    (('0' as nat) + d) as char
}

/// `n` in decimal notation.
pub open spec fn decimal(n: nat) -> Seq<char>
    decreases n,
{
    if n < 10 {
        seq![digit_char(n)]
    } else {
        decimal(n / 10).push(digit_char(n % 10))
    }
}

/// `n` in decimal notation, with a minus sign where it is negative.
pub open spec fn signed_decimal(n: int) -> Seq<char> {
    if n < 0 {
        "-"@ + decimal((-n) as nat)
    } else {
        decimal(n as nat)
    }
}

/// The first `n` of `parts`, with `sep` between each two.
pub open spec fn joined_prefix(parts: Seq<Seq<char>>, sep: Seq<char>, n: nat) -> Seq<char>
    decreases n,
{
    if n == 0 {
        Seq::empty()
    } else if n == 1 {
        parts[0]
    } else {
        joined_prefix(parts, sep, (n - 1) as nat) + sep + parts[n - 1]
    }
}

/// `parts` with `sep` between each two.
pub open spec fn joined(parts: Seq<Seq<char>>, sep: Seq<char>) -> Seq<char> {
    joined_prefix(parts, sep, parts.len())
}

/// The first `n` of `parts`, or all of them where there are fewer.
pub open spec fn at_most(parts: Seq<Seq<char>>, n: nat) -> Seq<Seq<char>> {
    if parts.len() <= n {
        parts
    } else {
        parts.take(n as int)
    }
}

/// The texts that a sequence of strings holds.
pub open spec fn texts(strings: Seq<String>) -> Seq<Seq<char>> {
    Seq::new(strings.len(), |i: int| strings[i]@)
}

/// The characters of `s`.
pub fn chars_of(s: &str) -> (r: Vec<char>)
    ensures
        r@ == s@,
{
    let mut r: Vec<char> = Vec::new();
    for c in it: s.chars()
        invariant
            it.seq() == s@,
            r@ == s@.take(it.index()),
    {
        r.push(c);
    }
    r
}

/// Whether `c` is white space.
pub fn white_space(c: char) -> (r: bool)
    ensures
        r == is_white_space(c),
{
    ('\u{9}' <= c && c <= '\u{d}') || c == '\u{20}' || c == '\u{85}' || c == '\u{a0}'
        || c == '\u{1680}' || ('\u{2000}' <= c && c <= '\u{200a}') || c == '\u{2028}'
        || c == '\u{2029}' || c == '\u{202f}' || c == '\u{205f}' || c == '\u{3000}'
}

/// `s` without its trailing white space.
pub fn trim_end(s: &str) -> (r: &str)
    ensures
        r@ == trim_end_of(s@),
{
    let cs = chars_of(s);
    let mut end: usize = cs.len();
    assert(s@.take(end as int) == s@);
    while end > 0 && white_space(cs[end - 1])
        invariant
            cs@ == s@,
            end <= cs@.len(),
            trim_end_of(s@) == trim_end_of(s@.take(end as int)),
        decreases end,
    {
        assert(s@.take(end as int).drop_last() == s@.take(end - 1));
        end = end - 1;
    }
    s.substring_char(0, end)
}

/// `s` without its leading white space.
pub fn trim_start(s: &str) -> (r: &str)
    ensures
        r@ == trim_start_of(s@),
{
    let cs = chars_of(s);
    let mut start: usize = 0;
    assert(s@.skip(0) == s@);
    while start < cs.len() && white_space(cs[start])
        invariant
            cs@ == s@,
            start <= cs@.len(),
            trim_start_of(s@) == trim_start_of(s@.skip(start as int)),
        decreases cs@.len() - start,
    {
        assert(s@.skip(start as int).drop_first() == s@.skip(start + 1));
        start = start + 1;
    }
    s.substring_char(start, cs.len())
}

/// `s` without white space at either end.
pub fn trim(s: &str) -> (r: &str)
    ensures
        r@ == trim_of(s@),
{
    trim_start(trim_end(s))
}

/// Whether `cs` holds `part` at position `i`.
fn matches_at(cs: &Vec<char>, part: &Vec<char>, i: usize) -> (r: bool)
    requires
        i + part@.len() <= cs@.len(),
    ensures
        r == occurs_at(cs@, part@, i as int),
{
    let mut k: usize = 0;
    while k < part.len()
        invariant
            k <= part@.len(),
            i + part@.len() <= cs.len(),
            forall|j: int| 0 <= j < k ==> cs@[i + j] == part@[j],
        decreases part@.len() - k,
    {
        if cs[i + k] != part[k] {
            assert(cs@.subrange(i as int, i + part@.len())[k as int] != part@[k as int]);
            return false;
        }
        k = k + 1;
    }
    assert(cs@.subrange(i as int, i + part@.len()) =~= part@);
    true
}

/// Whether `cs` holds `part` anywhere.
fn contains_chars(cs: &Vec<char>, part: &Vec<char>) -> (r: bool)
    ensures
        r == contains_text(cs@, part@),
{
    if part.len() > cs.len() {
        return false;
    }
    let last: usize = cs.len() - part.len();
    let mut i: usize = 0;
    while i < last
        invariant
            last == cs@.len() - part@.len(),
            i <= last,
            forall|j: int| 0 <= j < i ==> !occurs_at(cs@, part@, j),
        decreases last - i,
    {
        if matches_at(cs, part, i) {
            return true;
        }
        i = i + 1;
    }
    matches_at(cs, part, last)
}

/// Whether `part` stands somewhere in `s`.
pub fn contains(s: &str, part: &str) -> (r: bool)
    ensures
        r == contains_text(s@, part@),
{
    contains_chars(&chars_of(s), &chars_of(part))
}

/// Whether `c` stands somewhere in `s`.
pub fn contains_char(s: &str, c: char) -> (r: bool)
    ensures
        r == s@.contains(c),
{
    for x in it: s.chars()
        invariant
            it.seq() == s@,
            forall|j: int| 0 <= j < it.index() ==> s@[j] != c,
    {
        if x == c {
            assert(s@[it.index() as int] == c);
            return true;
        }
    }
    false
}

/// Whether `s` begins with `prefix`.
pub fn starts_with(s: &str, prefix: &str) -> (r: bool)
    ensures
        r == prefix@.is_prefix_of(s@),
{
    strip_prefix(s, prefix).is_some()
}

/// What follows `prefix` in `s`, where `s` begins with it.
pub fn strip_prefix<'a>(s: &'a str, prefix: &str) -> (r: Option<&'a str>)
    ensures
        match r {
            Some(rest) => prefix@.is_prefix_of(s@) && rest@ == s@.skip(prefix@.len() as int),
            None => !prefix@.is_prefix_of(s@),
        },
{
    let cs = chars_of(s);
    let ps = chars_of(prefix);
    if ps.len() <= cs.len() && matches_at(&cs, &ps, 0) {
        Some(s.substring_char(ps.len(), cs.len()))
    } else {
        None
    }
}

/// Whether `s` ends with `suffix`.
pub fn ends_with(s: &str, suffix: &str) -> (r: bool)
    ensures
        r == suffix@.is_suffix_of(s@),
{
    let cs = chars_of(s);
    let ps = chars_of(suffix);
    if ps.len() <= cs.len() {
        matches_at(&cs, &ps, cs.len() - ps.len())
    } else {
        false
    }
}

/// The characters of `s`, with its ASCII letters in lower case.
fn lower_chars(s: &str) -> (r: Vec<char>)
    ensures
        r@ == lower_of(s@),
{
    let mut r: Vec<char> = Vec::new();
    for c in it: s.chars()
        invariant
            it.seq() == s@,
            r@ == lower_of(s@).take(it.index()),
    {
        if 'A' <= c && c <= 'Z' {
            r.push((c as u8 + 32) as char);
        } else {
            r.push(c);
        }
    }
    r
}

/// Whether `part` stands somewhere in `s` once the ASCII letters of `s` are in lower case.
pub fn lower_contains(s: &str, part: &str) -> (r: bool)
    ensures
        r == contains_text(lower_of(s@), part@),
{
    contains_chars(&lower_chars(s), &chars_of(part))
}

/// Whether `a` and `b` are the same text up to the case of ASCII letters.
pub fn eq_ignore_ascii_case(a: &str, b: &str) -> (r: bool)
    ensures
        r == (lower_of(a@) == lower_of(b@)),
{
    let x = lower_chars(a);
    let y = lower_chars(b);
    if x.len() == y.len() {
        assert(x@.subrange(0, y@.len() as int) == x@);
        matches_at(&x, &y, 0)
    } else {
        false
    }
}

/// The digit `d` as text.
fn digit_text(d: usize) -> (r: &'static str)
    requires
        d < 10,
    ensures
        r@ == seq![digit_char(d as nat)],
{
    proof {
        reveal_strlit("0");
        reveal_strlit("1");
        reveal_strlit("2");
        reveal_strlit("3");
        reveal_strlit("4");
        reveal_strlit("5");
        reveal_strlit("6");
        reveal_strlit("7");
        reveal_strlit("8");
        reveal_strlit("9");
    }
    match d {
        0 => "0",
        1 => "1",
        2 => "2",
        3 => "3",
        4 => "4",
        5 => "5",
        6 => "6",
        7 => "7",
        8 => "8",
        _ => "9",
    }
}

/// Writes `n` in decimal notation at the end of `out`.
pub fn push_decimal(out: &mut String, n: usize)
    ensures
        final(out)@ == old(out)@ + decimal(n as nat),
    decreases n,
{
    if n >= 10 {
        push_decimal(out, n / 10);
    }
    out.append(digit_text(n % 10));
}

/// Writes `n` in decimal notation at the end of `out`.
pub fn push_signed_decimal(out: &mut String, n: i32)
    ensures
        final(out)@ == old(out)@ + signed_decimal(n as int),
{
    if n < 0 {
        out.append("-");
        push_decimal(out, (-(n as i64)) as usize);
    } else {
        push_decimal(out, n as usize);
    }
}

/// `parts` with `sep` between each two.
pub fn join(parts: &Vec<String>, sep: &str) -> (r: String)
    ensures
        r@ == joined(texts(parts@), sep@),
{
    let mut r = String::new();
    let mut i: usize = 0;
    while i < parts.len()
        invariant
            i <= parts@.len(),
            r@ == joined_prefix(texts(parts@), sep@, i as nat),
        decreases parts@.len() - i,
    {
        if i > 0 {
            r.append(sep);
        }
        r.append(parts[i].as_str());
        i = i + 1;
    }
    r
}

/// The text of a line that stood before a line feed: a carriage return at its end belongs to
/// the line ending.
pub open spec fn without_return(t: Seq<char>) -> Seq<char> {
    if t.len() > 0 && t.last() == '\r' {
        t.drop_last()
    } else {
        t
    }
}

/// Where the first line feed of `t` stands; the length of `t` where it has none.
pub open spec fn first_line_feed(t: Seq<char>) -> nat
    decreases t.len(),
{
    if t.len() == 0 || t[0] == '\n' {
        0
    } else {
        1 + first_line_feed(t.drop_first())
    }
}

/// The lines of `t`: each ends at a line feed, with or without a carriage return before it, and
/// the last one may end with the text instead.
pub open spec fn lines_of(t: Seq<char>) -> Seq<Seq<char>>
    decreases t.len(),
{
    let i = first_line_feed(t);
    if i < t.len() {
        seq![without_return(t.take(i as int))] + lines_of(t.skip(i as int + 1))
    } else if t.len() > 0 {
        seq![t]
    } else {
        Seq::empty()
    }
}

/// `a` and `b` are the parts of `t` before and after its first line feed.
pub proof fn lemma_first_line_feed(t: Seq<char>, a: Seq<char>, b: Seq<char>)
    requires
        !a.contains('\n'),
        t == a + seq!['\n'] + b,
    ensures
        first_line_feed(t) == a.len(),
        t.take(a.len() as int) == a,
        t.skip(a.len() as int + 1) == b,
    decreases a.len(),
{
    assert(t.take(a.len() as int) =~= a);
    assert(t.skip(a.len() as int + 1) =~= b);
    if a.len() > 0 {
        assert(a.contains(a[0]));
        assert(t.drop_first() =~= a.drop_first() + seq!['\n'] + b);
        assert forall|i: int| 0 <= i < a.drop_first().len() implies a.drop_first()[i] != '\n' by {
            assert(a.contains(a[i + 1]));
        }
        lemma_first_line_feed(t.drop_first(), a.drop_first(), b);
    }
}

/// A text without a line feed is a line, unless it is empty.
pub proof fn lemma_no_line_feed(t: Seq<char>)
    requires
        !t.contains('\n'),
    ensures
        first_line_feed(t) == t.len(),
    decreases t.len(),
{
    if t.len() > 0 {
        assert(t.contains(t[0]));
        assert forall|i: int| 0 <= i < t.drop_first().len() implies t.drop_first()[i] != '\n' by {
            assert(t.contains(t[i + 1]));
        }
        lemma_no_line_feed(t.drop_first());
    }
}

/// The UTF-8 form of a text with a line feed holds the byte 10.
proof fn lemma_line_feed_is_a_byte(t: Seq<char>)
    requires
        t.contains('\n'),
    ensures
        encode_utf8(t).contains(10u8),
    decreases t.len(),
{
    let first = encode_scalar(t[0] as u32);
    let rest = encode_utf8(t.drop_first());
    if t[0] == '\n' {
        assert(leading_byte_width_1(10u32) == 10u8) by (bit_vector);
        assert(encode_utf8(t)[0] == 10u8);
    } else {
        let i = t.index_of('\n');
        assert(t.drop_first()[i - 1] == '\n');
        lemma_line_feed_is_a_byte(t.drop_first());
        let k = rest.index_of(10u8);
        assert((first + rest)[first.len() + k] == 10u8);
    }
}

/// A text whose UTF-8 form begins with the byte 10 begins with a line feed, which is that byte
/// alone.
proof fn lemma_byte_is_a_line_feed(t: Seq<char>)
    requires
        encode_utf8(t).len() > 0,
        encode_utf8(t)[0] == 10u8,
    ensures
        t.len() > 0,
        t[0] == '\n',
        encode_utf8(t.drop_first()) == encode_utf8(t).skip(1),
        is_char_boundary(encode_utf8(t), 1),
{
    encode_utf8_valid_utf8(t);
    encode_utf8_first_scalar(t);
    assert(codepoint_width_1(10u8) == 10u32) by (bit_vector);
    char_u32_cast(t[0], 10);
    assert(encode_utf8(t).skip(1) =~= encode_utf8(t.drop_first()));
    reveal_with_fuel(is_char_boundary, 2);
}

/// Two texts with the same UTF-8 form are the same.
proof fn lemma_encoding_is_unique(a: Seq<char>, b: Seq<char>)
    requires
        encode_utf8(a) == encode_utf8(b),
    ensures
        a == b,
{
    encode_utf8_decode_utf8(a);
    encode_utf8_decode_utf8(b);
}

/// The text before and after the first line feed of `s`, or `None` where it has none.
fn split_line(s: &str) -> (r: Option<(&str, &str)>)
    ensures
        match r {
            Some((line, after)) => s@ == line@ + seq!['\n'] + after@ && !line@.contains('\n'),
            None => !s@.contains('\n'),
        },
{
    let bytes = s.as_bytes();
    let mut i: usize = 0;
    while i < bytes.len() && bytes[i] != 10
        invariant
            bytes@ == encode_utf8(s@),
            i <= bytes@.len(),
            forall|j: int| 0 <= j < i ==> bytes@[j] != 10u8,
        decreases bytes@.len() - i,
    {
        i = i + 1;
    }
    if i == bytes.len() {
        proof {
            if s@.contains('\n') {
                lemma_line_feed_is_a_byte(s@);
            }
        }
        return None;
    }
    proof {
        encode_utf8_valid_utf8(s@);
        is_char_boundary_iff_not_is_continuation_byte(bytes@, i as int);
    }
    let (line, rest) = s.split_at(i);
    proof {
        lemma_byte_is_a_line_feed(rest@);
        decode_utf8_split(bytes@, i as int);
        encode_utf8_decode_utf8(s@);
        encode_utf8_decode_utf8(line@);
        encode_utf8_decode_utf8(rest@);
        if line@.contains('\n') {
            lemma_line_feed_is_a_byte(line@);
        }
    }
    let (_, after) = rest.split_at(1);
    proof {
        lemma_encoding_is_unique(after@, rest@.drop_first());
        assert(s@ =~= line@ + seq!['\n'] + after@);
    }
    Some((line, after))
}

/// The texts that a sequence of string slices holds.
pub open spec fn slice_texts(slices: Seq<&str>) -> Seq<Seq<char>> {
    Seq::new(slices.len(), |i: int| slices[i]@)
}

/// `s` without one carriage return at its end.
fn drop_return(s: &str) -> (r: &str)
    ensures
        r@ == without_return(s@),
{
    let n = s.unicode_len();
    if n > 0 && s.get_char(n - 1) == '\r' {
        s.substring_char(0, n - 1)
    } else {
        s
    }
}

/// The lines of `s`.
pub fn lines<'a>(s: &'a str) -> (r: Vec<&'a str>)
    ensures
        slice_texts(r@) == lines_of(s@),
{
    let mut r: Vec<&'a str> = Vec::new();
    let mut rest: &'a str = s;
    loop
        invariant
            slice_texts(r@) + lines_of(rest@) == lines_of(s@),
        ensures
            slice_texts(r@) + lines_of(rest@) == lines_of(s@),
            !rest@.contains('\n'),
        decreases rest@.len(),
    {
        match split_line(rest) {
            Some((line, after)) => {
                proof {
                    lemma_first_line_feed(rest@, line@, after@);
                }
                let ghost before = slice_texts(r@);
                r.push(drop_return(line));
                assert(slice_texts(r@) =~= before.push(without_return(line@)));
                assert(before + (seq![without_return(line@)] + lines_of(after@)) =~= slice_texts(
                    r@,
                ) + lines_of(after@));
                rest = after;
            },
            None => {
                break;
            },
        }
    }
    proof {
        lemma_no_line_feed(rest@);
    }
    let ghost before = slice_texts(r@);
    if !rest.is_empty() {
        r.push(rest);
        assert(slice_texts(r@) =~= before + lines_of(rest@));
    }
    r
}

} // verus!
