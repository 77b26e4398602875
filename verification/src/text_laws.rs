//! What the operations on text are for, each in terms of the texts that go in and come out.

use crate::text::{
    ascii_lower, at_most, contains_text, decimal, digit_char, is_white_space, joined, joined_prefix,
    lemma_first_line_feed, lemma_no_line_feed, lines_of, lower_of, occurs_at, signed_decimal,
    trim_end_of, trim_of, trim_start_of,
};
use vstd::prelude::*;

verus! {

/// Among the ASCII characters the space and those from tab to carriage return are white space, and
/// no others.
pub proof fn law_ascii_white_space(c: char)
    requires
        c as nat <= 127,
    ensures
        is_white_space(c) <==> c == ' ' || 9 <= c as nat <= 13,
{
}

/// `t` holds nothing but white space.
pub open spec fn is_blank(t: Seq<char>) -> bool {
    forall|i: int| 0 <= i < t.len() ==> is_white_space(#[trigger] t[i])
}

/// `t` neither begins nor ends with white space, and is not empty.
pub open spec fn is_core(t: Seq<char>) -> bool {
    t.len() > 0 && !is_white_space(t[0]) && !is_white_space(t.last())
}

/// Trimming takes away the white space at an end, all of it and nothing else.
pub proof fn law_trimming_takes_white_space_away(a: Seq<char>, m: Seq<char>, b: Seq<char>)
    requires
        is_blank(a),
        is_core(m),
        is_blank(b),
    ensures
        trim_end_of(a + m + b) == a + m,
        trim_start_of(a + m + b) == m + b,
        trim_of(a + m + b) == m,
{
    lemma_trim_end(a + m, b);
    lemma_trim_start(a, m + b);
    lemma_trim_start(a, m);
    assert(a + m + b =~= a + (m + b));
}

proof fn lemma_trim_end(m: Seq<char>, b: Seq<char>)
    requires
        m.len() > 0,
        !is_white_space(m.last()),
        is_blank(b),
    ensures
        trim_end_of(m + b) == m,
    decreases b.len(),
{
    if b.len() == 0 {
        assert(m + b =~= m);
    } else {
        assert((m + b).last() == b[b.len() - 1]);
        assert((m + b).drop_last() =~= m + b.drop_last());
        lemma_trim_end(m, b.drop_last());
    }
}

pub proof fn lemma_trim_start(a: Seq<char>, m: Seq<char>)
    requires
        m.len() > 0,
        !is_white_space(m[0]),
        is_blank(a),
    ensures
        trim_start_of(a + m) == m,
    decreases a.len(),
{
    if a.len() == 0 {
        assert(a + m =~= m);
    } else {
        assert((a + m).drop_first() =~= a.drop_first() + m);
        lemma_trim_start(a.drop_first(), m);
    }
}

/// Of white space alone trimming leaves nothing.
pub proof fn law_blank_text_trims_to_nothing(t: Seq<char>)
    requires
        is_blank(t),
    ensures
        trim_end_of(t).len() == 0,
        trim_start_of(t).len() == 0,
        trim_of(t).len() == 0,
    decreases t.len(),
{
    if t.len() > 0 {
        assert(t.last() == t[t.len() - 1]);
        law_blank_text_trims_to_nothing(t.drop_last());
        law_blank_text_trims_to_nothing(t.drop_first());
    }
}

/// Every text that is not blank has a core, with white space around it.
pub proof fn lemma_core(t: Seq<char>) -> (r: (Seq<char>, Seq<char>, Seq<char>))
    requires
        !is_blank(t),
    ensures
        is_blank(r.0),
        is_core(r.1),
        is_blank(r.2),
        t == r.0 + r.1 + r.2,
    decreases t.len(),
{
    if is_white_space(t.last()) {
        let i = choose|i: int| 0 <= i < t.len() && !is_white_space(#[trigger] t[i]);
        assert(t.drop_last()[i] == t[i]);
        let r = lemma_core(t.drop_last());
        let b = r.2.push(t.last());
        assert(t =~= t.drop_last().push(t.last()));
        assert(t.drop_last().push(t.last()) =~= r.0 + r.1 + b);
        (r.0, r.1, b)
    } else if is_white_space(t[0]) {
        assert(t.drop_first()[t.len() - 2] == t.last());
        let r = lemma_core(t.drop_first());
        let a = seq![t[0]] + r.0;
        assert(t =~= seq![t[0]] + t.drop_first());
        assert(seq![t[0]] + t.drop_first() =~= a + r.1 + r.2);
        (a, r.1, r.2)
    } else {
        assert(t =~= Seq::<char>::empty() + t + Seq::<char>::empty());
        (Seq::empty(), t, Seq::empty())
    }
}

/// What is left after trimming tells whether a text is blank.
pub proof fn law_only_blank_texts_trim_to_nothing(t: Seq<char>)
    ensures
        trim_of(t).len() == 0 <==> is_blank(t),
        trim_end_of(t).len() == 0 <==> is_blank(t),
{
    if is_blank(t) {
        law_blank_text_trims_to_nothing(t);
    } else {
        let r = lemma_core(t);
        law_trimming_takes_white_space_away(r.0, r.1, r.2);
    }
}

/// One text stands in another exactly where the other is the one with something before and after
/// it.
pub proof fn law_contained_text_is_a_part(t: Seq<char>, part: Seq<char>)
    ensures
        contains_text(t, part) <==> exists|a: Seq<char>, b: Seq<char>| t == #[trigger] (a + part + b),
{
    if contains_text(t, part) {
        let i = choose|i: int| occurs_at(t, part, i);
        assert(t =~= t.take(i) + part + t.skip(i + part.len()));
    }
    if exists|a: Seq<char>, b: Seq<char>| t == #[trigger] (a + part + b) {
        let (a, b) = choose|a: Seq<char>, b: Seq<char>| t == #[trigger] (a + part + b);
        assert(t.subrange(a.len() as int, a.len() as int + part.len()) =~= part);
        assert(occurs_at(t, part, a.len() as int));
    }
}

/// The two are the same letter, one in upper case, one in lower case.
pub open spec fn are_two_cases(upper: char, lower: char) -> bool {
    'A' <= upper <= 'Z' && lower as int == upper as int + ('a' as int - 'A' as int)
}

/// Two texts are the same in lower case exactly where they differ in nothing but the case of ASCII
/// letters.
pub proof fn law_lower_case_forgets_case_alone(t: Seq<char>, u: Seq<char>)
    ensures
        lower_of(t) == lower_of(u) <==> t.len() == u.len() && forall|i: int|
            0 <= i < t.len() ==> #[trigger] t[i] == u[i] || are_two_cases(t[i], u[i])
                || are_two_cases(u[i], t[i]),
{
    if lower_of(t) == lower_of(u) {
        assert(lower_of(t).len() == lower_of(u).len());
        assert forall|i: int| 0 <= i < t.len() implies #[trigger] t[i] == u[i] || are_two_cases(
            t[i],
            u[i],
        ) || are_two_cases(u[i], t[i]) by {
            assert(lower_of(t)[i] == lower_of(u)[i]);
            assert(ascii_lower(t[i]) == ascii_lower(u[i]));
        }
    }
    if t.len() == u.len() && forall|i: int|
        0 <= i < t.len() ==> #[trigger] t[i] == u[i] || are_two_cases(t[i], u[i]) || are_two_cases(
            u[i],
            t[i],
        ) {
        assert(lower_of(t) =~= lower_of(u));
    }
}

/// A text without upper-case ASCII letters is its own lower-case form.
pub proof fn law_lower_case_stays(t: Seq<char>)
    ensures
        lower_of(t) == t <==> forall|i: int|
            0 <= i < t.len() ==> !('A' <= #[trigger] t[i] <= 'Z'),
        lower_of(lower_of(t)) == lower_of(t),
{
    assert(lower_of(lower_of(t)) =~= lower_of(t));
    if forall|i: int| 0 <= i < t.len() ==> !('A' <= #[trigger] t[i] <= 'Z') {
        assert(lower_of(t) =~= t);
    }
    if lower_of(t) == t {
        assert forall|i: int| 0 <= i < t.len() implies !('A' <= #[trigger] t[i] <= 'Z') by {
            assert(lower_of(t)[i] == t[i]);
        }
    }
}

/// The number that a text of digits denotes.
pub open spec fn number_of(digits: Seq<char>) -> int
    decreases digits.len(),
{
    if digits.len() == 0 {
        0
    } else {
        10 * number_of(digits.drop_last()) + (digits.last() as int - '0' as int)
    }
}

/// Decimal notation is read back as the number, and has no needless zero in front.
pub proof fn law_decimal_is_read_back(n: nat)
    ensures
        number_of(decimal(n)) == n,
        forall|i: int| 0 <= i < decimal(n).len() ==> '0' <= #[trigger] decimal(n)[i] <= '9',
        decimal(n).len() > 0,
        decimal(n).len() > 1 ==> decimal(n)[0] != '0',
    decreases n,
{
    let last = digit_char(n % 10);
    if n >= 10 {
        law_decimal_is_read_back(n / 10);
        assert(decimal(n).drop_last() =~= decimal(n / 10));
        assert forall|i: int| 0 <= i < decimal(n).len() implies '0' <= #[trigger] decimal(n)[i]
            <= '9' by {
            if i < decimal(n / 10).len() {
                assert(decimal(n)[i] == decimal(n / 10)[i]);
            }
        }
        if decimal(n / 10).len() == 1 {
            assert(decimal(n / 10)[0] as int - '0' as int == n / 10) by {
                reveal_with_fuel(number_of, 2);
            }
        }
    } else {
        reveal_with_fuel(number_of, 2);
        assert(seq![last].drop_last() =~= Seq::<char>::empty());
    }
}

/// A negative number is written as a minus sign and its size, any other as its size.
pub proof fn law_sign_of_a_number(n: nat)
    ensures
        signed_decimal(n as int) == decimal(n),
        n > 0 ==> signed_decimal(-n) == seq!['-'] + decimal(n),
{
    reveal_strlit("-");
    assert("-"@ =~= seq!['-']);
}

/// Joining two lists of parts puts one separator between what each gives by itself; a single part
/// is joined to itself, and no part to nothing.
pub proof fn law_joining_puts_one_separator_between(
    a: Seq<Seq<char>>,
    b: Seq<Seq<char>>,
    part: Seq<char>,
    sep: Seq<char>,
)
    ensures
        joined(Seq::empty(), sep) == Seq::<char>::empty(),
        joined(seq![part], sep) == part,
        a.len() > 0 && b.len() > 0 ==> joined(a + b, sep) == joined(a, sep) + sep + joined(b, sep),
{
    if a.len() > 0 && b.len() > 0 {
        lemma_joined_add(a, b, sep, b.len());
    }
}

proof fn lemma_joined_prefix(a: Seq<Seq<char>>, b: Seq<Seq<char>>, sep: Seq<char>, n: nat)
    requires
        n <= a.len(),
    ensures
        joined_prefix(a + b, sep, n) == joined_prefix(a, sep, n),
    decreases n,
{
    if n > 1 {
        lemma_joined_prefix(a, b, sep, (n - 1) as nat);
    }
}

proof fn lemma_joined_add(a: Seq<Seq<char>>, b: Seq<Seq<char>>, sep: Seq<char>, n: nat)
    requires
        a.len() > 0,
        0 < n <= b.len(),
    ensures
        joined_prefix(a + b, sep, a.len() + n) == joined(a, sep) + sep + joined_prefix(b, sep, n),
    decreases n,
{
    if n == 1 {
        lemma_joined_prefix(a, b, sep, a.len());
    } else {
        lemma_joined_add(a, b, sep, (n - 1) as nat);
    }
    assert((a + b)[a.len() + n - 1] == b[n - 1]);
    assert(joined_prefix(a + b, sep, a.len() + n) =~= joined(a, sep) + sep + joined_prefix(
        b,
        sep,
        n,
    ));
}

/// A line feed ends a line, together with a carriage return before it; the next line begins behind
/// it. What stands behind the last line feed is a line, unless it is empty.
pub proof fn law_line_feeds_end_lines(a: Seq<char>, b: Seq<char>)
    requires
        !a.contains('\n'),
    ensures
        lines_of(a + seq!['\r', '\n'] + b) == seq![a] + lines_of(b),
        a.len() == 0 || a.last() != '\r' ==> lines_of(a + seq!['\n'] + b) == seq![a] + lines_of(b),
        a.len() > 0 ==> lines_of(a) == seq![a],
        lines_of(Seq::empty()) == Seq::<Seq<char>>::empty(),
{
    lemma_no_line_feed(a);
    lemma_first_line_feed(a + seq!['\n'] + b, a, b);
    let c = a.push('\r');
    assert forall|i: int| 0 <= i < c.len() implies c[i] != '\n' by {
        if i < a.len() {
            assert(a.contains(a[i]));
        }
    }
    assert(a + seq!['\r', '\n'] + b =~= c + seq!['\n'] + b);
    lemma_first_line_feed(c + seq!['\n'] + b, c, b);
    assert(c.drop_last() =~= a);
}

/// The first so many parts are the first part of the list, and all of it where there are no more.
pub proof fn law_at_most_takes_from_the_front(a: Seq<Seq<char>>, b: Seq<Seq<char>>, n: nat)
    ensures
        at_most(a + b, a.len()) == a,
        a.len() <= n ==> at_most(a, n) == a,
{
    assert((a + b).take(a.len() as int) =~= a);
    if b.len() == 0 {
        assert(a + b =~= a);
    }
}

} // verus!
