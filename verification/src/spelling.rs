//! How numbers and lists are written, and texts split.
use crate::text;
use vstd::prelude::*;

verus! {

/// A number is written with digits that stand for it, the first of which is zero for zero alone.
pub proof fn numbers_are_written_in_digits(n: nat, i: int)
    ensures
        text::digits_value(text::decimal(n)) == n,
        text::decimal(n).len() > 0,
        0 <= i < text::decimal(n).len() ==> '0' <= text::decimal(n)[i] <= '9',
        text::decimal(n)[0] == '0' ==> n == 0 && text::decimal(n).len() == 1,
    decreases n,
{
    text::decimal_value(n);
    if 0 <= i < text::decimal(n).len() {
        assert(text::is_digit(text::decimal(n)[i]));
    }
    if n >= 10 {
        numbers_are_written_in_digits(n / 10, 0);
        assert(text::decimal(n)[0] == text::decimal(n / 10)[0]);
    }
}

/// A digit more makes a number ten times as large, and adds itself.
pub proof fn digits_count_tenfold(s: Seq<char>, c: char)
    requires
        '0' <= c <= '9',
    ensures
        text::digits_value(s.push(c)) == 10 * text::digits_value(s) + (c as int - '0' as int),
        text::digits_value(Seq::empty()) == 0,
{
    assert(s.push(c).drop_last() =~= s);
}

/// A text is a size where it is digits alone, at least one, that stand for no more than fits; a plus
/// sign may stand in front.
pub proof fn sizes_are_digits(s: Seq<char>, i: int)
    ensures
        text::size_value(Seq::empty()) is None,
        text::size_value(seq!['+']) is None,
        0 <= i < s.len() && !('0' <= s[i] <= '9') && s[0] != '+' ==> text::size_value(s) is None,
        s.len() > 0 && (forall|j: int| 0 <= j < s.len() ==> '0' <= #[trigger] s[j] <= '9') && text::digits_value(s) <= usize::MAX ==> text::size_value(s)
            == Some(text::digits_value(s) as usize) && text::size_value(seq!['+'] + s) == Some(text::digits_value(s) as usize),
        s.len() > 0 && s[0] != '+' && text::digits_value(s) > usize::MAX ==> text::size_value(s) is None,
{
    assert(seq!['+'].skip(1) =~= Seq::<char>::empty());
    assert((seq!['+'] + s).skip(1) =~= s);
    if 0 <= i < s.len() && !('0' <= s[i] <= '9') {
        assert(!text::is_digit(s[i]));
    }
    if s.len() > 0 && forall|j: int| 0 <= j < s.len() ==> '0' <= #[trigger] s[j] <= '9' {
        assert forall|j: int| 0 <= j < s.len() implies text::is_digit(s[j]) by {
            assert('0' <= s[j] <= '9');
        }
        assert(text::is_digit(s[0]));
    }
}

/// Lists are written in brackets, with commas and spaces between their numbers.
pub proof fn lists_are_written_in_brackets(s: Seq<usize>, a: usize, b: usize)
    ensures
        text::bracketed(s) == "["@ + text::listed(s) + "]"@,
        text::listed(Seq::empty()).len() == 0,
        text::listed(seq![a]) == text::decimal(a as nat),
        text::listed(s.push(a).push(b)) == text::listed(s.push(a)) + ", "@ + text::decimal(b as nat),
{
    assert(s.push(a).push(b).drop_last() =~= s.push(a));
}

/// No piece of a text that was split holds the separator, and the pieces with separators between them
/// are the text.
pub proof fn pieces_hold_no_separator(s: Seq<char>, sep: char, p: int, i: int)
    ensures
        0 <= p < text::split(s, sep).len() && 0 <= i < text::split(s, sep)[p].len() ==> text::split(s, sep)[p][i] != sep,
        text::join(text::split(s, sep), sep) == s,
        text::split(s, sep).len() >= 1,
    decreases s.len(),
{
    text::join_of_split(s, sep);
    text::split_nonempty(s, sep);
    if s.len() > 0 {
        let front = s.drop_last();
        text::split_nonempty(front, sep);
        let parts = text::split(front, sep);
        pieces_hold_no_separator(front, sep, p, i);
    }
}

/// Pieces are joined with one separator between each two.
pub proof fn pieces_are_joined_by_separators(parts: Seq<Seq<char>>, a: Seq<char>, b: Seq<char>, sep: char)
    ensures
        text::join(Seq::empty(), sep).len() == 0,
        text::join(seq![a], sep) == a,
        text::join(parts.push(a).push(b), sep) == text::join(parts.push(a), sep).push(sep) + b,
{
    assert(parts.push(a).push(b).drop_last() =~= parts.push(a));
}

} // verus!
