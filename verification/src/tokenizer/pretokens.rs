//! Cutting a text into chunks, and writing bytes as characters.
use crate::text;
use vstd::prelude::*;

verus! {

/// Whether `char::is_alphabetic` counts a character beyond ASCII as alphabetic.
pub uninterp spec fn alphabetic(c: char) -> bool;

/// Whether `char::is_numeric` counts a character beyond ASCII as numeric.
pub uninterp spec fn numeric(c: char) -> bool;

/// A letter: of ASCII those from A to Z, small or capital.
pub open spec fn letter(c: char) -> bool {
    if (c as int) < 128 {
        65 <= c as int <= 90 || 97 <= c as int <= 122
    } else {
        alphabetic(c)
    }
}

/// A number: of ASCII the ten digits.
pub open spec fn number(c: char) -> bool {
    if (c as int) < 128 {
        48 <= c as int <= 57
    } else {
        numeric(c)
    }
}

/// Whitespace: the characters that have the property White_Space.
pub open spec fn whitespace(c: char) -> bool {
    let v = c as int;
    9 <= v <= 13 || v == 0x20 || v == 0x85 || v == 0xa0 || v == 0x1680 || 0x2000 <= v <= 0x200a || v == 0x2028 || v == 0x2029 || v == 0x202f
        || v == 0x205f || v == 0x3000
}

/// `char::is_alphabetic` depends on the character alone; of ASCII it takes the letters.
pub assume_specification[ char::is_alphabetic ](c: char) -> (r: bool)
    ensures
        r == (if (c as int) < 128 { 65 <= c as int <= 90 || 97 <= c as int <= 122 } else { alphabetic(c) }),
;

/// `char::is_numeric` depends on the character alone; of ASCII it takes the digits.
pub assume_specification[ char::is_numeric ](c: char) -> (r: bool)
    ensures
        r == (if (c as int) < 128 { 48 <= c as int <= 57 } else { numeric(c) }),
;

/// `char::is_whitespace` takes the characters that have the property White_Space, of which
/// there are twenty-five.
pub assume_specification[ char::is_whitespace ](c: char) -> (r: bool)
    ensures
        r == whitespace(c),
;

/// `char::from_u32` gives the character of a number that is a Unicode scalar value, and nothing
/// for another number.
pub assume_specification[ char::from_u32 ](i: u32) -> (r: Option<char>)
    ensures
        match r {
            Some(c) => vstd::utf8::is_scalar(i) && c as u32 == i,
            None => !vstd::utf8::is_scalar(i),
        },
;

/// A class of characters.
#[derive(Debug, Clone, Copy, PartialEq, Eq, Structural)]
pub enum Class {
    Letter,
    Number,
    /// Neither whitespace nor a letter nor a number.
    Punct,
    Space,
    /// A carriage return or a line feed.
    Break,
}

/// The character is in the class.
pub open spec fn in_class(c: char, class: Class) -> bool {
    match class {
        Class::Letter => letter(c),
        Class::Number => number(c),
        Class::Punct => !whitespace(c) && !letter(c) && !number(c),
        Class::Space => whitespace(c),
        Class::Break => c == '\r' || c == '\n',
    }
}

/// Tests whether a character is in a class.
pub fn test_class(c: char, class: Class) -> (r: bool)
    ensures
        r == in_class(c, class),
{
    match class {
        Class::Letter => c.is_alphabetic(),
        Class::Number => c.is_numeric(),
        Class::Punct => !c.is_whitespace() && !c.is_alphabetic() && !c.is_numeric(),
        Class::Space => c.is_whitespace(),
        Class::Break => c == '\r' || c == '\n',
    }
}

/// ASCII punctuation.
pub open spec fn ascii_punctuation(c: char) -> bool {
    33 <= c as int <= 47 || 58 <= c as int <= 64 || 91 <= c as int <= 96 || 123 <= c as int <= 126
}

/// Tests whether a character is ASCII punctuation.
pub fn test_ascii_punctuation(c: char) -> (r: bool)
    ensures
        r == ascii_punctuation(c),
{
    let v: u32 = c as u32;
    (33 <= v && v <= 47) || (58 <= v && v <= 64) || (91 <= v && v <= 96) || (123 <= v && v <= 126)
}

/// The lower-case form of an ASCII letter; other characters stay.
pub open spec fn ascii_lower(c: char) -> int {
    if 65 <= c as int <= 90 {
        c as int + 32
    } else {
        c as int
    }
}

/// The number of the lower-case form of an ASCII letter.
pub fn lower_of(c: char) -> (r: u32)
    ensures
        r == ascii_lower(c),
{
    let v: u32 = c as u32;
    if 65 <= v && v <= 90 {
        v + 32
    } else {
        v
    }
}

/// A character that stands alone: whitespace or ASCII punctuation.
pub open spec fn separator(c: char) -> bool {
    whitespace(c) || ascii_punctuation(c)
}

/// Words, the last one still open.
pub open spec fn open_words(s: Seq<char>) -> (Seq<Seq<char>>, Seq<char>)
    decreases s.len(),
{
    if s.len() == 0 {
        (Seq::empty(), Seq::empty())
    } else {
        let (words, current) = open_words(s.drop_last());
        if separator(s.last()) {
            (closed(words, current).push(seq![s.last()]), Seq::empty())
        } else {
            (words, current.push(s.last()))
        }
    }
}

/// Words with the open one closed; an empty one is dropped.
pub open spec fn closed(words: Seq<Seq<char>>, current: Seq<char>) -> Seq<Seq<char>> {
    if current.len() > 0 {
        words.push(current)
    } else {
        words
    }
}

/// The words of a text: separators, each on its own, and the stretches between them.
pub open spec fn words_of(s: Seq<char>) -> Seq<Seq<char>> {
    closed(open_words(s).0, open_words(s).1)
}

/// Texts one after another.
pub open spec fn flat(parts: Seq<Seq<char>>) -> Seq<char>
    decreases parts.len(),
{
    if parts.len() == 0 {
        Seq::empty()
    } else {
        flat(parts.drop_last()) + parts.last()
    }
}

/// Adding a part adds its characters.
pub proof fn flat_push(parts: Seq<Seq<char>>, part: Seq<char>)
    ensures
        flat(parts.push(part)) == flat(parts) + part,
{
    assert(parts.push(part).drop_last() =~= parts);
}

/// Parts after parts.
pub proof fn flat_join(a: Seq<Seq<char>>, b: Seq<Seq<char>>)
    ensures
        flat(a + b) == flat(a) + flat(b),
    decreases b.len(),
{
    if b.len() == 0 {
        assert(a + b =~= a);
        assert(flat(a) + flat(b) =~= flat(a));
    } else {
        flat_join(a, b.drop_last());
        assert((a + b).drop_last() =~= a + b.drop_last());
        assert(flat(a) + (flat(b.drop_last()) + b.last()) =~= (flat(a) + flat(b.drop_last())) + b.last());
    }
}

/// Nothing of a text is lost in its open words.
proof fn open_words_keep(s: Seq<char>)
    ensures
        flat(open_words(s).0) + open_words(s).1 == s,
    decreases s.len(),
{
    if s.len() == 0 {
        assert(flat(open_words(s).0) + open_words(s).1 =~= s);
    } else {
        let (words, current) = open_words(s.drop_last());
        open_words_keep(s.drop_last());
        if separator(s.last()) {
            if current.len() > 0 {
                flat_push(words, current);
            }
            assert(flat(closed(words, current)) =~= flat(words) + current);
            flat_push(closed(words, current), seq![s.last()]);
        }
        assert(flat(open_words(s).0) + open_words(s).1 =~= s.drop_last().push(s.last()));
        assert(s.drop_last().push(s.last()) =~= s);
    }
}

/// The words of a text, one after another, are the text.
pub proof fn words_keep_text(s: Seq<char>)
    ensures
        flat(words_of(s)) == s,
{
    open_words_keep(s);
    let (words, current) = open_words(s);
    if current.len() > 0 {
        flat_push(words, current);
    } else {
        assert(flat(words) + current =~= flat(words));
    }
}

/// Every word is a separator on its own, or has no separator in it.
pub proof fn words_are_whole(s: Seq<char>, i: int)
    requires
        0 <= i < words_of(s).len(),
    ensures
        ({
            let w = words_of(s)[i];
            w.len() > 0 && ((w.len() == 1 && separator(w[0])) || forall|k: int| 0 <= k < w.len() ==> !separator(#[trigger] w[k]))
        }),
    decreases s.len(),
{
    open_words_whole(s);
}

/// A word that is a separator, or has none.
spec fn whole(w: Seq<char>) -> bool {
    (w.len() == 1 && separator(w[0])) || (w.len() > 0 && forall|k: int| 0 <= k < w.len() ==> !separator(#[trigger] w[k]))
}

proof fn open_words_whole(s: Seq<char>)
    ensures
        forall|i: int| 0 <= i < open_words(s).0.len() ==> whole(#[trigger] open_words(s).0[i]),
        forall|k: int| 0 <= k < open_words(s).1.len() ==> !separator(#[trigger] open_words(s).1[k]),
    decreases s.len(),
{
    if s.len() > 0 {
        open_words_whole(s.drop_last());
        let (words, current) = open_words(s.drop_last());
        assert forall|i: int| 0 <= i < open_words(s).0.len() implies whole(#[trigger] open_words(s).0[i]) by {
            if i < words.len() {
                assert(open_words(s).0[i] == words[i]);
            }
        }
    }
}

/// Cuts a text into words.
pub fn regex_split(s: &str) -> (r: Vec<String>)
    ensures
        text::texts(r@) == words_of(s@),
{
    let chars: Vec<char> = text::chars_of(s);
    let n: usize = chars.len();
    let mut words: Vec<String> = Vec::new();
    let mut current: String = String::new();
    let mut i: usize = 0;
    assert(s@.take(0) =~= Seq::<char>::empty());
    assert(text::texts(words@) =~= Seq::<Seq<char>>::empty());
    assert(current@ =~= Seq::<char>::empty());
    while i < n
        invariant
            n == chars@.len(),
            chars@ == s@,
            i <= n,
            open_words(s@.take(i as int)) == (text::texts(words@), current@),
        decreases n - i,
    {
        let c: char = chars[i];
        let ghost held = text::texts(words@);
        proof {
            assert(s@.take(i + 1).drop_last() =~= s@.take(i as int));
            assert(s@.take(i + 1).last() == c);
        }
        if c.is_whitespace() || test_ascii_punctuation(c) {
            if !current.as_str().is_empty() {
                words.push(current);
                assert(text::texts(words@) =~= held.push(current@));
                current = String::new();
            }
            let ghost before = text::texts(words@);
            let mut one: String = String::new();
            one.push(c);
            assert(one@ =~= seq![c]);
            words.push(one);
            assert(text::texts(words@) =~= before.push(seq![c]));
            assert(current@ =~= Seq::<char>::empty());
        } else {
            current.push(c);
        }
        i = i + 1;
    }
    assert(s@.take(n as int) =~= s@);
    let ghost held = text::texts(words@);
    if !current.as_str().is_empty() {
        words.push(current);
        assert(text::texts(words@) =~= held.push(current@));
    }
    words
}

} // verus!
