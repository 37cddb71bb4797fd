//! Text helpers shared by the other modules.

use vstd::prelude::*;
use vstd::string::{StrSliceExecFns, StringExecFns};

verus! {

/// What `str::to_lowercase` makes of a text: its Unicode lowercase form.
pub uninterp spec fn lowercase_of(text: Seq<char>) -> Seq<char>;

/// White space: the characters with the Unicode property `White_Space`.
pub open spec fn is_white_space(c: char) -> bool {
    let code = c as u32;
    ||| 0x09 <= code <= 0x0d
    ||| code == 0x20
    ||| code == 0x85
    ||| code == 0xa0
    ||| code == 0x1680
    ||| 0x2000 <= code <= 0x200a
    ||| code == 0x2028
    ||| code == 0x2029
    ||| code == 0x202f
    ||| code == 0x205f
    ||| code == 0x3000
}

/// How many characters of white space begin a text.
pub open spec fn leading_space(text: Seq<char>) -> int
    decreases text.len(),
{
    if text.len() > 0 && is_white_space(text[0]) {
        1 + leading_space(text.drop_first())
    } else {
        0
    }
}

/// How many characters of white space end a text.
pub open spec fn trailing_space(text: Seq<char>) -> int
    decreases text.len(),
{
    if text.len() > 0 && is_white_space(text.last()) {
        1 + trailing_space(text.drop_last())
    } else {
        0
    }
}

/// A text without the white space that begins and ends it.
pub open spec fn trimmed_of(text: Seq<char>) -> Seq<char> {
    if leading_space(text) >= text.len() {
        Seq::empty()
    } else {
        text.subrange(leading_space(text), text.len() - trailing_space(text))
    }
}

/// `str::to_lowercase`: the lowercase form of `text`, which depends on the
/// characters of `text` alone.
#[verifier::external_body]
pub(crate) fn lowercase(text: &str) -> (lower: String)
    ensures
        lower@ == lowercase_of(text@),
{
    text.to_lowercase()
}

/// Whether the character is white space.
pub fn white_space(c: char) -> (space: bool)
    ensures
        space == is_white_space(c),
{
    let code = c as u32;
    (0x09 <= code && code <= 0x0d) || code == 0x20 || code == 0x85 || code == 0xa0 || code == 0x1680
        || (0x2000 <= code && code <= 0x200a) || code == 0x2028 || code == 0x2029 || code == 0x202f
        || code == 0x205f || code == 0x3000
}

proof fn lemma_leading_space(text: Seq<char>, from: int)
    requires
        0 <= from <= text.len(),
        forall|i: int| 0 <= i < from ==> is_white_space(#[trigger] text[i]),
    ensures
        leading_space(text) == from + leading_space(text.skip(from)),
        0 <= leading_space(text) <= text.len(),
    decreases from,
{
    if from > 0 {
        let rest = text.drop_first();
        assert forall|i: int| 0 <= i < from - 1 implies is_white_space(#[trigger] rest[i]) by {
            assert(rest[i] == text[i + 1]);
        }
        lemma_leading_space(rest, from - 1);
        assert(rest.skip(from - 1) == text.skip(from));
    } else {
        assert(text.skip(0) == text);
        lemma_space_bounds(text);
    }
}

proof fn lemma_trailing_space(text: Seq<char>, to: int)
    requires
        0 <= to <= text.len(),
        forall|i: int| to <= i < text.len() ==> is_white_space(#[trigger] text[i]),
    ensures
        trailing_space(text) == text.len() - to + trailing_space(text.take(to)),
        0 <= trailing_space(text) <= text.len(),
    decreases text.len() - to,
{
    if to < text.len() {
        let rest = text.drop_last();
        assert forall|i: int| to <= i < rest.len() implies is_white_space(#[trigger] rest[i]) by {
            assert(rest[i] == text[i]);
        }
        assert(text.last() == text[text.len() - 1]);
        lemma_trailing_space(rest, to);
        assert(rest.take(to) == text.take(to));
    } else {
        assert(text.take(to) == text);
        lemma_space_bounds(text);
    }
}

proof fn lemma_space_bounds(text: Seq<char>)
    ensures
        0 <= leading_space(text) <= text.len(),
        0 <= trailing_space(text) <= text.len(),
    decreases text.len(),
{
    if text.len() > 0 {
        lemma_space_bounds(text.drop_first());
        lemma_space_bounds(text.drop_last());
    }
}

/// `text` without the white space that begins and ends it.
pub fn trimmed(text: &str) -> (inner: &str)
    ensures
        inner@ == trimmed_of(text@),
{
    let n = text.unicode_len();
    let mut from: usize = 0;
    while from < n && white_space(text.get_char(from))
        invariant
            n == text@.len(),
            from <= n,
            forall|i: int| 0 <= i < from ==> is_white_space(#[trigger] text@[i]),
        decreases n - from,
    {
        from += 1;
    }
    proof {
        lemma_leading_space(text@, from as int);
        if from < n {
            assert(text@.skip(from as int)[0] == text@[from as int]);
        }
    }
    if from == n {
        return text.substring_char(n, n);
    }
    let mut to: usize = n;
    while to > from && white_space(text.get_char(to - 1))
        invariant
            n == text@.len(),
            from <= to <= n,
            forall|i: int| to <= i < n ==> is_white_space(#[trigger] text@[i]),
        decreases to,
    {
        to -= 1;
    }
    proof {
        lemma_trailing_space(text@, to as int);
        assert(text@.take(to as int).last() == text@[to - 1]);
    }
    text.substring_char(from, to)
}

/// The characters of an optional text.
pub open spec fn text_of(text: Option<String>) -> Option<Seq<char>> {
    match text {
        Some(t) => Some(t@),
        None => None,
    }
}

/// The characters of each text of a list.
pub open spec fn texts_of(texts: Seq<String>) -> Seq<Seq<char>> {
    texts.map_values(|text: String| text@)
}

/// A copy of an optional text.
pub(crate) fn copy_text(text: &Option<String>) -> (copy: Option<String>)
    ensures
        copy == *text,
{
    match text {
        Some(t) => Some(t.clone()),
        None => None,
    }
}

/// Whether `text` is exactly the characters of `literal`.
pub(crate) fn is_text(text: &str, literal: &str) -> (same: bool)
    ensures
        same == (text@ == literal@),
{
    let a = String::from_str(text);
    let b = String::from_str(literal);
    a == b
}

/// The character of a decimal digit.
pub open spec fn digit_char(digit: nat) -> char {
    if digit == 0 {
        '0'
    } else if digit == 1 {
        '1'
    } else if digit == 2 {
        '2'
    } else if digit == 3 {
        '3'
    } else if digit == 4 {
        '4'
    } else if digit == 5 {
        '5'
    } else if digit == 6 {
        '6'
    } else if digit == 7 {
        '7'
    } else if digit == 8 {
        '8'
    } else {
        '9'
    }
}

/// A number written in decimal, without leading zeros.
pub open spec fn decimal_of(n: nat) -> Seq<char>
    decreases n,
{
    if n < 10 {
        seq![digit_char(n)]
    } else {
        decimal_of(n / 10).push(digit_char(n % 10))
    }
}

fn digit_text(digit: u64) -> (text: &'static str)
    requires
        digit < 10,
    ensures
        text@ == seq![digit_char(digit as nat)],
{
    proof {
        reveal_strlit("0");
        reveal_strlit("1");
        reveal_strlit("2");
        reveal_strlit("3");
        reveal_strlit("4");
        reveal_strlit("5");
        reveal_strlit("6");
        reveal_strlit("7");
        reveal_strlit("8");
        reveal_strlit("9");
    }
    let text = if digit == 0 {
        "0"
    } else if digit == 1 {
        "1"
    } else if digit == 2 {
        "2"
    } else if digit == 3 {
        "3"
    } else if digit == 4 {
        "4"
    } else if digit == 5 {
        "5"
    } else if digit == 6 {
        "6"
    } else if digit == 7 {
        "7"
    } else if digit == 8 {
        "8"
    } else {
        "9"
    };
    assert(text@ =~= seq![digit_char(digit as nat)]);
    text
}

/// `n` written in decimal, without leading zeros.
pub fn decimal(n: u64) -> (text: String)
    ensures
        text@ == decimal_of(n as nat),
    decreases n,
{
    if n < 10 {
        String::from_str(digit_text(n))
    } else {
        let text = decimal(n / 10).concat(digit_text(n % 10));
        assert(text@ =~= decimal_of(n as nat));
        text
    }
}

} // verus!
