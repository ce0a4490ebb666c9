//! Reading whitespace-separated decimal integers out of a text.

use vstd::prelude::*;

verus! {

/// The characters that separate tokens: the white space of Unicode.
pub open spec fn is_space(c: char) -> bool {
    let code = c as u32;
    ||| 0x09 <= code <= 0x0D
    ||| code == 0x20
    ||| code == 0x85
    ||| code == 0xA0
    ||| code == 0x1680
    ||| 0x2000 <= code <= 0x200A
    ||| code == 0x2028
    ||| code == 0x2029
    ||| code == 0x202F
    ||| code == 0x205F
    ||| code == 0x3000
}

/// Whether a character separates tokens.
pub fn separates(c: char) -> (space: bool)
    ensures
        space == is_space(c),
{
    let code: u32 = c as u32;
    (0x09 <= code && code <= 0x0D) || code == 0x20 || code == 0x85 || code == 0xA0 || code
        == 0x1680 || (0x2000 <= code && code <= 0x200A) || code == 0x2028 || code == 0x2029 || code
        == 0x202F || code == 0x205F || code == 0x3000
}

/// One of the ten decimal digits.
pub open spec fn is_digit(c: char) -> bool {
    '0' <= c <= '9'
}

/// The number that a decimal digit stands for.
pub open spec fn digit_value(c: char) -> int {
    c as u32 - '0' as u32
}

/// A digit string is not empty and holds digits only.
pub open spec fn all_digits(s: Seq<char>) -> bool {
    &&& s.len() > 0
    &&& forall|i: int| 0 <= i < s.len() ==> is_digit(#[trigger] s[i])
}

/// The number that a digit string stands for.
pub open spec fn digits_value(s: Seq<char>) -> int
    decreases s.len(),
{
    if s.len() == 0 {
        0
    } else {
        10 * digits_value(s.drop_last()) + digit_value(s.last())
    }
}

/// The integer that a digit string stands for under a sign, where it fits in
/// 32 bits.
pub open spec fn signed_value(negative: bool, digits: Seq<char>) -> Option<i32> {
    let value = if negative {
        -digits_value(digits)
    } else {
        digits_value(digits)
    };
    if all_digits(digits) && i32::MIN <= value <= i32::MAX {
        Some(value as i32)
    } else {
        None
    }
}

/// The integer that a token stands for: an optional sign, `+` or `-`, then a
/// digit string whose signed value fits in 32 bits. Any other token stands for
/// none.
pub open spec fn token_value(token: Seq<char>) -> Option<i32> {
    if token.len() > 0 && token[0] == '-' {
        signed_value(true, token.drop_first())
    } else if token.len() > 0 && token[0] == '+' {
        signed_value(false, token.drop_first())
    } else {
        signed_value(false, token)
    }
}

/// The first position at or after `from` that holds no white space.
pub open spec fn skip_spaces(text: Seq<char>, from: int) -> int
    decreases text.len() - from,
{
    if 0 <= from < text.len() && is_space(text[from]) {
        skip_spaces(text, from + 1)
    } else {
        from
    }
}

/// The first position at or after `from` that holds white space, or the end.
pub open spec fn skip_token(text: Seq<char>, from: int) -> int
    decreases text.len() - from,
{
    if 0 <= from < text.len() && !is_space(text[from]) {
        skip_token(text, from + 1)
    } else {
        from
    }
}

/// The tokens of `text` from position `from` on: the maximal runs of characters
/// other than white space, in order. A token starts at the first such character
/// and ends before the next white space.
pub open spec fn tokens_from(text: Seq<char>, from: int) -> Seq<Seq<char>>
    decreases text.len() - from,
{
    let start = skip_spaces(text, from);
    let end = skip_token(text, start);
    if 0 <= from <= start < end <= text.len() {
        seq![text.subrange(start, end)] + tokens_from(text, end)
    } else {
        Seq::empty()
    }
}

/// The tokens of a text.
pub open spec fn tokens(text: Seq<char>) -> Seq<Seq<char>> {
    tokens_from(text, 0)
}

/// The integers of a text: the value of each token, where every token has one.
pub open spec fn numbers_in(text: Seq<char>) -> Option<Seq<i32>> {
    let found = tokens(text);
    if forall|k: int| 0 <= k < found.len() ==> token_value(#[trigger] found[k]) is Some {
        Some(Seq::new(found.len(), |k: int| token_value(found[k])->0))
    } else {
        None
    }
}

/// Skipping white space ends within the text, at a character that is none.
pub proof fn lemma_skip_spaces(text: Seq<char>, from: int)
    requires
        0 <= from <= text.len(),
    ensures
        from <= skip_spaces(text, from) <= text.len(),
        skip_spaces(text, from) < text.len() ==> !is_space(text[skip_spaces(text, from)]),
        forall|i: int| from <= i < skip_spaces(text, from) ==> is_space(#[trigger] text[i]),
    decreases text.len() - from,
{
    if from < text.len() && is_space(text[from]) {
        lemma_skip_spaces(text, from + 1);
    }
}

/// Skipping a token ends within the text, at white space or at the end.
pub proof fn lemma_skip_token(text: Seq<char>, from: int)
    requires
        0 <= from <= text.len(),
    ensures
        from <= skip_token(text, from) <= text.len(),
        skip_token(text, from) < text.len() ==> is_space(text[skip_token(text, from)]),
        forall|i: int| from <= i < skip_token(text, from) ==> !is_space(#[trigger] text[i]),
        from < text.len() && !is_space(text[from]) ==> from < skip_token(text, from),
    decreases text.len() - from,
{
    if from < text.len() && !is_space(text[from]) {
        lemma_skip_token(text, from + 1);
    }
}

/// A token is not empty and holds no white space.
pub open spec fn is_token(token: Seq<char>) -> bool {
    &&& token.len() > 0
    &&& forall|i: int| 0 <= i < token.len() ==> !is_space(#[trigger] token[i])
}

/// Every token of a text is a run of at least one character without white
/// space.
pub proof fn lemma_tokens_hold_no_space(text: Seq<char>, from: int)
    requires
        0 <= from <= text.len(),
    ensures
        forall|k: int|
            0 <= k < tokens_from(text, from).len() ==> is_token(#[trigger] tokens_from(text, from)[k]),
    decreases text.len() - from,
{
    let start = skip_spaces(text, from);
    let end = skip_token(text, start);
    lemma_skip_spaces(text, from);
    lemma_skip_token(text, start);
    if start < end {
        lemma_tokens_hold_no_space(text, end);
        let first = text.subrange(start, end);
        assert(is_token(first)) by {
            assert forall|i: int| 0 <= i < first.len() implies !is_space(#[trigger] first[i]) by {
                assert(first[i] == text[start + i]);
            }
        }
        let found = tokens_from(text, from);
        let rest = tokens_from(text, end);
        assert(found =~= seq![first] + rest);
        assert forall|k: int| 0 <= k < found.len() implies is_token(#[trigger] found[k]) by {
            if k > 0 {
                assert(found[k] == rest[k - 1]);
            }
        }
    }
}

/// A digit string's value does not shrink when digits are appended.
pub proof fn lemma_digits_grow(s: Seq<char>, shorter: int)
    requires
        all_digits(s),
        0 <= shorter <= s.len(),
    ensures
        0 <= digits_value(s.take(shorter)) <= digits_value(s),
    decreases s.len() - shorter,
{
    if shorter == s.len() {
        assert(s.take(shorter) =~= s);
        lemma_digits_nonnegative(s);
    } else {
        lemma_digits_grow(s, shorter + 1);
        let longer = s.take(shorter + 1);
        assert(longer.drop_last() =~= s.take(shorter));
        assert(is_digit(s[shorter]));
        lemma_digits_nonnegative(s.take(shorter));
    }
}

/// A digit string's value is not negative.
pub proof fn lemma_digits_nonnegative(s: Seq<char>)
    requires
        forall|i: int| 0 <= i < s.len() ==> is_digit(#[trigger] s[i]),
    ensures
        0 <= digits_value(s),
    decreases s.len(),
{
    if s.len() > 0 {
        lemma_digits_nonnegative(s.drop_last());
        assert(is_digit(s[s.len() - 1]));
    }
}

/// Reads one token, the characters of `text` from `start` up to `end`, as an
/// integer.
pub fn parse_number(text: &Vec<char>, start: usize, end: usize) -> (value: Option<i32>)
    requires
        start < end <= text.len(),
    ensures
        value == token_value(text@.subrange(start as int, end as int)),
{
    let ghost token = text@.subrange(start as int, end as int);
    let first = text[start];
    let negative = first == '-';
    let signed = negative || first == '+';
    let begin: usize = if signed {
        start + 1
    } else {
        start
    };
    let ghost digits = text@.subrange(begin as int, end as int);
    proof {
        assert(token[0] == first);
        if signed {
            assert(digits =~= token.drop_first());
        } else {
            assert(digits =~= token);
        }
    }
    assert(token_value(token) == signed_value(negative, digits));
    if begin == end {
        return None;
    }
    let mut magnitude: i64 = 0;
    let mut at: usize = begin;
    while at < end
        invariant
            start <= begin <= at <= end <= text.len(),
            digits == text@.subrange(begin as int, end as int),
            token_value(text@.subrange(start as int, end as int)) == signed_value(negative, digits),
            forall|i: int| 0 <= i < at - begin ==> is_digit(#[trigger] digits[i]),
            magnitude == digits_value(digits.take(at - begin)),
            0 <= magnitude <= 0x8000_0000,
        decreases end - at,
    {
        let c = text[at];
        proof {
            assert(digits[at - begin] == c);
            assert(digits.take(at - begin + 1).drop_last() =~= digits.take(at - begin));
        }
        if !('0' <= c && c <= '9') {
            return None;
        }
        let digit: i64 = (c as u32 - '0' as u32) as i64;
        magnitude = 10 * magnitude + digit;
        at += 1;
        if magnitude > 0x8000_0000 {
            proof {
                if all_digits(digits) {
                    lemma_digits_grow(digits, at - begin);
                }
            }
            return None;
        }
    }
    proof {
        assert(digits.take(at - begin) =~= digits);
    }
    if negative {
        Some((-magnitude) as i32)
    } else if magnitude <= 0x7FFF_FFFF {
        Some(magnitude as i32)
    } else {
        None
    }
}

/// Reads every token of `text` as an integer. There is a result exactly when
/// every token stands for an integer of 32 bits.
pub fn parse_numbers(text: &Vec<char>) -> (numbers: Option<Vec<i32>>)
    ensures
        numbers is Some <==> numbers_in(text@) is Some,
        numbers is Some ==> numbers->0@ == numbers_in(text@)->0,
{
    let mut numbers: Vec<i32> = Vec::new();
    let ghost mut seen: Seq<Seq<char>> = Seq::empty();
    let mut at: usize = 0;
    loop
        invariant
            at <= text.len(),
            tokens(text@) == seen + tokens_from(text@, at as int),
            numbers.len() == seen.len(),
            forall|k: int| 0 <= k < seen.len() ==> token_value(#[trigger] seen[k]) == Some(numbers@[k]),
        decreases text.len() - at,
    {
        let ghost from = at;
        while at < text.len() && separates(text[at])
            invariant
                from <= at <= text.len(),
                skip_spaces(text@, from as int) == skip_spaces(text@, at as int),
            decreases text.len() - at,
        {
            at += 1;
        }
        let start: usize = at;
        proof {
            lemma_skip_spaces(text@, from as int);
            lemma_skip_token(text@, start as int);
        }
        if start >= text.len() {
            proof {
                assert(tokens_from(text@, from as int) =~= Seq::<Seq<char>>::empty());
                assert(tokens(text@) =~= seen);
                assert(numbers@ =~= numbers_in(text@)->0);
            }
            return Some(numbers);
        }
        while at < text.len() && !separates(text[at])
            invariant
                start <= at <= text.len(),
                skip_token(text@, start as int) == skip_token(text@, at as int),
            decreases text.len() - at,
        {
            at += 1;
        }
        let ghost token = text@.subrange(start as int, at as int);
        proof {
            assert(tokens_from(text@, from as int) =~= seq![token] + tokens_from(text@, at as int));
            assert(tokens(text@) =~= seen.push(token) + tokens_from(text@, at as int));
        }
        match parse_number(text, start, at) {
            None => {
                proof {
                    assert(tokens(text@)[seen.len() as int] == token);
                }
                return None;
            },
            Some(n) => {
                numbers.push(n);
                proof {
                    seen = seen.push(token);
                }
            },
        }
    }
}

} // verus!
