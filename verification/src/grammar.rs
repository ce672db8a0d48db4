//! The grammars of the naming conventions, stated over sequences of
//! characters.
//!
//! A word is a run of ASCII letters followed by zero or more ASCII digits.
//! An identifier of a convention is a sequence of words of the shape that
//! the convention asks for, joined by the convention's separator.
use crate::ascii::{is_digit, is_lower, is_upper};
use vstd::prelude::*;

verus! {

/// The case of the letters of a word.
#[derive(Clone, Copy, Debug)]
pub enum Case {
    Lower,
    Upper,
}

/// `c` is an ASCII letter of the given case.
pub open spec fn is_letter(c: char, case: Case) -> bool {
    match case {
        Case::Lower => is_lower(c),
        Case::Upper => is_upper(c),
    }
}

/// The first `k` characters of `w` are letters of the given case, and every
/// character after them is a digit.
pub open spec fn letters_then_digits(w: Seq<char>, k: int, case: Case) -> bool {
    &&& 0 <= k <= w.len()
    &&& forall|i: int| 0 <= i < k ==> is_letter(#[trigger] w[i], case)
    &&& forall|i: int| k <= i < w.len() ==> is_digit(#[trigger] w[i])
}

/// `w` is one or more letters of the given case, then zero or more digits:
/// `[a-z]+\d*` for lower case, `[A-Z]+\d*` for upper case.
pub open spec fn is_plain_word(w: Seq<char>, case: Case) -> bool {
    exists|k: int| 0 < k && #[trigger] letters_then_digits(w, k, case)
}

/// `w` is an upper-case letter, then zero or more lower-case letters, then
/// zero or more digits: `[A-Z][a-z]*\d*`.
pub open spec fn is_capital_word(w: Seq<char>) -> bool {
    &&& w.len() > 0
    &&& is_upper(w[0])
    &&& exists|k: int| #[trigger] letters_then_digits(w.skip(1), k, Case::Lower)
}

/// `w` is an upper-case letter, then one or more lower-case letters, then
/// zero or more digits: `[A-Z][a-z]+\d*`.
pub open spec fn is_title_word(w: Seq<char>) -> bool {
    &&& w.len() > 0
    &&& is_upper(w[0])
    &&& is_plain_word(w.skip(1), Case::Lower)
}

/// Every element of `ws` is a plain word of the given case.
pub open spec fn all_plain_words(ws: Seq<Seq<char>>, case: Case) -> bool {
    forall|i: int| 0 <= i < ws.len() ==> is_plain_word(#[trigger] ws[i], case)
}

/// Every element of `ws` is a capital word.
pub open spec fn all_capital_words(ws: Seq<Seq<char>>) -> bool {
    forall|i: int| 0 <= i < ws.len() ==> is_capital_word(#[trigger] ws[i])
}

/// The elements of `ws` in order, with `sep` between each two neighbours.
pub open spec fn join(ws: Seq<Seq<char>>, sep: Seq<char>) -> Seq<char>
    decreases ws.len(),
{
    if ws.len() == 0 {
        Seq::empty()
    } else if ws.len() == 1 {
        ws[0]
    } else {
        ws[0] + sep + join(ws.skip(1), sep)
    }
}

/// The elements of `ws` in order, with nothing between them.
pub open spec fn concat(ws: Seq<Seq<char>>) -> Seq<char> {
    join(ws, Seq::empty())
}

/// `s` is one or more plain words of the given case with `sep` between each
/// two neighbours.
pub open spec fn is_delimited(s: Seq<char>, sep: char, case: Case) -> bool {
    exists|ws: Seq<Seq<char>>| #[trigger]
        all_plain_words(ws, case) && ws.len() > 0 && s == join(ws, seq![sep])
}

/// `s` is zero or more capital words with nothing between them.
pub open spec fn is_capital_sequence(s: Seq<char>) -> bool {
    exists|ws: Seq<Seq<char>>| #[trigger] all_capital_words(ws) && s == concat(ws)
}

/// The single-word grammar: `[a-z]+\d*`, `[A-Z]+\d*` or `[A-Z][a-z]+\d*`.
pub open spec fn matches_single_word(s: Seq<char>) -> bool {
    is_plain_word(s, Case::Lower) || is_plain_word(s, Case::Upper) || is_title_word(s)
}

/// The screaming-snake grammar: upper-case words joined by `_`.
pub open spec fn matches_screaming_snake(s: Seq<char>) -> bool {
    is_delimited(s, '_', Case::Upper)
}

/// The snake grammar: lower-case words joined by `_`.
pub open spec fn matches_snake(s: Seq<char>) -> bool {
    is_delimited(s, '_', Case::Lower)
}

/// The kebab grammar: lower-case words joined by `-`.
pub open spec fn matches_kebab(s: Seq<char>) -> bool {
    is_delimited(s, '-', Case::Lower)
}

/// The camel grammar: a lower-case word, then zero or more capital words.
pub open spec fn matches_camel(s: Seq<char>) -> bool {
    exists|k: int|
        0 <= k <= s.len() && #[trigger] is_plain_word(s.take(k), Case::Lower)
            && is_capital_sequence(s.skip(k))
}

/// The pascal grammar: one or more capital words.
pub open spec fn matches_pascal(s: Seq<char>) -> bool {
    s.len() > 0 && is_capital_sequence(s)
}

/// The tag of a classified identifier.
pub enum Convention {
    SingleWord,
    ScreamingSnake,
    Snake,
    Kebab,
    Camel,
    Pascal,
    Invalid,
}

/// `s` satisfies the grammar of the convention `c`. Everything counts as
/// `Invalid`: that tag makes no claim on the text.
pub open spec fn matches_convention(s: Seq<char>, c: Convention) -> bool {
    match c {
        Convention::SingleWord => matches_single_word(s),
        Convention::ScreamingSnake => matches_screaming_snake(s),
        Convention::Snake => matches_snake(s),
        Convention::Kebab => matches_kebab(s),
        Convention::Camel => matches_camel(s),
        Convention::Pascal => matches_pascal(s),
        Convention::Invalid => true,
    }
}

/// The convention that `s` is classified as: the first in the order single
/// word, screaming snake, snake, kebab, camel, pascal whose grammar `s`
/// satisfies, and `Invalid` if there is none.
pub open spec fn convention_of(s: Seq<char>) -> Convention {
    if matches_single_word(s) {
        Convention::SingleWord
    } else if matches_screaming_snake(s) {
        Convention::ScreamingSnake
    } else if matches_snake(s) {
        Convention::Snake
    } else if matches_kebab(s) {
        Convention::Kebab
    } else if matches_camel(s) {
        Convention::Camel
    } else if matches_pascal(s) {
        Convention::Pascal
    } else {
        Convention::Invalid
    }
}

/// A join of one or more sequences starts with the first of them, and goes
/// on with the separator and the join of the others where there are others.
pub proof fn lemma_join_first(ws: Seq<Seq<char>>, sep: Seq<char>)
    requires
        ws.len() > 0,
    ensures
        join(ws, sep) == if ws.len() == 1 {
            ws[0]
        } else {
            ws[0] + sep + join(ws.skip(1), sep)
        },
        concat(ws) == ws[0] + concat(ws.skip(1)),
{
    if ws.len() == 1 {
        assert(concat(ws.skip(1)) =~= Seq::<char>::empty());
        assert(concat(ws) =~= ws[0] + concat(ws.skip(1)));
    } else {
        assert(concat(ws) =~= ws[0] + concat(ws.skip(1)));
    }
}

/// Joining one more word: the word alone where there was none before it,
/// else the join so far, the separator and the word.
pub proof fn lemma_join_push(ws: Seq<Seq<char>>, w: Seq<char>, sep: Seq<char>)
    ensures
        join(ws.push(w), sep) == if ws.len() == 0 {
            w
        } else {
            join(ws, sep) + sep + w
        },
    decreases ws.len(),
{
    let all = ws.push(w);
    if ws.len() == 0 {
    } else if ws.len() == 1 {
        assert(all.skip(1) =~= seq![w]);
        assert(join(all.skip(1), sep) == w);
        assert(join(all, sep) =~= join(ws, sep) + sep + w);
    } else {
        assert(all.skip(1) =~= ws.skip(1).push(w));
        lemma_join_push(ws.skip(1), w, sep);
        assert(join(all, sep) =~= join(ws, sep) + sep + w);
    }
}

} // verus!
