//! Recognising the naming convention of an identifier.
use crate::ascii::char_is_upper;
use crate::cover::{
    capital_cover, delimited_cover, lemma_camel_by_cover, lemma_capital_sequence_by_cover,
    lemma_delimited_by_cover,
};
use crate::grammar::{
    is_capital_sequence, is_delimited, is_plain_word, is_title_word, matches_camel,
    matches_kebab, matches_pascal, matches_screaming_snake, matches_single_word,
    matches_snake, Case,
};
use crate::naming_case::{classify, NamingCase};
use crate::scan::{
    capital_run, lemma_plain_word_by_runs, scan_digits, scan_letters, scan_word,
};
use crate::text::chars_of;
use vstd::prelude::*;

verus! {

/// Tests the whole of `v` against `[a-z]+\d*` or `[A-Z]+\d*`.
fn plain_word(v: &Vec<char>, case: Case) -> (r: bool)
    ensures
        r == is_plain_word(v@, case),
{
    let k = scan_letters(v, 0, case);
    let m = scan_digits(v, k);
    proof {
        assert(v@.skip(0) =~= v@);
        lemma_plain_word_by_runs(v@, case);
    }
    k > 0 && m == v.len()
}

/// Tests the whole of `v` against `[A-Z][a-z]+\d*`.
fn title_word(v: &Vec<char>) -> (r: bool)
    ensures
        r == is_title_word(v@),
{
    if v.len() == 0 || !char_is_upper(v[0]) {
        return false;
    }
    let k = scan_letters(v, 1, Case::Lower);
    let m = scan_digits(v, k);
    proof {
        assert(v@.skip(1).skip(k - 1) =~= v@.skip(k as int));
        lemma_plain_word_by_runs(v@.skip(1), Case::Lower);
    }
    k > 1 && m == v.len()
}

/// Tests the whole of `v` against the single-word grammar.
fn single_word(v: &Vec<char>) -> (r: bool)
    ensures
        r == matches_single_word(v@),
{
    plain_word(v, Case::Lower) || plain_word(v, Case::Upper) || title_word(v)
}

/// Tests the whole of `v` against words of the given case joined by `sep`,
/// which is `_` or `-`.
fn delimited(v: &Vec<char>, sep: char, case: Case) -> (r: bool)
    requires
        sep == '_' || sep == '-',
    ensures
        r == is_delimited(v@, sep, case),
{
    let n = v.len();
    let mut i: usize = 0;
    proof {
        lemma_delimited_by_cover(v@, sep, case);
        assert(v@.skip(0) =~= v@);
    }
    loop
        invariant
            i <= n,
            n == v.len(),
            is_delimited(v@, sep, case) == delimited_cover(v@.skip(i as int), sep, case),
        decreases n - i,
    {
        let k = scan_letters(v, i, case);
        let m = scan_digits(v, k);
        proof {
            assert(v@.skip(i as int).skip(k - i) =~= v@.skip(k as int));
            if m < n {
                assert(v@.skip(i as int).skip(m - i + 1) =~= v@.skip(m + 1));
                assert(v@.skip(i as int)[m - i] == v@[m as int]);
            }
        }
        if k == i {
            return false;
        }
        if m == n {
            return true;
        }
        if v[m] != sep {
            return false;
        }
        i = m + 1;
    }
}

/// Tests whether capital words make up all of `v` from `from` on.
fn capital_sequence(v: &Vec<char>, from: usize) -> (r: bool)
    requires
        from <= v.len(),
    ensures
        r == is_capital_sequence(v@.skip(from as int)),
{
    let n = v.len();
    let mut i: usize = from;
    proof {
        lemma_capital_sequence_by_cover(v@.skip(from as int));
    }
    while i < n
        invariant
            from <= i <= n,
            n == v.len(),
            is_capital_sequence(v@.skip(from as int)) == capital_cover(v@.skip(i as int)),
        decreases n - i,
    {
        if !char_is_upper(v[i]) {
            return false;
        }
        let m = scan_word(v, i + 1, Case::Lower);
        proof {
            assert(v@.skip(i as int).skip(1) =~= v@.skip(i + 1));
            assert(capital_run(v@.skip(i as int)) == m - i);
            assert(v@.skip(i as int).skip(m - i) =~= v@.skip(m as int));
        }
        i = m;
    }
    true
}

/// Tests the whole of `v` against the camel grammar.
fn camel(v: &Vec<char>) -> (r: bool)
    ensures
        r == matches_camel(v@),
{
    let k = scan_letters(v, 0, Case::Lower);
    let m = scan_digits(v, k);
    proof {
        assert(v@.skip(0) =~= v@);
        lemma_camel_by_cover(v@);
        lemma_capital_sequence_by_cover(v@.skip(m as int));
    }
    k > 0 && capital_sequence(v, m)
}

/// Tests the whole of `v` against the pascal grammar.
fn pascal(v: &Vec<char>) -> (r: bool)
    ensures
        r == matches_pascal(v@),
{
    proof {
        assert(v@.skip(0) =~= v@);
    }
    v.len() > 0 && capital_sequence(v, 0)
}

/// Whether `word` is a single word: lower-case letters, upper-case letters,
/// or one upper-case letter and then lower-case letters, in each case with
/// digits allowed at the end.
pub fn is_single_word(word: &str) -> (r: bool)
    ensures
        r == matches_single_word(word@),
{
    let v = chars_of(word);
    single_word(&v)
}

/// Whether `identifier` is upper-case words joined by `_`.
pub fn is_screaming_snake(identifier: &str) -> (r: bool)
    ensures
        r == matches_screaming_snake(identifier@),
{
    let v = chars_of(identifier);
    delimited(&v, '_', Case::Upper)
}

/// Whether `identifier` is lower-case words joined by `_`.
pub fn is_snake(identifier: &str) -> (r: bool)
    ensures
        r == matches_snake(identifier@),
{
    let v = chars_of(identifier);
    delimited(&v, '_', Case::Lower)
}

/// Whether `identifier` is lower-case words joined by `-`.
pub fn is_kebab(identifier: &str) -> (r: bool)
    ensures
        r == matches_kebab(identifier@),
{
    let v = chars_of(identifier);
    delimited(&v, '-', Case::Lower)
}

/// Whether `identifier` is a lower-case word followed by capital words.
pub fn is_camel(identifier: &str) -> (r: bool)
    ensures
        r == matches_camel(identifier@),
{
    let v = chars_of(identifier);
    camel(&v)
}

/// Whether `identifier` is one or more capital words.
pub fn is_pascal(identifier: &str) -> (r: bool)
    ensures
        r == matches_pascal(identifier@),
{
    let v = chars_of(identifier);
    pascal(&v)
}

/// Classifies `identifier`: the first convention, in the order single word,
/// screaming snake, snake, kebab, camel, pascal, whose grammar it
/// satisfies, and `Invalid` if it satisfies none. The result keeps the
/// identifier as it is.
pub fn which_case(identifier: &str) -> (r: NamingCase)
    ensures
        r@ == classify(identifier@),
        r@.well_formed(),
{
    let v = chars_of(identifier);
    let text = identifier.to_owned();
    if single_word(&v) {
        NamingCase::SingleWord(text)
    } else if delimited(&v, '_', Case::Upper) {
        NamingCase::ScreamingSnake(text)
    } else if delimited(&v, '_', Case::Lower) {
        NamingCase::Snake(text)
    } else if delimited(&v, '-', Case::Lower) {
        NamingCase::Kebab(text)
    } else if camel(&v) {
        NamingCase::Camel(text)
    } else if pascal(&v) {
        NamingCase::Pascal(text)
    } else {
        NamingCase::Invalid(text)
    }
}

} // verus!
