//! Runs of letters and digits at the start of a sequence, and the scanners
//! that measure them.
use crate::ascii::{char_is_digit, char_is_lower, char_is_upper, is_digit, is_upper};
use crate::grammar::{is_capital_word, is_letter, is_plain_word, letters_then_digits, Case};
use vstd::prelude::*;

verus! {

/// The length of the longest prefix of `s` made of letters of the given case.
pub open spec fn letter_run(s: Seq<char>, case: Case) -> nat
    decreases s.len(),
{
    if s.len() > 0 && is_letter(s[0], case) {
        1 + letter_run(s.skip(1), case)
    } else {
        0
    }
}

/// The length of the longest prefix of `s` made of digits.
pub open spec fn digit_run(s: Seq<char>) -> nat
    decreases s.len(),
{
    if s.len() > 0 && is_digit(s[0]) {
        1 + digit_run(s.skip(1))
    } else {
        0
    }
}

/// The length of the longest prefix of `s` made of letters of the given case
/// followed by digits.
pub open spec fn word_run(s: Seq<char>, case: Case) -> nat {
    let k = letter_run(s, case);
    k + digit_run(s.skip(k as int))
}

/// The length of the capital word at the start of `s`, where `s` begins with
/// an upper-case letter.
pub open spec fn capital_run(s: Seq<char>) -> nat {
    1 + word_run(s.skip(1), Case::Lower)
}

/// A letter run lies within the sequence, holds letters only, and ends where
/// the sequence ends or at a character that is no letter of that case.
pub proof fn lemma_letter_run(s: Seq<char>, case: Case)
    ensures
        letter_run(s, case) <= s.len(),
        forall|i: int| 0 <= i < letter_run(s, case) ==> is_letter(#[trigger] s[i], case),
        letter_run(s, case) < s.len() ==> !is_letter(s[letter_run(s, case) as int], case),
    decreases s.len(),
{
    if s.len() > 0 && is_letter(s[0], case) {
        let t = s.skip(1);
        lemma_letter_run(t, case);
        let r = letter_run(t, case);
        assert forall|i: int| 0 <= i < r + 1 implies is_letter(#[trigger] s[i], case) by {
            if i > 0 {
                assert(s[i] == t[i - 1]);
            }
        }
        if r + 1 < s.len() {
            assert(s[r as int + 1] == t[r as int]);
        }
    }
}

/// A prefix of letters that cannot be extended is the letter run.
pub proof fn lemma_letter_run_is(s: Seq<char>, case: Case, k: int)
    requires
        0 <= k <= s.len(),
        forall|i: int| 0 <= i < k ==> is_letter(#[trigger] s[i], case),
        k < s.len() ==> !is_letter(s[k], case),
    ensures
        letter_run(s, case) == k,
    decreases s.len(),
{
    if k > 0 {
        let t = s.skip(1);
        assert(is_letter(s[0], case));
        assert forall|i: int| 0 <= i < k - 1 implies is_letter(#[trigger] t[i], case) by {
            assert(t[i] == s[i + 1]);
        }
        if k - 1 < t.len() {
            assert(t[k - 1] == s[k]);
        }
        lemma_letter_run_is(t, case, k - 1);
    }
}

/// A digit run lies within the sequence, holds digits only, and ends where
/// the sequence ends or at a character that is no digit.
pub proof fn lemma_digit_run(s: Seq<char>)
    ensures
        digit_run(s) <= s.len(),
        forall|i: int| 0 <= i < digit_run(s) ==> is_digit(#[trigger] s[i]),
        digit_run(s) < s.len() ==> !is_digit(s[digit_run(s) as int]),
    decreases s.len(),
{
    if s.len() > 0 && is_digit(s[0]) {
        let t = s.skip(1);
        lemma_digit_run(t);
        let r = digit_run(t);
        assert forall|i: int| 0 <= i < r + 1 implies is_digit(#[trigger] s[i]) by {
            if i > 0 {
                assert(s[i] == t[i - 1]);
            }
        }
        if r + 1 < s.len() {
            assert(s[r as int + 1] == t[r as int]);
        }
    }
}

/// A prefix of digits that cannot be extended is the digit run.
pub proof fn lemma_digit_run_is(s: Seq<char>, k: int)
    requires
        0 <= k <= s.len(),
        forall|i: int| 0 <= i < k ==> is_digit(#[trigger] s[i]),
        k < s.len() ==> !is_digit(s[k]),
    ensures
        digit_run(s) == k,
    decreases s.len(),
{
    if k > 0 {
        let t = s.skip(1);
        assert(is_digit(s[0]));
        assert forall|i: int| 0 <= i < k - 1 implies is_digit(#[trigger] t[i]) by {
            assert(t[i] == s[i + 1]);
        }
        if k - 1 < t.len() {
            assert(t[k - 1] == s[k]);
        }
        lemma_digit_run_is(t, k - 1);
    }
}

/// A word run lies within the sequence, and splits at the end of its letter
/// run into letters and digits.
pub proof fn lemma_word_run(s: Seq<char>, case: Case)
    ensures
        letter_run(s, case) <= word_run(s, case) <= s.len(),
        letters_then_digits(s.take(word_run(s, case) as int), letter_run(s, case) as int, case),
        word_run(s, case) < s.len() ==> !is_digit(s[word_run(s, case) as int]),
        word_run(s, case) < s.len() && word_run(s, case) == letter_run(s, case) ==> !is_letter(
            s[word_run(s, case) as int],
            case,
        ),
{
    let k = letter_run(s, case) as int;
    lemma_letter_run(s, case);
    lemma_digit_run(s.skip(k));
    let m = word_run(s, case) as int;
    let w = s.take(m);
    assert forall|i: int| k <= i < w.len() implies is_digit(#[trigger] w[i]) by {
        assert(w[i] == s.skip(k)[i - k]);
    }
    if m < s.len() {
        assert(s[m] == s.skip(k)[m - k]);
    }
}

/// Letters followed by digits to the end: then the letters are the letter
/// run, and the word run is the whole sequence.
pub proof fn lemma_shape_gives_runs(w: Seq<char>, k: int, case: Case)
    requires
        letters_then_digits(w, k, case),
    ensures
        letter_run(w, case) == k,
        word_run(w, case) == w.len(),
{
    if k < w.len() {
        assert(is_digit(w[k]));
    }
    lemma_letter_run_is(w, case, k);
    let d = w.skip(k);
    assert forall|i: int| 0 <= i < d.len() implies is_digit(#[trigger] d[i]) by {
        assert(d[i] == w[i + k]);
    }
    lemma_digit_run_is(d, d.len() as int);
}

/// A plain word is a sequence that its word run covers and that begins with
/// a letter.
pub proof fn lemma_plain_word_by_runs(w: Seq<char>, case: Case)
    ensures
        is_plain_word(w, case) <==> letter_run(w, case) > 0 && word_run(w, case) == w.len(),
        (exists|k: int| #[trigger] letters_then_digits(w, k, case)) <==> word_run(w, case)
            == w.len(),
{
    lemma_word_run(w, case);
    if word_run(w, case) == w.len() {
        assert(w.take(w.len() as int) =~= w);
        assert(letters_then_digits(w, letter_run(w, case) as int, case));
    }
    if exists|k: int| #[trigger] letters_then_digits(w, k, case) {
        let k = choose|k: int| #[trigger] letters_then_digits(w, k, case);
        lemma_shape_gives_runs(w, k, case);
    }
    if is_plain_word(w, case) {
        let k = choose|k: int| 0 < k && #[trigger] letters_then_digits(w, k, case);
        lemma_shape_gives_runs(w, k, case);
    }
}

/// The runs of a sequence are those of a prefix that ends where the
/// sequence ends or at a character that is neither a digit nor a letter of
/// the given case, provided that the prefix is its own word run.
pub proof fn lemma_runs_of_prefix(s: Seq<char>, m: int, case: Case)
    requires
        0 <= m <= s.len(),
        word_run(s.take(m), case) == m,
        m < s.len() ==> !is_digit(s[m]) && !is_letter(s[m], case),
    ensures
        letter_run(s, case) == letter_run(s.take(m), case),
        word_run(s, case) == m,
{
    let w = s.take(m);
    let k = letter_run(w, case) as int;
    lemma_word_run(w, case);
    lemma_letter_run(w, case);
    assert(w.take(m) =~= w);
    assert forall|i: int| 0 <= i < k implies is_letter(#[trigger] s[i], case) by {
        assert(s[i] == w[i]);
    }
    if k < m {
        assert(s[k] == w[k]);
    }
    lemma_letter_run_is(s, case, k);
    let d = s.skip(k);
    assert forall|i: int| 0 <= i < m - k implies is_digit(#[trigger] d[i]) by {
        assert(d[i] == w[i + k]);
    }
    if m < s.len() {
        assert(d[m - k] == s[m]);
    }
    lemma_digit_run_is(d, m - k);
}

/// A capital word begins with an upper-case letter, which its capital run
/// covers together with all that follows.
pub proof fn lemma_capital_word_by_runs(w: Seq<char>)
    ensures
        is_capital_word(w) <==> w.len() > 0 && is_upper(w[0]) && capital_run(w) == w.len(),
{
    if w.len() > 0 {
        lemma_plain_word_by_runs(w.skip(1), Case::Lower);
    }
}

/// Tests whether `c` is a letter of the given case.
pub(crate) fn char_is_letter(c: char, case: Case) -> (r: bool)
    ensures
        r == is_letter(c, case),
{
    match case {
        Case::Lower => char_is_lower(c),
        Case::Upper => char_is_upper(c),
    }
}

/// The position at which the letters that begin at `from` end.
pub(crate) fn scan_letters(v: &Vec<char>, from: usize, case: Case) -> (to: usize)
    requires
        from <= v.len(),
    ensures
        from <= to <= v.len(),
        to - from == letter_run(v@.skip(from as int), case),
{
    let mut i: usize = from;
    while i < v.len() && char_is_letter(v[i], case)
        invariant
            from <= i <= v.len(),
            forall|j: int| from <= j < i ==> is_letter(#[trigger] v@[j], case),
        decreases v.len() - i,
    {
        i += 1;
    }
    proof {
        let t = v@.skip(from as int);
        assert forall|j: int| 0 <= j < i - from implies is_letter(#[trigger] t[j], case) by {
            assert(t[j] == v@[j + from]);
        }
        lemma_letter_run_is(t, case, i - from);
    }
    i
}

/// The position at which the digits that begin at `from` end.
pub(crate) fn scan_digits(v: &Vec<char>, from: usize) -> (to: usize)
    requires
        from <= v.len(),
    ensures
        from <= to <= v.len(),
        to - from == digit_run(v@.skip(from as int)),
{
    let mut i: usize = from;
    while i < v.len() && char_is_digit(v[i])
        invariant
            from <= i <= v.len(),
            forall|j: int| from <= j < i ==> is_digit(#[trigger] v@[j]),
        decreases v.len() - i,
    {
        i += 1;
    }
    proof {
        let t = v@.skip(from as int);
        assert forall|j: int| 0 <= j < i - from implies is_digit(#[trigger] t[j]) by {
            assert(t[j] == v@[j + from]);
        }
        lemma_digit_run_is(t, i - from);
    }
    i
}

/// The position at which the word that begins at `from` ends: its letters,
/// then its digits.
pub(crate) fn scan_word(v: &Vec<char>, from: usize, case: Case) -> (to: usize)
    requires
        from <= v.len(),
    ensures
        from <= to <= v.len(),
        to - from == word_run(v@.skip(from as int), case),
{
    let mid = scan_letters(v, from, case);
    let to = scan_digits(v, mid);
    proof {
        assert(v@.skip(from as int).skip(mid - from) =~= v@.skip(mid as int));
    }
    to
}

} // verus!
