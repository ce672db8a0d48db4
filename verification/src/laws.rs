//! What holds of classification and conversion on every input.
use crate::ascii::{capitalize, is_alnum, is_digit, is_lower, is_upper, lower, upper};
use crate::cover::{
    capital_cover, lemma_camel_by_cover, lemma_capital_sequence_by_cover,
    lemma_delimited_by_cover,
};
use crate::grammar::{
    all_capital_words, all_plain_words, concat, convention_of, is_capital_sequence,
    is_capital_word, is_delimited, is_letter, is_plain_word, is_title_word, join,
    lemma_join_first, letters_then_digits, matches_camel, matches_kebab, matches_pascal,
    matches_screaming_snake, matches_single_word, matches_snake, Case, Convention,
};
use crate::naming_case::{classify, strip_hungarian, Classified};
use crate::scan::{
    capital_run, lemma_letter_run, lemma_plain_word_by_runs, lemma_word_run, letter_run,
    word_run,
};
use crate::words::{
    camel_form, camel_words, capital_runs, capitalize_each, kebab_form, leading_word,
    lemma_capital_runs_of_concat, lemma_split_of_join, lower_each, none_holds, pascal_form,
    screaming_snake_form, snake_form, upper_each,
};
use vstd::prelude::*;

verus! {

/// The first `k` characters of `w` are letters of either case, and every
/// character after them is a digit.
pub open spec fn alpha_then_digits(w: Seq<char>, k: int) -> bool {
    &&& 0 <= k <= w.len()
    &&& forall|i: int| 0 <= i < k ==> is_lower(#[trigger] w[i]) || is_upper(w[i])
    &&& forall|i: int| k <= i < w.len() ==> is_digit(#[trigger] w[i])
}

/// `w` is one or more letters, of whatever case, then zero or more digits.
/// Every word of every convention is of this kind.
pub open spec fn is_word(w: Seq<char>) -> bool {
    exists|k: int| 0 < k && #[trigger] alpha_then_digits(w, k)
}

/// Every element of `ws` is a word.
pub open spec fn all_words(ws: Seq<Seq<char>>) -> bool {
    forall|i: int| 0 <= i < ws.len() ==> is_word(#[trigger] ws[i])
}

/// `n` times the word `w`.
pub open spec fn repeat(w: Seq<char>, n: nat) -> Seq<Seq<char>> {
    Seq::new(n, |i: int| w)
}

/// How many of the five grammars of the joined conventions `s` satisfies.
pub open spec fn format_count(s: Seq<char>) -> nat {
    let a: nat = if matches_screaming_snake(s) { 1 } else { 0 };
    let b: nat = if matches_snake(s) { 1 } else { 0 };
    let c: nat = if matches_kebab(s) { 1 } else { 0 };
    let d: nat = if matches_camel(s) { 1 } else { 0 };
    let e: nat = if matches_pascal(s) { 1 } else { 0 };
    a + b + c + d + e
}

/// A plain word, a capital word and a title word are words.
pub proof fn lemma_shapes_are_words(w: Seq<char>)
    ensures
        is_plain_word(w, Case::Lower) ==> is_word(w),
        is_plain_word(w, Case::Upper) ==> is_word(w),
        is_capital_word(w) ==> is_word(w),
        is_title_word(w) ==> is_capital_word(w),
{
    if is_plain_word(w, Case::Lower) {
        let k = choose|k: int| 0 < k && #[trigger] letters_then_digits(w, k, Case::Lower);
        assert(alpha_then_digits(w, k));
    }
    if is_plain_word(w, Case::Upper) {
        let k = choose|k: int| 0 < k && #[trigger] letters_then_digits(w, k, Case::Upper);
        assert(alpha_then_digits(w, k));
    }
    if is_title_word(w) {
        let k = choose|k: int| 0 < k && #[trigger] letters_then_digits(w.skip(1), k, Case::Lower);
        assert(is_capital_word(w));
    }
    if is_capital_word(w) {
        let t = w.skip(1);
        let k = choose|k: int| #[trigger] letters_then_digits(t, k, Case::Lower);
        assert forall|i: int| 0 <= i < k + 1 implies is_lower(#[trigger] w[i]) || is_upper(
            w[i],
        ) by {
            if i > 0 {
                assert(w[i] == t[i - 1]);
            }
        }
        assert forall|i: int| k + 1 <= i < w.len() implies is_digit(#[trigger] w[i]) by {
            assert(w[i] == t[i - 1]);
        }
        assert(alpha_then_digits(w, k + 1));
    }
}

/// A word in upper case is an upper-case word, in lower case a lower-case
/// word, and capitalized a capital word.
pub proof fn lemma_lettered_word(w: Seq<char>)
    requires
        is_word(w),
    ensures
        is_plain_word(upper(w), Case::Upper),
        is_plain_word(lower(w), Case::Lower),
        is_capital_word(capitalize(w)),
{
    let k = choose|k: int| 0 < k && #[trigger] alpha_then_digits(w, k);
    assert(letters_then_digits(upper(w), k, Case::Upper));
    assert(letters_then_digits(lower(w), k, Case::Lower));
    let t = capitalize(w).skip(1);
    assert(t =~= lower(w.skip(1)));
    assert(is_lower(w[0]) || is_upper(w[0]));
    assert forall|i: int| 0 <= i < k - 1 implies is_lower(#[trigger] t[i]) by {
        assert(is_lower(w[i + 1]) || is_upper(w[i + 1]));
    }
    assert forall|i: int| k - 1 <= i < t.len() implies is_digit(#[trigger] t[i]) by {
        assert(is_digit(w[i + 1]));
    }
    assert(letters_then_digits(t, k - 1, Case::Lower));
}

/// One or more words, written in a convention, satisfy its grammar.
pub proof fn lemma_forms_match(ws: Seq<Seq<char>>)
    requires
        ws.len() > 0,
        all_words(ws),
    ensures
        matches_screaming_snake(screaming_snake_form(ws)),
        matches_snake(snake_form(ws)),
        matches_kebab(kebab_form(ws)),
        matches_camel(camel_form(ws)),
        matches_pascal(pascal_form(ws)),
{
    assert forall|i: int| 0 <= i < ws.len() implies is_plain_word(
        #[trigger] upper_each(ws)[i],
        Case::Upper,
    ) by {
        lemma_lettered_word(ws[i]);
    }
    assert forall|i: int| 0 <= i < ws.len() implies is_plain_word(
        #[trigger] lower_each(ws)[i],
        Case::Lower,
    ) by {
        lemma_lettered_word(ws[i]);
    }
    assert forall|i: int| 0 <= i < ws.len() implies is_capital_word(
        #[trigger] capitalize_each(ws)[i],
    ) by {
        lemma_lettered_word(ws[i]);
    }
    assert(all_plain_words(upper_each(ws), Case::Upper));
    assert(all_plain_words(lower_each(ws), Case::Lower));
    assert(all_capital_words(capitalize_each(ws)));
    let p = pascal_form(ws);
    lemma_join_first(capitalize_each(ws), Seq::empty());
    assert(p.len() > 0);
    let rest = ws.skip(1);
    let tail = capitalize_each(rest);
    assert forall|i: int| 0 <= i < tail.len() implies is_capital_word(#[trigger] tail[i]) by {
        assert(is_word(ws[i + 1]));
        lemma_lettered_word(rest[i]);
    }
    assert(all_capital_words(tail));
    let c = camel_form(ws);
    let k = ws[0].len() as int;
    lemma_lettered_word(ws[0]);
    assert(c.take(k) =~= lower(ws[0]));
    assert(c.skip(k) =~= concat(tail));
    assert(is_capital_sequence(c.skip(k)));
}

/// A plain word holds nothing but letters and digits.
pub proof fn lemma_plain_words_hold_no(ws: Seq<Seq<char>>, sep: char, case: Case)
    requires
        all_plain_words(ws, case),
        !is_digit(sep),
        !is_letter(sep, case),
    ensures
        none_holds(ws, sep),
{
    assert forall|i: int, j: int|
        0 <= i < ws.len() && 0 <= j < ws[i].len() implies #[trigger] ws[i][j] != sep by {
        assert(is_plain_word(ws[i], case));
        let k = choose|k: int| 0 < k && #[trigger] letters_then_digits(ws[i], k, case);
        if j < k {
            assert(is_letter(ws[i][j], case));
        } else {
            assert(is_digit(ws[i][j]));
        }
    }
}

/// The words of what satisfies a joined grammar are plain words of its
/// case, and at least one.
pub proof fn lemma_words_of_delimited(s: Seq<char>, sep: char, case: Case)
    requires
        is_delimited(s, sep, case),
        !is_digit(sep),
        !is_letter(sep, case),
    ensures
        crate::words::split(s, sep).len() > 0,
        all_plain_words(crate::words::split(s, sep), case),
        join(crate::words::split(s, sep), seq![sep]) == s,
{
    let ws = choose|ws: Seq<Seq<char>>| #[trigger]
        all_plain_words(ws, case) && ws.len() > 0 && s == join(ws, seq![sep]);
    lemma_plain_words_hold_no(ws, sep, case);
    lemma_split_of_join(ws, sep);
}

/// The capital words of a sequence of capital words make up all of it.
pub proof fn lemma_words_of_capital_sequence(s: Seq<char>)
    requires
        is_capital_sequence(s),
    ensures
        all_capital_words(capital_runs(s)),
        concat(capital_runs(s)) == s,
        s.len() > 0 ==> capital_runs(s).len() > 0,
{
    let ws = choose|ws: Seq<Seq<char>>| #[trigger] all_capital_words(ws) && s == concat(ws);
    lemma_capital_runs_of_concat(ws);
}

/// The words of a camel identifier are a lower-case word and then capital
/// words, which together make up all of it.
pub proof fn lemma_words_of_camel(s: Seq<char>)
    requires
        matches_camel(s),
    ensures
        0 < leading_word(s) <= s.len(),
        is_plain_word(s.take(leading_word(s) as int), Case::Lower),
        is_capital_sequence(s.skip(leading_word(s) as int)),
        all_capital_words(camel_words(s).skip(1)),
        camel_words(s).skip(1) == capital_runs(s.skip(leading_word(s) as int)),
        concat(camel_words(s).skip(1)) == s.skip(leading_word(s) as int),
{
    let m = leading_word(s) as int;
    lemma_camel_by_cover(s);
    lemma_word_run(s, Case::Lower);
    lemma_capital_sequence_by_cover(s.skip(m));
    lemma_words_of_capital_sequence(s.skip(m));
    assert(camel_words(s).skip(1) =~= capital_runs(s.skip(m)));
    assert(letters_then_digits(s.take(m), letter_run(s, Case::Lower) as int, Case::Lower));
}

/// The words of a well-formed classified identifier other than `Invalid`
/// are words, and at least one.
pub proof fn lemma_words_of_well_formed(c: Classified)
    requires
        c.well_formed(),
        !(c.convention is Invalid),
    ensures
        c.words().len() > 0,
        all_words(c.words()),
{
    let s = c.text;
    let ws = c.words();
    match c.convention {
        Convention::SingleWord => {
            lemma_shapes_are_words(s);
        },
        Convention::ScreamingSnake => {
            lemma_words_of_delimited(s, '_', Case::Upper);
        },
        Convention::Snake => {
            lemma_words_of_delimited(s, '_', Case::Lower);
        },
        Convention::Kebab => {
            lemma_words_of_delimited(s, '-', Case::Lower);
        },
        Convention::Camel => {
            lemma_words_of_camel(s);
            assert(ws[0] == s.take(leading_word(s) as int));
            assert forall|i: int| 0 <= i < ws.len() implies is_word(#[trigger] ws[i]) by {
                if i > 0 {
                    assert(ws[i] == ws.skip(1)[i - 1]);
                    assert(is_capital_word(ws.skip(1)[i - 1]));
                }
                lemma_shapes_are_words(ws[i]);
            }
        },
        Convention::Pascal => {
            lemma_words_of_capital_sequence(s);
        },
        Convention::Invalid => {},
    }
    assert forall|i: int| 0 <= i < ws.len() implies is_word(#[trigger] ws[i]) by {
        lemma_shapes_are_words(ws[i]);
    }
}

/// A sequence of capital words holds letters and digits only, and begins
/// with an upper-case letter unless it is empty.
pub proof fn lemma_capital_sequence_chars(s: Seq<char>)
    requires
        capital_cover(s),
    ensures
        s.len() > 0 ==> is_upper(s[0]),
        forall|i: int| 0 <= i < s.len() ==> is_alnum(#[trigger] s[i]),
    decreases s.len(),
{
    if s.len() > 0 {
        let m = capital_run(s) as int;
        let t = s.skip(1);
        lemma_word_run(t, Case::Lower);
        lemma_capital_sequence_chars(s.skip(m));
        let k = letter_run(t, Case::Lower) as int;
        let w = t.take(m - 1);
        assert forall|i: int| 0 <= i < s.len() implies is_alnum(#[trigger] s[i]) by {
            if i == 0 {
            } else if i < m {
                assert(s[i] == w[i - 1]);
                if i - 1 < k {
                    assert(is_letter(w[i - 1], Case::Lower));
                } else {
                    assert(is_digit(w[i - 1]));
                }
            } else {
                assert(s[i] == s.skip(m)[i - m]);
            }
        }
    }
}

/// What satisfies a joined grammar begins with a letter of its case, and,
/// unless it is a single plain word, has the separator after its first
/// word.
pub proof fn lemma_delimited_start(s: Seq<char>, sep: char, case: Case)
    requires
        is_delimited(s, sep, case),
        !is_digit(sep),
        !is_letter(sep, case),
    ensures
        s.len() > 0,
        is_letter(s[0], case),
        !is_plain_word(s, case) ==> word_run(s, case) < s.len() && s[word_run(s, case) as int]
            == sep,
{
    lemma_delimited_by_cover(s, sep, case);
    lemma_letter_run(s, case);
    lemma_plain_word_by_runs(s, case);
    lemma_word_run(s, case);
}

/// A camel identifier begins with a lower-case letter and holds letters
/// and digits only.
pub proof fn lemma_camel_chars(s: Seq<char>)
    requires
        matches_camel(s),
    ensures
        s.len() > 0,
        is_lower(s[0]),
        forall|i: int| 0 <= i < s.len() ==> is_alnum(#[trigger] s[i]),
{
    let m = word_run(s, Case::Lower) as int;
    let k = letter_run(s, Case::Lower) as int;
    lemma_camel_by_cover(s);
    lemma_letter_run(s, Case::Lower);
    lemma_word_run(s, Case::Lower);
    lemma_capital_sequence_chars(s.skip(m));
    let w = s.take(m);
    assert forall|i: int| 0 <= i < s.len() implies is_alnum(#[trigger] s[i]) by {
        if i < m {
            assert(s[i] == w[i]);
            if i < k {
                assert(is_letter(w[i], Case::Lower));
            } else {
                assert(is_digit(w[i]));
            }
        } else {
            assert(s[i] == s.skip(m)[i - m]);
        }
    }
}

/// Classifying keeps the text: what a classified identifier shows is the
/// text that was classified.
pub proof fn law_classify_keeps_text(s: Seq<char>)
    ensures
        classify(s).text == s,
{
}

/// A text that is classified under a convention satisfies that
/// convention's grammar, and a text is classified as `Invalid` only where
/// it satisfies none of the six grammars.
pub proof fn law_classified_matches(s: Seq<char>)
    ensures
        classify(s).well_formed(),
        convention_of(s) is SingleWord ==> matches_single_word(s),
        convention_of(s) is ScreamingSnake ==> matches_screaming_snake(s),
        convention_of(s) is Snake ==> matches_snake(s),
        convention_of(s) is Kebab ==> matches_kebab(s),
        convention_of(s) is Camel ==> matches_camel(s),
        convention_of(s) is Pascal ==> matches_pascal(s),
        convention_of(s) is Invalid <==> !matches_single_word(s) && format_count(s) == 0,
{
}

/// A text that is not a single word satisfies at most one of the grammars
/// of screaming snake, snake, kebab, camel and pascal.
pub proof fn law_at_most_one_format(s: Seq<char>)
    requires
        !matches_single_word(s),
    ensures
        format_count(s) <= 1,
{
    if matches_screaming_snake(s) {
        lemma_delimited_start(s, '_', Case::Upper);
    }
    if matches_snake(s) {
        lemma_delimited_start(s, '_', Case::Lower);
    }
    if matches_kebab(s) {
        lemma_delimited_start(s, '-', Case::Lower);
    }
    if matches_camel(s) {
        lemma_camel_chars(s);
    }
    if matches_pascal(s) {
        lemma_capital_sequence_by_cover(s);
        lemma_capital_sequence_chars(s);
    }
}

/// A single word repeated one or more times and written in a convention
/// satisfies the grammar of that convention, and, unless what was written
/// is itself a single word, no other of the five grammars.
pub proof fn law_exactly_one_format(w: Seq<char>, n: nat)
    requires
        matches_single_word(w),
        n >= 1,
    ensures
        matches_screaming_snake(screaming_snake_form(repeat(w, n))),
        matches_snake(snake_form(repeat(w, n))),
        matches_kebab(kebab_form(repeat(w, n))),
        matches_camel(camel_form(repeat(w, n + 1))),
        matches_pascal(pascal_form(repeat(w, n))),
        !matches_single_word(screaming_snake_form(repeat(w, n))) ==> format_count(
            screaming_snake_form(repeat(w, n)),
        ) == 1,
        !matches_single_word(snake_form(repeat(w, n))) ==> format_count(
            snake_form(repeat(w, n)),
        ) == 1,
        !matches_single_word(kebab_form(repeat(w, n))) ==> format_count(
            kebab_form(repeat(w, n)),
        ) == 1,
        !matches_single_word(camel_form(repeat(w, n + 1))) ==> format_count(
            camel_form(repeat(w, n + 1)),
        ) == 1,
        !matches_single_word(pascal_form(repeat(w, n))) ==> format_count(
            pascal_form(repeat(w, n)),
        ) == 1,
{
    lemma_shapes_are_words(w);
    lemma_forms_match(repeat(w, n));
    lemma_forms_match(repeat(w, n + 1));
    if !matches_single_word(screaming_snake_form(repeat(w, n))) {
        law_at_most_one_format(screaming_snake_form(repeat(w, n)));
    }
    if !matches_single_word(snake_form(repeat(w, n))) {
        law_at_most_one_format(snake_form(repeat(w, n)));
    }
    if !matches_single_word(kebab_form(repeat(w, n))) {
        law_at_most_one_format(kebab_form(repeat(w, n)));
    }
    if !matches_single_word(camel_form(repeat(w, n + 1))) {
        law_at_most_one_format(camel_form(repeat(w, n + 1)));
    }
    if !matches_single_word(pascal_form(repeat(w, n))) {
        law_at_most_one_format(pascal_form(repeat(w, n)));
    }
}

/// The words of a well-formed classified identifier other than `Invalid`,
/// written in any of the five joined conventions, satisfy the grammar of
/// that convention.
pub proof fn law_conversion_closure(c: Classified)
    requires
        c.well_formed(),
        !(c.convention is Invalid),
    ensures
        matches_screaming_snake(screaming_snake_form(c.words())),
        matches_snake(snake_form(c.words())),
        matches_kebab(kebab_form(c.words())),
        matches_camel(camel_form(c.words())),
        matches_pascal(pascal_form(c.words())),
{
    lemma_words_of_well_formed(c);
    lemma_forms_match(c.words());
}

/// The words of a well-formed classified identifier other than `Invalid`,
/// written in one of the five joined conventions and classified again,
/// come out under that convention, or as a single word where what was
/// written is one.
pub proof fn law_reclassified(c: Classified)
    requires
        c.well_formed(),
        !(c.convention is Invalid),
    ensures
        convention_of(screaming_snake_form(c.words())) is ScreamingSnake || convention_of(
            screaming_snake_form(c.words()),
        ) is SingleWord,
        convention_of(snake_form(c.words())) is Snake || convention_of(
            snake_form(c.words()),
        ) is SingleWord,
        convention_of(kebab_form(c.words())) is Kebab || convention_of(
            kebab_form(c.words()),
        ) is SingleWord,
        convention_of(camel_form(c.words())) is Camel || convention_of(
            camel_form(c.words()),
        ) is SingleWord,
        convention_of(pascal_form(c.words())) is Pascal || convention_of(
            pascal_form(c.words()),
        ) is SingleWord,
{
    law_conversion_closure(c);
    let ws = c.words();
    if !matches_single_word(screaming_snake_form(ws)) {
        law_at_most_one_format(screaming_snake_form(ws));
    }
    if !matches_single_word(snake_form(ws)) {
        law_at_most_one_format(snake_form(ws));
    }
    if !matches_single_word(kebab_form(ws)) {
        law_at_most_one_format(kebab_form(ws));
    }
    if !matches_single_word(camel_form(ws)) {
        law_at_most_one_format(camel_form(ws));
    }
    if !matches_single_word(pascal_form(ws)) {
        law_at_most_one_format(pascal_form(ws));
    }
}

/// A plain word is already in its case, and a capital word is already
/// capitalized.
pub proof fn lemma_lettering_keeps(w: Seq<char>)
    ensures
        is_plain_word(w, Case::Upper) ==> upper(w) == w,
        is_plain_word(w, Case::Lower) ==> lower(w) == w,
        is_capital_word(w) ==> capitalize(w) == w,
{
    if is_plain_word(w, Case::Upper) {
        let k = choose|k: int| 0 < k && #[trigger] letters_then_digits(w, k, Case::Upper);
        assert forall|i: int| 0 <= i < w.len() implies upper(w)[i] == w[i] by {
            if i < k {
                assert(is_letter(w[i], Case::Upper));
            } else {
                assert(is_digit(w[i]));
            }
        }
        assert(upper(w) =~= w);
    }
    if is_plain_word(w, Case::Lower) {
        let k = choose|k: int| 0 < k && #[trigger] letters_then_digits(w, k, Case::Lower);
        assert forall|i: int| 0 <= i < w.len() implies lower(w)[i] == w[i] by {
            if i < k {
                assert(is_letter(w[i], Case::Lower));
            } else {
                assert(is_digit(w[i]));
            }
        }
        assert(lower(w) =~= w);
    }
    if is_capital_word(w) {
        let t = w.skip(1);
        let k = choose|k: int| #[trigger] letters_then_digits(t, k, Case::Lower);
        assert forall|i: int| 0 <= i < t.len() implies lower(t)[i] == t[i] by {
            if i < k {
                assert(is_letter(t[i], Case::Lower));
            } else {
                assert(is_digit(t[i]));
            }
        }
        assert(capitalize(w) =~= w);
    }
}

/// A well-formed identifier of one of the five joined conventions, written
/// in its own convention, is the identifier itself.
pub proof fn law_own_convention_is_kept(c: Classified)
    requires
        c.well_formed(),
    ensures
        c.convention is ScreamingSnake ==> screaming_snake_form(c.words()) == c.text,
        c.convention is Snake ==> snake_form(c.words()) == c.text,
        c.convention is Kebab ==> kebab_form(c.words()) == c.text,
        c.convention is Camel ==> camel_form(c.words()) == c.text,
        c.convention is Pascal ==> pascal_form(c.words()) == c.text,
{
    let s = c.text;
    let ws = c.words();
    match c.convention {
        Convention::ScreamingSnake => {
            lemma_words_of_delimited(s, '_', Case::Upper);
            assert forall|i: int| 0 <= i < ws.len() implies upper_each(ws)[i] == ws[i] by {
                assert(is_plain_word(ws[i], Case::Upper));
                lemma_lettering_keeps(ws[i]);
            }
            assert(upper_each(ws) =~= ws);
        },
        Convention::Snake => {
            lemma_words_of_delimited(s, '_', Case::Lower);
            assert forall|i: int| 0 <= i < ws.len() implies lower_each(ws)[i] == ws[i] by {
                assert(is_plain_word(ws[i], Case::Lower));
                lemma_lettering_keeps(ws[i]);
            }
            assert(lower_each(ws) =~= ws);
        },
        Convention::Kebab => {
            lemma_words_of_delimited(s, '-', Case::Lower);
            assert forall|i: int| 0 <= i < ws.len() implies lower_each(ws)[i] == ws[i] by {
                assert(is_plain_word(ws[i], Case::Lower));
                lemma_lettering_keeps(ws[i]);
            }
            assert(lower_each(ws) =~= ws);
        },
        Convention::Camel => {
            let m = leading_word(s) as int;
            let tail = ws.skip(1);
            lemma_words_of_camel(s);
            assert(ws[0] == s.take(m));
            lemma_lettering_keeps(ws[0]);
            assert forall|i: int| 0 <= i < tail.len() implies capitalize_each(tail)[i]
                == tail[i] by {
                assert(is_capital_word(tail[i]));
                lemma_lettering_keeps(tail[i]);
            }
            assert(capitalize_each(tail) =~= tail);
            assert(s =~= s.take(m) + s.skip(m));
        },
        Convention::Pascal => {
            lemma_words_of_capital_sequence(s);
            assert forall|i: int| 0 <= i < ws.len() implies capitalize_each(ws)[i] == ws[i] by {
                assert(is_capital_word(ws[i]));
                lemma_lettering_keeps(ws[i]);
            }
            assert(capitalize_each(ws) =~= ws);
        },
        _ => {},
    }
}

/// What is not classified as camel is handed back as `Invalid`, unchanged.
/// What is classified as camel loses its leading lower-case word, and the
/// rest is a well-formed pascal identifier.
pub proof fn law_hungarian(s: Seq<char>)
    ensures
        !(convention_of(s) is Camel) ==> strip_hungarian(s) == (Classified {
            convention: Convention::Invalid,
            text: s,
        }),
        convention_of(s) is Camel ==> strip_hungarian(s) == (Classified {
            convention: Convention::Pascal,
            text: s.skip(leading_word(s) as int),
        }),
        strip_hungarian(s).well_formed(),
{
    if convention_of(s) is Camel {
        let m = leading_word(s) as int;
        lemma_words_of_camel(s);
        if m == s.len() {
            assert(s.take(m) =~= s);
        }
    }
}

} // verus!
