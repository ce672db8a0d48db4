//! The grammars of the joined conventions, restated as a walk over the text
//! from left to right, and the proofs that the walk accepts exactly what the
//! grammars describe.
use crate::ascii::{is_digit, is_upper};
use crate::grammar::{
    all_capital_words, all_plain_words, concat, is_capital_sequence, is_capital_word,
    is_delimited, is_letter, is_plain_word, join, lemma_join_first, letters_then_digits,
    matches_camel, Case,
};
use crate::scan::{
    capital_run, lemma_capital_word_by_runs, lemma_plain_word_by_runs, lemma_runs_of_prefix,
    lemma_word_run, letter_run, word_run,
};
use vstd::prelude::*;

verus! {

/// Words of the given case, each taken as far as it goes, with one `sep`
/// after each but the last, make up all of `s`.
pub open spec fn delimited_cover(s: Seq<char>, sep: char, case: Case) -> bool
    decreases s.len(),
{
    let m = word_run(s, case);
    &&& letter_run(s, case) > 0
    &&& (m >= s.len() || (s[m as int] == sep && delimited_cover(s.skip(m as int + 1), sep, case)))
}

/// Capital words, each taken as far as it goes, make up all of `s`.
pub open spec fn capital_cover(s: Seq<char>) -> bool
    decreases s.len(),
{
    s.len() == 0 || (is_upper(s[0]) && {
        proof {
            lemma_word_run(s.skip(1), Case::Lower);
        }
        capital_cover(s.skip(capital_run(s) as int))
    })
}

/// The first word of a join of plain words, for a separator that is
/// neither a digit nor a letter of their case: the join begins with it, its
/// runs are those of the join, and after it come the separator and the join
/// of the other words, where there are others.
pub proof fn lemma_join_head(ws: Seq<Seq<char>>, sep: char, case: Case)
    requires
        ws.len() > 0,
        all_plain_words(ws, case),
        !is_digit(sep),
        !is_letter(sep, case),
    ensures
        all_plain_words(ws.skip(1), case),
        letter_run(join(ws, seq![sep]), case) == letter_run(ws[0], case) > 0,
        word_run(join(ws, seq![sep]), case) == ws[0].len() <= join(ws, seq![sep]).len(),
        join(ws, seq![sep]).take(ws[0].len() as int) == ws[0],
        ws.len() == 1 ==> join(ws, seq![sep]) == ws[0],
        ws.len() > 1 ==> ws[0].len() < join(ws, seq![sep]).len(),
        ws.len() > 1 ==> join(ws, seq![sep])[ws[0].len() as int] == sep,
        ws.len() > 1 ==> join(ws, seq![sep]).skip(ws[0].len() as int + 1) == join(
            ws.skip(1),
            seq![sep],
        ),
{
    let s = join(ws, seq![sep]);
    let w = ws[0];
    let rest = ws.skip(1);
    let m = w.len() as int;
    assert(is_plain_word(w, case));
    lemma_plain_word_by_runs(w, case);
    lemma_join_first(ws, seq![sep]);
    assert(s.take(m) =~= w);
    if ws.len() > 1 {
        assert(s[m] == sep);
        assert(s.skip(m + 1) =~= join(rest, seq![sep]));
    }
    lemma_runs_of_prefix(s, m, case);
    assert forall|i: int| 0 <= i < rest.len() implies is_plain_word(#[trigger] rest[i], case) by {
        assert(rest[i] == ws[i + 1]);
    }
}

/// Plain words joined by a separator that is neither a digit nor a letter
/// of their case are covered by the walk.
pub proof fn lemma_join_is_covered(ws: Seq<Seq<char>>, sep: char, case: Case)
    requires
        ws.len() > 0,
        all_plain_words(ws, case),
        !is_digit(sep),
        !is_letter(sep, case),
    ensures
        delimited_cover(join(ws, seq![sep]), sep, case),
    decreases ws.len(),
{
    lemma_join_head(ws, sep, case);
    if ws.len() > 1 {
        lemma_join_is_covered(ws.skip(1), sep, case);
    }
}

/// What the walk covers is a join of plain words.
pub proof fn lemma_covered_is_delimited(s: Seq<char>, sep: char, case: Case)
    requires
        delimited_cover(s, sep, case),
    ensures
        is_delimited(s, sep, case),
    decreases s.len(),
{
    let m = word_run(s, case) as int;
    lemma_word_run(s, case);
    let w = s.take(m);
    assert(is_plain_word(w, case)) by {
        assert(letters_then_digits(w, letter_run(s, case) as int, case));
    }
    if m >= s.len() {
        let ws = seq![w];
        assert(w =~= s);
        assert(all_plain_words(ws, case));
        assert(s == join(ws, seq![sep]));
    } else {
        let t = s.skip(m + 1);
        lemma_covered_is_delimited(t, sep, case);
        let tail = choose|ws: Seq<Seq<char>>| #[trigger]
            all_plain_words(ws, case) && ws.len() > 0 && t == join(ws, seq![sep]);
        let ws = seq![w] + tail;
        assert(ws.skip(1) =~= tail);
        assert forall|i: int| 0 <= i < ws.len() implies is_plain_word(#[trigger] ws[i], case) by {
            if i > 0 {
                assert(ws[i] == tail[i - 1]);
            }
        }
        lemma_join_first(ws, seq![sep]);
        assert(s =~= w + seq![sep] + t);
        assert(all_plain_words(ws, case));
        assert(s == join(ws, seq![sep]));
    }
}

/// The walk covers exactly the joins of plain words, for a separator that
/// is neither a digit nor a letter of their case.
pub proof fn lemma_delimited_by_cover(s: Seq<char>, sep: char, case: Case)
    requires
        !is_digit(sep),
        !is_letter(sep, case),
    ensures
        is_delimited(s, sep, case) == delimited_cover(s, sep, case),
{
    if is_delimited(s, sep, case) {
        let ws = choose|ws: Seq<Seq<char>>| #[trigger]
            all_plain_words(ws, case) && ws.len() > 0 && s == join(ws, seq![sep]);
        lemma_join_is_covered(ws, sep, case);
    }
    if delimited_cover(s, sep, case) {
        lemma_covered_is_delimited(s, sep, case);
    }
}

/// The first of capital words put together: the whole begins with it, its
/// capital run is the word, and after it come the other words put together.
pub proof fn lemma_concat_head(ws: Seq<Seq<char>>)
    requires
        ws.len() > 0,
        all_capital_words(ws),
    ensures
        all_capital_words(ws.skip(1)),
        concat(ws).len() > 0,
        is_upper(concat(ws)[0]),
        capital_run(concat(ws)) == ws[0].len() <= concat(ws).len(),
        concat(ws).take(ws[0].len() as int) == ws[0],
        concat(ws).skip(ws[0].len() as int) == concat(ws.skip(1)),
{
    let s = concat(ws);
    let w = ws[0];
    let rest = ws.skip(1);
    let m = w.len() as int;
    assert(is_capital_word(w));
    lemma_capital_word_by_runs(w);
    lemma_join_first(ws, Seq::empty());
    assert forall|i: int| 0 <= i < rest.len() implies is_capital_word(#[trigger] rest[i]) by {
        assert(rest[i] == ws[i + 1]);
    }
    if rest.len() > 0 {
        assert(is_capital_word(rest[0]));
        lemma_join_first(rest, Seq::empty());
        assert(s[m] == rest[0][0]);
    }
    assert(s.skip(1).take(m - 1) =~= w.skip(1));
    if m - 1 < s.skip(1).len() {
        assert(s.skip(1)[m - 1] == s[m]);
    }
    lemma_runs_of_prefix(s.skip(1), m - 1, Case::Lower);
    assert(s.take(m) =~= w);
    assert(s.skip(m) =~= concat(rest));
}

/// Capital words put together are covered by the walk.
pub proof fn lemma_concat_is_covered(ws: Seq<Seq<char>>)
    requires
        all_capital_words(ws),
    ensures
        capital_cover(concat(ws)),
    decreases ws.len(),
{
    if ws.len() > 0 {
        lemma_concat_head(ws);
        lemma_concat_is_covered(ws.skip(1));
    }
}

/// What the walk covers is a sequence of capital words.
pub proof fn lemma_covered_is_capital_sequence(s: Seq<char>)
    requires
        capital_cover(s),
    ensures
        is_capital_sequence(s),
    decreases s.len(),
{
    if s.len() == 0 {
        let ws = Seq::<Seq<char>>::empty();
        assert(all_capital_words(ws));
        assert(s =~= concat(ws));
    } else {
        let m = capital_run(s) as int;
        let w = s.take(m);
        let t = s.skip(m);
        lemma_word_run(s.skip(1), Case::Lower);
        assert(w.skip(1) =~= s.skip(1).take(m - 1));
        assert(is_capital_word(w));
        lemma_covered_is_capital_sequence(t);
        let tail = choose|ws: Seq<Seq<char>>| #[trigger] all_capital_words(ws) && t == concat(ws);
        let ws = seq![w] + tail;
        assert(ws.skip(1) =~= tail);
        assert forall|i: int| 0 <= i < ws.len() implies is_capital_word(#[trigger] ws[i]) by {
            if i > 0 {
                assert(ws[i] == tail[i - 1]);
            }
        }
        lemma_join_first(ws, Seq::empty());
        assert(s =~= w + t);
        assert(all_capital_words(ws));
        assert(s == concat(ws));
    }
}

/// The walk covers exactly the sequences of capital words.
pub proof fn lemma_capital_sequence_by_cover(s: Seq<char>)
    ensures
        is_capital_sequence(s) == capital_cover(s),
{
    if is_capital_sequence(s) {
        let ws = choose|ws: Seq<Seq<char>>| #[trigger] all_capital_words(ws) && s == concat(ws);
        lemma_concat_is_covered(ws);
    }
    if capital_cover(s) {
        lemma_covered_is_capital_sequence(s);
    }
}

/// A camel identifier is a lower-case word, taken as far as it goes, and
/// capital words that the walk covers.
pub proof fn lemma_camel_by_cover(s: Seq<char>)
    ensures
        word_run(s, Case::Lower) <= s.len(),
        matches_camel(s) <==> letter_run(s, Case::Lower) > 0 && capital_cover(
            s.skip(word_run(s, Case::Lower) as int),
        ),
{
    let m = word_run(s, Case::Lower) as int;
    lemma_word_run(s, Case::Lower);
    if matches_camel(s) {
        let k = choose|k: int|
            0 <= k <= s.len() && #[trigger] is_plain_word(s.take(k), Case::Lower)
                && is_capital_sequence(s.skip(k));
        lemma_plain_word_by_runs(s.take(k), Case::Lower);
        lemma_capital_sequence_by_cover(s.skip(k));
        if k < s.len() {
            assert(s.skip(k)[0] == s[k]);
        }
        lemma_runs_of_prefix(s, k, Case::Lower);
    }
    if letter_run(s, Case::Lower) > 0 && capital_cover(s.skip(m)) {
        lemma_capital_sequence_by_cover(s.skip(m));
        assert(is_plain_word(s.take(m), Case::Lower)) by {
            assert(letters_then_digits(
                s.take(m),
                letter_run(s, Case::Lower) as int,
                Case::Lower,
            ));
        }
    }
}

} // verus!
