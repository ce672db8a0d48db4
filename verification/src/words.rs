//! Taking an identifier apart into words and putting words together.
use crate::ascii::{
    capitalize, char_is_upper, char_to_lower, char_to_upper, is_upper, lower, upper,
};
use crate::cover::lemma_concat_head;
use crate::grammar::{
    all_capital_words, concat, is_capital_word, join, lemma_join_first, lemma_join_push, Case,
};
use crate::scan::{
    capital_run, lemma_word_run, letter_run, scan_digits, scan_letters, scan_word, word_run,
};
use crate::text::{chars_of, string_of_range};
use vstd::prelude::*;
use vstd::string::StringExecFns;

verus! {

/// The length of the longest prefix of `s` that does not hold `sep`.
pub open spec fn piece_run(s: Seq<char>, sep: char) -> nat
    decreases s.len(),
{
    if s.len() > 0 && s[0] != sep {
        1 + piece_run(s.skip(1), sep)
    } else {
        0
    }
}

/// The pieces of `s` that lie before, between and after the occurrences of
/// `sep`, in order. There is always at least one piece, and a piece is empty
/// where `sep` stands at an end of `s` or next to another `sep`.
pub open spec fn split(s: Seq<char>, sep: char) -> Seq<Seq<char>>
    decreases s.len(),
{
    let m = piece_run(s, sep);
    if m >= s.len() {
        seq![s]
    } else {
        seq![s.take(m as int)] + split(s.skip(m as int + 1), sep)
    }
}

/// The capital words found in `s` from left to right: each begins at the
/// next upper-case letter and takes the lower-case letters and then the
/// digits that follow it. Characters outside such a word are passed over.
pub open spec fn capital_runs(s: Seq<char>) -> Seq<Seq<char>>
    decreases s.len(),
{
    if s.len() == 0 {
        Seq::empty()
    } else if is_upper(s[0]) {
        proof {
            lemma_word_run(s.skip(1), Case::Lower);
        }
        seq![s.take(capital_run(s) as int)] + capital_runs(s.skip(capital_run(s) as int))
    } else {
        capital_runs(s.skip(1))
    }
}

/// The length of the lower-case word at the start of `s`: lower-case
/// letters and the digits after them, or nothing where `s` does not begin
/// with a lower-case letter.
pub open spec fn leading_word(s: Seq<char>) -> nat {
    if letter_run(s, Case::Lower) > 0 {
        word_run(s, Case::Lower)
    } else {
        0
    }
}

/// The words of a camel identifier: its leading lower-case word, then the
/// capital words of the rest. Where `s` has no leading lower-case word, they
/// are the capital words alone.
pub open spec fn camel_words(s: Seq<char>) -> Seq<Seq<char>> {
    let m = leading_word(s) as int;
    if m > 0 {
        seq![s.take(m)] + capital_runs(s.skip(m))
    } else {
        capital_runs(s)
    }
}

/// Every word in upper case.
pub open spec fn upper_each(ws: Seq<Seq<char>>) -> Seq<Seq<char>> {
    Seq::new(ws.len(), |i: int| upper(ws[i]))
}

/// Every word in lower case.
pub open spec fn lower_each(ws: Seq<Seq<char>>) -> Seq<Seq<char>> {
    Seq::new(ws.len(), |i: int| lower(ws[i]))
}

/// Every word with its first character in upper case and the others in
/// lower case.
pub open spec fn capitalize_each(ws: Seq<Seq<char>>) -> Seq<Seq<char>> {
    Seq::new(ws.len(), |i: int| capitalize(ws[i]))
}

/// The words in upper case, joined by `_`.
pub open spec fn screaming_snake_form(ws: Seq<Seq<char>>) -> Seq<char> {
    join(upper_each(ws), seq!['_'])
}

/// The words in lower case, joined by `_`.
pub open spec fn snake_form(ws: Seq<Seq<char>>) -> Seq<char> {
    join(lower_each(ws), seq!['_'])
}

/// The words in lower case, joined by `-`.
pub open spec fn kebab_form(ws: Seq<Seq<char>>) -> Seq<char> {
    join(lower_each(ws), seq!['-'])
}

/// The words capitalized, with nothing between them.
pub open spec fn pascal_form(ws: Seq<Seq<char>>) -> Seq<char> {
    concat(capitalize_each(ws))
}

/// The first word in lower case, then the others capitalized, with nothing
/// between them.
pub open spec fn camel_form(ws: Seq<Seq<char>>) -> Seq<char> {
    if ws.len() == 0 {
        Seq::empty()
    } else {
        lower(ws[0]) + pascal_form(ws.skip(1))
    }
}

/// A piece run lies within the sequence, holds no separator, and ends
/// where the sequence ends or at a separator.
pub proof fn lemma_piece_run(s: Seq<char>, sep: char)
    ensures
        piece_run(s, sep) <= s.len(),
        forall|i: int| 0 <= i < piece_run(s, sep) ==> #[trigger] s[i] != sep,
        piece_run(s, sep) < s.len() ==> s[piece_run(s, sep) as int] == sep,
    decreases s.len(),
{
    if s.len() > 0 && s[0] != sep {
        let t = s.skip(1);
        lemma_piece_run(t, sep);
        let r = piece_run(t, sep) as int;
        assert forall|i: int| 0 <= i < r + 1 implies #[trigger] s[i] != sep by {
            if i > 0 {
                assert(s[i] == t[i - 1]);
            }
        }
        if r + 1 < s.len() {
            assert(s[r + 1] == t[r]);
        }
    }
}

/// A prefix without a separator that ends where the sequence ends or at a
/// separator is the piece run.
pub proof fn lemma_piece_run_is(s: Seq<char>, sep: char, k: int)
    requires
        0 <= k <= s.len(),
        forall|i: int| 0 <= i < k ==> #[trigger] s[i] != sep,
        k < s.len() ==> s[k] == sep,
    ensures
        piece_run(s, sep) == k,
    decreases s.len(),
{
    if k > 0 {
        let t = s.skip(1);
        assert(s[0] != sep);
        assert forall|i: int| 0 <= i < k - 1 implies #[trigger] t[i] != sep by {
            assert(t[i] == s[i + 1]);
        }
        if k - 1 < t.len() {
            assert(t[k - 1] == s[k]);
        }
        lemma_piece_run_is(t, sep, k - 1);
    }
}

/// No element of `ws` holds `sep`.
pub open spec fn none_holds(ws: Seq<Seq<char>>, sep: char) -> bool {
    forall|i: int, j: int| 0 <= i < ws.len() && 0 <= j < ws[i].len() ==> #[trigger] ws[i][j] != sep
}

/// A split gives at least one piece, and no piece holds the separator.
pub proof fn lemma_split_pieces(s: Seq<char>, sep: char)
    ensures
        split(s, sep).len() > 0,
        none_holds(split(s, sep), sep),
    decreases s.len(),
{
    let m = piece_run(s, sep) as int;
    lemma_piece_run(s, sep);
    if m < s.len() {
        let rest = split(s.skip(m + 1), sep);
        lemma_split_pieces(s.skip(m + 1), sep);
        let ws = split(s, sep);
        assert forall|i: int, j: int|
            0 <= i < ws.len() && 0 <= j < ws[i].len() implies #[trigger] ws[i][j] != sep by {
            if i > 0 {
                assert(ws[i] == rest[i - 1]);
            } else {
                assert(ws[0][j] == s[j]);
            }
        }
    }
}

/// Joining the pieces of a split with the separator gives the text back,
/// whatever the text: nothing is lost and nothing changes place.
pub proof fn law_join_of_split(s: Seq<char>, sep: char)
    ensures
        split(s, sep).len() > 0,
        none_holds(split(s, sep), sep),
        join(split(s, sep), seq![sep]) == s,
    decreases s.len(),
{
    let m = piece_run(s, sep) as int;
    lemma_piece_run(s, sep);
    lemma_split_pieces(s, sep);
    if m < s.len() {
        let t = s.skip(m + 1);
        let ws = split(s, sep);
        law_join_of_split(t, sep);
        assert(ws.skip(1) =~= split(t, sep));
        lemma_join_first(ws, seq![sep]);
        assert(s =~= s.take(m) + seq![sep] + t);
    }
}

/// Splitting a join of one or more words, none of which holds the
/// separator, gives the words back.
pub proof fn lemma_split_of_join(ws: Seq<Seq<char>>, sep: char)
    requires
        ws.len() > 0,
        none_holds(ws, sep),
    ensures
        split(join(ws, seq![sep]), sep) == ws,
    decreases ws.len(),
{
    let s = join(ws, seq![sep]);
    let w = ws[0];
    let m = w.len() as int;
    lemma_join_first(ws, seq![sep]);
    assert forall|j: int| 0 <= j < m implies #[trigger] s[j] != sep by {
        assert(s[j] == ws[0][j]);
    }
    if ws.len() == 1 {
        lemma_piece_run_is(s, sep, m);
        assert(split(s, sep) =~= ws);
    } else {
        let rest = ws.skip(1);
        assert(s[m] == sep);
        lemma_piece_run_is(s, sep, m);
        assert(s.take(m) =~= w);
        assert(s.skip(m + 1) =~= join(rest, seq![sep]));
        assert forall|i: int, j: int|
            0 <= i < rest.len() && 0 <= j < rest[i].len() implies #[trigger] rest[i][j]
            != sep by {
            assert(rest[i][j] == ws[i + 1][j]);
        }
        lemma_split_of_join(rest, sep);
        assert(split(s, sep) =~= ws);
    }
}

/// Whatever the text, each of the capital words found in it is a capital
/// word.
pub proof fn lemma_capital_runs_are_words(s: Seq<char>)
    ensures
        all_capital_words(capital_runs(s)),
    decreases s.len(),
{
    if s.len() == 0 {
    } else if is_upper(s[0]) {
        let n = capital_run(s) as int;
        let t = s.skip(1);
        let w = s.take(n);
        lemma_word_run(t, Case::Lower);
        lemma_capital_runs_are_words(s.skip(n));
        assert(w.skip(1) =~= t.take(n - 1));
        assert(is_capital_word(w));
        let rest = capital_runs(s.skip(n));
        let ws = capital_runs(s);
        assert forall|i: int| 0 <= i < ws.len() implies is_capital_word(#[trigger] ws[i]) by {
            if i > 0 {
                assert(ws[i] == rest[i - 1]);
            }
        }
    } else {
        lemma_capital_runs_are_words(s.skip(1));
    }
}

/// The capital words found in capital words put together are those words.
pub proof fn lemma_capital_runs_of_concat(ws: Seq<Seq<char>>)
    requires
        all_capital_words(ws),
    ensures
        capital_runs(concat(ws)) == ws,
    decreases ws.len(),
{
    if ws.len() == 0 {
        assert(capital_runs(concat(ws)) =~= ws);
    } else {
        lemma_concat_head(ws);
        lemma_capital_runs_of_concat(ws.skip(1));
        assert(capital_runs(concat(ws)) =~= ws);
    }
}

/// Splits `v` at every `sep`.
pub(crate) fn split_chars(v: &Vec<char>, sep: char) -> (pieces: Vec<String>)
    ensures
        pieces.deep_view() == split(v@, sep),
{
    let n = v.len();
    let mut pieces: Vec<String> = Vec::new();
    let mut start: usize = 0;
    let mut i: usize = 0;
    assert(v@.skip(0) =~= v@);
    while i < n
        invariant
            start <= i <= n,
            n == v.len(),
            forall|j: int| start <= j < i ==> #[trigger] v@[j] != sep,
            split(v@, sep) =~= pieces.deep_view() + split(v@.skip(start as int), sep),
        decreases n - i,
    {
        if v[i] == sep {
            let piece = string_of_range(v, start, i);
            proof {
                let t = v@.skip(start as int);
                assert forall|j: int| 0 <= j < i - start implies #[trigger] t[j] != sep by {
                    assert(t[j] == v@[j + start]);
                }
                lemma_piece_run_is(t, sep, i - start);
                assert(t.take(i - start) =~= piece@);
                assert(t.skip(i - start + 1) =~= v@.skip(i + 1));
            }
            let ghost before = pieces.deep_view();
            pieces.push(piece);
            assert(pieces.deep_view() =~= before.push(piece@));
            start = i + 1;
        }
        i += 1;
    }
    let piece = string_of_range(v, start, n);
    proof {
        let t = v@.skip(start as int);
        assert forall|j: int| 0 <= j < n - start implies #[trigger] t[j] != sep by {
            assert(t[j] == v@[j + start]);
        }
        lemma_piece_run_is(t, sep, n - start);
        assert(t =~= piece@);
    }
    let ghost before = pieces.deep_view();
    pieces.push(piece);
    assert(pieces.deep_view() =~= before.push(piece@));
    pieces
}

/// Collects the capital words of `v` from `from` on.
pub(crate) fn capital_words(v: &Vec<char>, from: usize) -> (words: Vec<String>)
    requires
        from <= v.len(),
    ensures
        words.deep_view() == capital_runs(v@.skip(from as int)),
{
    let n = v.len();
    let mut words: Vec<String> = Vec::new();
    let mut i: usize = from;
    while i < n
        invariant
            from <= i <= n,
            n == v.len(),
            capital_runs(v@.skip(from as int)) =~= words.deep_view() + capital_runs(
                v@.skip(i as int),
            ),
        decreases n - i,
    {
        if char_is_upper(v[i]) {
            let m = scan_word(v, i + 1, Case::Lower);
            let word = string_of_range(v, i, m);
            proof {
                let t = v@.skip(i as int);
                assert(t.skip(1) =~= v@.skip(i + 1));
                assert(capital_run(t) == m - i);
                assert(t.take(m - i) =~= word@);
                assert(t.skip(m - i) =~= v@.skip(m as int));
            }
            let ghost before = words.deep_view();
            words.push(word);
            assert(words.deep_view() =~= before.push(word@));
            i = m;
        } else {
            proof {
                assert(v@.skip(i as int).skip(1) =~= v@.skip(i + 1));
            }
            i += 1;
        }
    }
    words
}

/// Takes a camel identifier apart: its leading lower-case word, where it
/// has one, then the capital words of the rest.
pub(crate) fn split_camel(v: &Vec<char>) -> (words: Vec<String>)
    ensures
        words.deep_view() == camel_words(v@),
{
    let k = scan_letters(v, 0, Case::Lower);
    proof {
        assert(v@.skip(0) =~= v@);
    }
    if k == 0 {
        return capital_words(v, 0);
    }
    let m = scan_digits(v, k);
    assert(m == leading_word(v@));
    let head = string_of_range(v, 0, m);
    let mut words: Vec<String> = Vec::new();
    words.push(head);
    let mut tail = capital_words(v, m);
    let ghost tail_view = tail.deep_view();
    words.append(&mut tail);
    assert(words.deep_view() =~= seq![head@] + tail_view);
    words
}

/// `s` in upper case.
pub(crate) fn to_upper_string(s: &str) -> (r: String)
    ensures
        r@ == upper(s@),
{
    let v = chars_of(s);
    let mut r = String::new();
    let mut i: usize = 0;
    while i < v.len()
        invariant
            i <= v.len(),
            r@ == upper(v@.take(i as int)),
        decreases v.len() - i,
    {
        r.push(char_to_upper(v[i]));
        i += 1;
        assert(upper(v@.take(i as int)) =~= upper(v@.take(i - 1)).push(
            crate::ascii::to_upper(v@[i - 1]),
        ));
    }
    assert(v@.take(v.len() as int) =~= v@);
    r
}

/// `s` in lower case.
pub(crate) fn to_lower_string(s: &str) -> (r: String)
    ensures
        r@ == lower(s@),
{
    let v = chars_of(s);
    let mut r = String::new();
    let mut i: usize = 0;
    while i < v.len()
        invariant
            i <= v.len(),
            r@ == lower(v@.take(i as int)),
        decreases v.len() - i,
    {
        r.push(char_to_lower(v[i]));
        i += 1;
        assert(lower(v@.take(i as int)) =~= lower(v@.take(i - 1)).push(
            crate::ascii::to_lower(v@[i - 1]),
        ));
    }
    assert(v@.take(v.len() as int) =~= v@);
    r
}

/// The words in order, with `sep` between each two neighbours.
pub(crate) fn join_words(words: &Vec<String>, sep: &str) -> (r: String)
    ensures
        r@ == join(words.deep_view(), sep@),
{
    let mut r = String::new();
    let mut i: usize = 0;
    while i < words.len()
        invariant
            i <= words.len(),
            r@ == join(words.deep_view().take(i as int), sep@),
        decreases words.len() - i,
    {
        if i > 0 {
            r.append(sep);
        }
        r.append(words[i].as_str());
        proof {
            let ws = words.deep_view();
            assert(ws.take(i + 1) =~= ws.take(i as int).push(words[i as int]@));
            lemma_join_push(ws.take(i as int), words[i as int]@, sep@);
        }
        i += 1;
    }
    assert(words.deep_view().take(words.len() as int) =~= words.deep_view());
    r
}

} // verus!
