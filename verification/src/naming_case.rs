//! The classified identifier and its conversions.
use crate::ascii::{capitalize, char_to_lower, char_to_upper, lower};
use crate::detector::which_case;
use crate::grammar::{
    all_capital_words, concat, convention_of, matches_camel, matches_convention, matches_kebab,
    matches_pascal, matches_screaming_snake, matches_snake, Convention,
};
use crate::laws::{
    all_words, law_conversion_closure, law_hungarian, lemma_words_of_camel,
    lemma_words_of_well_formed,
};
use crate::text::chars_of;
use crate::words::{
    camel_form, camel_words, capital_runs, capital_words, capitalize_each, join_words,
    kebab_form, lemma_capital_runs_are_words, lower_each, pascal_form, screaming_snake_form,
    snake_form, split, split_camel, split_chars, to_lower_string, to_upper_string, upper_each,
};
use vstd::prelude::*;
use vstd::string::StringExecFns;

verus! {

/// An identifier together with the naming convention that it was found to
/// follow.
#[derive(Debug)]
pub enum NamingCase {
    /// One word, which several conventions would accept.
    SingleWord(String),
    ScreamingSnake(String),
    Snake(String),
    Kebab(String),
    Camel(String),
    Pascal(String),
    /// No known convention.
    Invalid(String),
}

/// What a classified identifier stands for: a convention and a text.
pub struct Classified {
    pub convention: Convention,
    pub text: Seq<char>,
}

impl Classified {
    /// The text satisfies the grammar of the convention.
    pub open spec fn well_formed(self) -> bool {
        matches_convention(self.text, self.convention)
    }

    /// The words that the text is made of, by the rule of its convention: the
    /// text itself for a single word, the pieces between the separators for
    /// the joined conventions, the leading lower-case word and then the
    /// capital words for camel, the capital words for pascal. `Invalid` has
    /// no words.
    pub open spec fn words(self) -> Seq<Seq<char>> {
        match self.convention {
            Convention::SingleWord => seq![self.text],
            Convention::ScreamingSnake => split(self.text, '_'),
            Convention::Snake => split(self.text, '_'),
            Convention::Kebab => split(self.text, '-'),
            Convention::Camel => camel_words(self.text),
            Convention::Pascal => capital_runs(self.text),
            Convention::Invalid => Seq::empty(),
        }
    }
}

/// The classification of the text `s`.
pub open spec fn classify(s: Seq<char>) -> Classified {
    Classified { convention: convention_of(s), text: s }
}

impl View for NamingCase {
    type V = Classified;

    open spec fn view(&self) -> Classified {
        match self {
            NamingCase::SingleWord(s) => Classified {
                convention: Convention::SingleWord,
                text: s@,
            },
            NamingCase::ScreamingSnake(s) => Classified {
                convention: Convention::ScreamingSnake,
                text: s@,
            },
            NamingCase::Snake(s) => Classified { convention: Convention::Snake, text: s@ },
            NamingCase::Kebab(s) => Classified { convention: Convention::Kebab, text: s@ },
            NamingCase::Camel(s) => Classified { convention: Convention::Camel, text: s@ },
            NamingCase::Pascal(s) => Classified { convention: Convention::Pascal, text: s@ },
            NamingCase::Invalid(s) => Classified { convention: Convention::Invalid, text: s@ },
        }
    }
}

impl PartialEq for NamingCase {
    /// Two classified identifiers are equal when they carry the same
    /// convention and the same text.
    fn eq(&self, other: &Self) -> (r: bool) {
        match (self, other) {
            (NamingCase::SingleWord(a), NamingCase::SingleWord(b)) => *a == *b,
            (NamingCase::ScreamingSnake(a), NamingCase::ScreamingSnake(b)) => *a == *b,
            (NamingCase::Snake(a), NamingCase::Snake(b)) => *a == *b,
            (NamingCase::Kebab(a), NamingCase::Kebab(b)) => *a == *b,
            (NamingCase::Camel(a), NamingCase::Camel(b)) => *a == *b,
            (NamingCase::Pascal(a), NamingCase::Pascal(b)) => *a == *b,
            (NamingCase::Invalid(a), NamingCase::Invalid(b)) => *a == *b,
            _ => false,
        }
    }
}

impl vstd::std_specs::cmp::PartialEqSpecImpl for NamingCase {
    open spec fn obeys_eq_spec() -> bool {
        true
    }

    open spec fn eq_spec(&self, other: &Self) -> bool {
        self@ == other@
    }
}

impl NamingCase {
    /// Classifies `identifier`. The same as `which_case`.
    pub fn new(identifier: &str) -> (r: NamingCase)
        ensures
            r@ == classify(identifier@),
            r@.well_formed(),
    {
        which_case(identifier)
    }

    /// The words in upper case, joined by `_`. Fails on `Invalid`, and on
    /// nothing else.
    pub fn to_screaming_snake(self) -> (r: Result<String, &'static str>)
        ensures
            match r {
                Ok(out) => !(self@.convention is Invalid) && out@ == screaming_snake_form(
                    self@.words(),
                ),
                Err(e) => self@.convention is Invalid && e@
                    == "Can't extract words from this type."@,
            },
            self@.well_formed() ==> (r matches Ok(out) ==> matches_screaming_snake(out@)),
    {
        proof {
            if self@.well_formed() && !(self@.convention is Invalid) {
                law_conversion_closure(self@);
            }
        }
        let words = extract_words_from(self)?;
        proof {
            reveal_strlit("_");
        }
        assert("_"@ =~= seq!['_']);
        Ok(join_words(&upper_words(&words), "_"))
    }

    /// The words in lower case, joined by `_`. Fails on `Invalid`, and on
    /// nothing else.
    pub fn to_snake(self) -> (r: Result<String, &'static str>)
        ensures
            match r {
                Ok(out) => !(self@.convention is Invalid) && out@ == snake_form(self@.words()),
                Err(e) => self@.convention is Invalid && e@
                    == "Can't extract words from this type."@,
            },
            self@.well_formed() ==> (r matches Ok(out) ==> matches_snake(out@)),
    {
        proof {
            if self@.well_formed() && !(self@.convention is Invalid) {
                law_conversion_closure(self@);
            }
        }
        let words = extract_words_from(self)?;
        proof {
            reveal_strlit("_");
        }
        assert("_"@ =~= seq!['_']);
        Ok(join_words(&lower_words(&words), "_"))
    }

    /// The words in lower case, joined by `-`. Fails on `Invalid`, and on
    /// nothing else.
    pub fn to_kebab(self) -> (r: Result<String, &'static str>)
        ensures
            match r {
                Ok(out) => !(self@.convention is Invalid) && out@ == kebab_form(self@.words()),
                Err(e) => self@.convention is Invalid && e@
                    == "Can't extract words from this type."@,
            },
            self@.well_formed() ==> (r matches Ok(out) ==> matches_kebab(out@)),
    {
        proof {
            if self@.well_formed() && !(self@.convention is Invalid) {
                law_conversion_closure(self@);
            }
        }
        let words = extract_words_from(self)?;
        proof {
            reveal_strlit("-");
        }
        assert("-"@ =~= seq!['-']);
        Ok(join_words(&lower_words(&words), "-"))
    }

    /// The first word in lower case, then the others capitalized, with
    /// nothing between them. Fails on `Invalid`, and on nothing else.
    pub fn to_camel(self) -> (r: Result<String, &'static str>)
        ensures
            match r {
                Ok(out) => !(self@.convention is Invalid) && out@ == camel_form(self@.words()),
                Err(e) => self@.convention is Invalid && e@
                    == "Can't extract words from this type."@,
            },
            self@.well_formed() ==> (r matches Ok(out) ==> matches_camel(out@)),
    {
        proof {
            if self@.well_formed() && !(self@.convention is Invalid) {
                law_conversion_closure(self@);
            }
        }
        let mut words = extract_words_from(self)?;
        if words.len() == 0 {
            return Ok(String::new());
        }
        let ghost all = words.deep_view();
        let first_word = words.remove(0);
        assert(words.deep_view() =~= all.skip(1));
        let mut out = to_lower_string(first_word.as_str());
        out.append(compose_words_to_pascal(words).as_str());
        Ok(out)
    }

    /// The words capitalized, with nothing between them. Fails on
    /// `Invalid`, and on nothing else.
    pub fn to_pascal(self) -> (r: Result<String, &'static str>)
        ensures
            match r {
                Ok(out) => !(self@.convention is Invalid) && out@ == pascal_form(self@.words()),
                Err(e) => self@.convention is Invalid && e@
                    == "Can't extract words from this type."@,
            },
            self@.well_formed() ==> (r matches Ok(out) ==> matches_pascal(out@)),
    {
        proof {
            if self@.well_formed() && !(self@.convention is Invalid) {
                law_conversion_closure(self@);
            }
        }
        let words = extract_words_from(self)?;
        Ok(compose_words_to_pascal(words))
    }

    /// The identifier as it was given, whatever its convention.
    pub fn to_display_string(&self) -> (r: String)
        ensures
            r@ == self@.text,
    {
        match self {
            NamingCase::SingleWord(s) => s.clone(),
            NamingCase::ScreamingSnake(s) => s.clone(),
            NamingCase::Snake(s) => s.clone(),
            NamingCase::Kebab(s) => s.clone(),
            NamingCase::Camel(s) => s.clone(),
            NamingCase::Pascal(s) => s.clone(),
            NamingCase::Invalid(s) => s.clone(),
        }
    }
}

/// What `from_hungarian_notation` makes of the text `s`: where `s` is
/// classified as camel, the pascal identifier made of its words but the
/// first; else `s` itself, as invalid.
pub open spec fn strip_hungarian(s: Seq<char>) -> Classified {
    if convention_of(s) is Camel {
        Classified { convention: Convention::Pascal, text: concat(classify(s).words().skip(1)) }
    } else {
        Classified { convention: Convention::Invalid, text: s }
    }
}

/// Every word in upper case.
fn upper_words(words: &Vec<String>) -> (r: Vec<String>)
    ensures
        r.deep_view() == upper_each(words.deep_view()),
{
    let mut r: Vec<String> = Vec::new();
    let mut i: usize = 0;
    while i < words.len()
        invariant
            i <= words.len(),
            r.deep_view() =~= upper_each(words.deep_view().take(i as int)),
        decreases words.len() - i,
    {
        let w = to_upper_string(words[i].as_str());
        let ghost before = r.deep_view();
        r.push(w);
        assert(r.deep_view() =~= before.push(w@));
        i += 1;
    }
    assert(words.deep_view().take(words.len() as int) =~= words.deep_view());
    r
}

/// Every word in lower case.
fn lower_words(words: &Vec<String>) -> (r: Vec<String>)
    ensures
        r.deep_view() == lower_each(words.deep_view()),
{
    let mut r: Vec<String> = Vec::new();
    let mut i: usize = 0;
    while i < words.len()
        invariant
            i <= words.len(),
            r.deep_view() =~= lower_each(words.deep_view().take(i as int)),
        decreases words.len() - i,
    {
        let w = to_lower_string(words[i].as_str());
        let ghost before = r.deep_view();
        r.push(w);
        assert(r.deep_view() =~= before.push(w@));
        i += 1;
    }
    assert(words.deep_view().take(words.len() as int) =~= words.deep_view());
    r
}

/// `s` with its first character in upper case and the others in lower case.
/// The empty string stays empty.
pub fn to_first_uppercase(s: String) -> (r: String)
    ensures
        r@ == capitalize(s@),
{
    let v = chars_of(s.as_str());
    let mut r = String::new();
    if v.len() == 0 {
        return r;
    }
    r.push(char_to_upper(v[0]));
    let mut i: usize = 1;
    while i < v.len()
        invariant
            1 <= i <= v.len(),
            r@ =~= capitalize(v@.take(i as int)),
        decreases v.len() - i,
    {
        r.push(char_to_lower(v[i]));
        i += 1;
    }
    assert(v@.take(v.len() as int) =~= v@);
    r
}

/// The words capitalized, one after another with nothing between them.
pub fn compose_words_to_pascal(words: Vec<String>) -> (r: String)
    ensures
        r@ == pascal_form(words.deep_view()),
{
    let ghost given = words.deep_view();
    let mut capitalized: Vec<String> = Vec::new();
    let mut i: usize = 0;
    let n = words.len();
    while i < n
        invariant
            i <= n,
            n == words.len(),
            words.deep_view() == given,
            capitalized.deep_view() =~= capitalize_each(given.take(i as int)),
        decreases n - i,
    {
        let w = to_first_uppercase(words[i].clone());
        let ghost before = capitalized.deep_view();
        capitalized.push(w);
        assert(capitalized.deep_view() =~= before.push(w@));
        i += 1;
    }
    assert(given.take(n as int) =~= given);
    proof {
        reveal_strlit("");
    }
    assert(""@ =~= Seq::<char>::empty());
    join_words(&capitalized, "")
}

/// The capital words found in `s` from left to right; characters outside
/// such a word are passed over.
pub fn extract_words_from_pascal(s: &str) -> (words: Vec<String>)
    ensures
        words.deep_view() == capital_runs(s@),
        all_capital_words(words.deep_view()),
{
    let v = chars_of(s);
    proof {
        assert(v@.skip(0) =~= v@);
        lemma_capital_runs_are_words(s@);
    }
    capital_words(&v, 0)
}

/// The words of a classified identifier, by the rule of its convention.
/// Fails on `Invalid`, and on nothing else.
pub fn extract_words_from(case: NamingCase) -> (r: Result<Vec<String>, &'static str>)
    ensures
        match r {
            Ok(words) => !(case@.convention is Invalid) && words.deep_view() == case@.words(),
            Err(e) => case@.convention is Invalid && e@ == "Can't extract words from this type."@,
        },
        case@.well_formed() ==> (r matches Ok(words) ==> words.len() > 0 && all_words(
            words.deep_view(),
        )),
{
    proof {
        if case@.well_formed() && !(case@.convention is Invalid) {
            lemma_words_of_well_formed(case@);
        }
    }
    match case {
        NamingCase::SingleWord(ori) => {
            let mut words: Vec<String> = Vec::new();
            words.push(ori);
            assert(words.deep_view() =~= seq![ori@]);
            Ok(words)
        },
        NamingCase::ScreamingSnake(ori) => Ok(split_chars(&chars_of(ori.as_str()), '_')),
        NamingCase::Snake(ori) => Ok(split_chars(&chars_of(ori.as_str()), '_')),
        NamingCase::Kebab(ori) => Ok(split_chars(&chars_of(ori.as_str()), '-')),
        NamingCase::Camel(ori) => Ok(split_camel(&chars_of(ori.as_str()))),
        NamingCase::Pascal(ori) => Ok(extract_words_from_pascal(ori.as_str())),
        NamingCase::Invalid(_) => Err("Can't extract words from this type."),
    }
}

/// Classifies `identifier`. The same as `which_case`.
pub fn from(identifier: &str) -> (r: NamingCase)
    ensures
        r@ == classify(identifier@),
        r@.well_formed(),
{
    which_case(identifier)
}

/// Takes a camel identifier whose first word stands for a type, and returns
/// the rest as a pascal identifier. Whatever is not classified as camel
/// comes back as `Invalid`, unchanged.
pub fn from_hungarian_notation(identifier: &str) -> (r: NamingCase)
    ensures
        r@ == strip_hungarian(identifier@),
        r@.well_formed(),
{
    proof {
        law_hungarian(identifier@);
    }
    let real_case = which_case(identifier);
    if let NamingCase::Camel(text) = real_case {
        proof {
            lemma_words_of_camel(text@);
        }
        let mut words = split_camel(&chars_of(text.as_str()));
        let ghost all = words.deep_view();
        words.remove(0);
        assert(words.deep_view() =~= all.skip(1));
        proof {
            reveal_strlit("");
        }
        assert(""@ =~= Seq::<char>::empty());
        NamingCase::Pascal(join_words(&words, ""))
    } else {
        NamingCase::Invalid(identifier.to_owned())
    }
}

} // verus!
