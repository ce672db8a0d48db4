use naming_lib::{
    is_camel, is_kebab, is_pascal, is_screaming_snake, is_single_word, is_snake, which_case,
    NamingCase,
};

const WORDS: [&str; 12] = [
    "a", "foo", "foo123", "z9", "Foo", "Zz", "Foo1", "F", "FOO", "FOO123", "ABC0", "bar42",
];

fn to_first_uppercase(s: &str) -> String {
    let (first, other) = s.split_at(1);
    first.to_ascii_uppercase() + &other.to_ascii_lowercase()
}

fn repeat_with(word: String, sep: &str, times: usize) -> String {
    vec![word; times].join(sep)
}

fn build_screaming_snake_str(word: &str, times: usize) -> String {
    repeat_with(word.to_ascii_uppercase(), "_", times)
}

fn build_snake_str(word: &str, times: usize) -> String {
    repeat_with(word.to_ascii_lowercase(), "_", times)
}

fn build_kebab_str(word: &str, times: usize) -> String {
    repeat_with(word.to_ascii_lowercase(), "-", times)
}

fn build_camel_str(word: &str, times: usize) -> String {
    word.to_ascii_lowercase() + &repeat_with(to_first_uppercase(word), "", times)
}

fn build_pascal_str(word: &str, times: usize) -> String {
    repeat_with(to_first_uppercase(word), "", times)
}

fn build_all_format_str(word: &str, times: usize) -> Vec<String> {
    vec![
        build_screaming_snake_str(word, times),
        build_snake_str(word, times),
        build_kebab_str(word, times),
        build_camel_str(word, times),
        build_pascal_str(word, times),
    ]
}

#[test]
fn every_sample_word_is_a_single_word() {
    for word in WORDS {
        assert!(is_single_word(word), "{}", word);
    }
}

#[test]
fn screaming_snake_identifier_should_be_recognized() {
    for word in WORDS {
        for times in 1..6 {
            let s = build_screaming_snake_str(word, times);
            assert!(is_screaming_snake(&s), "{}", s);
        }
    }
}

#[test]
fn snake_identifier_should_be_recognized() {
    for word in WORDS {
        for times in 1..6 {
            let s = build_snake_str(word, times);
            assert!(is_snake(&s), "{}", s);
        }
    }
}

#[test]
fn kebab_identifier_should_be_recognized() {
    for word in WORDS {
        for times in 1..6 {
            let s = build_kebab_str(word, times);
            assert!(is_kebab(&s), "{}", s);
        }
    }
}

#[test]
fn camel_identifier_should_be_recognized() {
    for word in WORDS {
        for times in 1..6 {
            let s = build_camel_str(word, times);
            assert!(is_camel(&s), "{}", s);
        }
    }
}

#[test]
fn pascal_identifier_should_be_recognized() {
    for word in WORDS {
        for times in 1..6 {
            let s = build_pascal_str(word, times);
            assert!(is_pascal(&s), "{}", s);
        }
    }
}

#[test]
fn valid_strings_that_more_than_one_word_should_only_be_recognized_as_only_one_format() {
    let mut checked = 0;
    for word in WORDS {
        for times in 1..6 {
            let strs = build_all_format_str(word, times);
            if strs.iter().any(|s| is_single_word(s)) {
                continue;
            }
            let match_count = strs
                .iter()
                .map(|s| {
                    [
                        is_screaming_snake(s),
                        is_snake(s),
                        is_kebab(s),
                        is_camel(s),
                        is_pascal(s),
                    ]
                })
                .flatten()
                .filter(|result| *result)
                .count();
            assert_eq!(match_count, 5, "{} x {}", word, times);
            checked += 1;
        }
    }
    // A one-letter word repeated in pascal form is upper-case letters only,
    // which is a single word however often it is repeated.
    assert_eq!(checked, (WORDS.len() - 2) * 4);
}

#[test]
fn string_remains_unchanged_after_being_wrapped_into_the_format() {
    let samples = [
        "", "foo", "foo123", "FOO_BAR", "foo_bar", "foo-bar", "fooBar", "FooBar", "foo@bar",
        "非英语", "  spaced  ", "_", "-", "a__b", "Foo_Bar", "tab\there", "é", "foo٣",
    ];
    for s in samples {
        assert_eq!(which_case(s).to_display_string(), s);
    }
}

#[test]
fn which_case_in_each_convention() {
    assert_eq!(NamingCase::SingleWord("foo".to_string()), which_case("foo"));
    assert_eq!(NamingCase::SingleWord("foo123".to_string()), which_case("foo123"));
    assert_eq!(NamingCase::ScreamingSnake("FOO_BAR".to_string()), which_case("FOO_BAR"));
    assert_eq!(NamingCase::Snake("foo_bar".to_string()), which_case("foo_bar"));
    assert_eq!(NamingCase::Kebab("foo-bar".to_string()), which_case("foo-bar"));
    assert_eq!(NamingCase::Camel("fooBar".to_string()), which_case("fooBar"));
    assert_eq!(NamingCase::Pascal("FooBar".to_string()), which_case("FooBar"));
}

#[test]
fn which_case_on_what_no_convention_accepts() {
    assert_eq!(NamingCase::Invalid("非英语".to_string()), which_case("非英语"));
    assert_eq!(NamingCase::Invalid("foo@bar".to_string()), which_case("foo@bar"));
    assert_eq!(NamingCase::Invalid("@foobar".to_string()), which_case("@foobar"));
    assert_eq!(NamingCase::Invalid("foobar@".to_string()), which_case("foobar@"));
    assert_eq!(NamingCase::Invalid("".to_string()), which_case(""));
}

#[test]
fn misplaced_separators_are_invalid() {
    for s in [
        "_foo", "foo_", "-foo", "foo-", "foo__bar", "foo--bar", "foo_bar-baz", "foo-bar_baz",
        "_", "-", "FOO_", "_FOO", "FOO__BAR", "FOO-BAR", "Foo_Bar", "foo_Bar", "FOO_bar",
        "foo_BAR", "1foo", "123", "foo 1", "foo1bar", "fooBar_baz", "FooBar-baz",
    ] {
        assert_eq!(NamingCase::Invalid(s.to_string()), which_case(s), "{}", s);
    }
}

#[test]
fn digits_are_ascii_digits() {
    for s in ["foo٣", "FOO٣", "Foo٣", "foo_bar٣", "fooBar٣", "FooBar٣", "foo１"] {
        assert!(!is_single_word(s), "{}", s);
        assert!(!is_screaming_snake(s), "{}", s);
        assert!(!is_snake(s), "{}", s);
        assert!(!is_kebab(s), "{}", s);
        assert!(!is_camel(s), "{}", s);
        assert!(!is_pascal(s), "{}", s);
        assert_eq!(NamingCase::Invalid(s.to_string()), which_case(s));
    }
}

#[test]
fn letters_are_ascii_letters() {
    for s in ["é", "fooé", "Éa", "ñandu", "foo_é", "STRASSE_ẞ", "fooÉ", "ǅa"] {
        assert_eq!(NamingCase::Invalid(s.to_string()), which_case(s), "{}", s);
    }
}

#[test]
fn single_word_examples() {
    assert!(is_single_word("aaa"));
    assert!(is_single_word("aaa123"));
    assert!(is_single_word("Aaa"));
    assert!(is_single_word("AAA"));
    assert!(is_single_word("A"));
    assert!(is_single_word("A1"));
    assert!(is_single_word("Aaa123"));
    assert!(is_single_word("AAA123"));
    assert!(!is_single_word("aAA"));
    assert!(!is_single_word("aAa"));
    assert!(!is_single_word("AAa"));
    assert!(!is_single_word("AaA"));
    assert!(!is_single_word("a1a"));
    assert!(!is_single_word("1"));
    assert!(!is_single_word(""));
}

#[test]
fn screaming_snake_examples() {
    assert!(is_screaming_snake("FOO"));
    assert!(is_screaming_snake("FOO_BAR"));
    assert!(is_screaming_snake("FOO123_BAR456"));
    assert!(!is_screaming_snake("FOO_bar"));
    assert!(!is_screaming_snake("FOO_123"));
    assert!(!is_screaming_snake("FOO1A"));
    assert!(!is_screaming_snake(""));
}

#[test]
fn snake_examples() {
    assert!(is_snake("foo"));
    assert!(is_snake("foo_bar"));
    assert!(is_snake("foo123_bar456"));
    assert!(!is_snake("foo_Bar"));
    assert!(!is_snake("foo_1"));
    assert!(!is_snake("foo1a"));
    assert!(!is_snake("foo-bar"));
    assert!(!is_snake(""));
}

#[test]
fn kebab_examples() {
    assert!(is_kebab("foo"));
    assert!(is_kebab("foo-bar"));
    assert!(is_kebab("foo123-bar456"));
    assert!(!is_kebab("foo_bar"));
    assert!(!is_kebab("foo-Bar"));
    assert!(!is_kebab("foo-"));
    assert!(!is_kebab(""));
}

#[test]
fn camel_examples() {
    assert!(is_camel("foo"));
    assert!(is_camel("fooBar"));
    assert!(is_camel("foo123Bar456"));
    assert!(is_camel("fooB"));
    assert!(is_camel("fooBAR"));
    assert!(is_camel("aB1C"));
    assert!(!is_camel("FooBar"));
    assert!(!is_camel("foo1bar"));
    assert!(!is_camel("fooBar1b"));
    assert!(!is_camel("foo_Bar"));
    assert!(!is_camel(""));
}

#[test]
fn pascal_examples() {
    assert!(is_pascal("Foo"));
    assert!(is_pascal("FooBar"));
    assert!(is_pascal("Foo123Bar456"));
    assert!(is_pascal("FOO"));
    assert!(is_pascal("F1"));
    assert!(is_pascal("A1B"));
    assert!(!is_pascal("fooBar"));
    assert!(!is_pascal("Foo1bar"));
    assert!(!is_pascal("Foo_Bar"));
    assert!(!is_pascal("1Foo"));
    assert!(!is_pascal(""));
}

#[test]
fn single_word_wins_over_the_other_conventions() {
    assert!(is_screaming_snake("FOO") && is_pascal("FOO"));
    assert_eq!(NamingCase::SingleWord("FOO".to_string()), which_case("FOO"));
    assert!(is_snake("foo") && is_kebab("foo") && is_camel("foo"));
    assert_eq!(NamingCase::SingleWord("foo".to_string()), which_case("foo"));
    assert!(is_pascal("Foo"));
    assert_eq!(NamingCase::SingleWord("Foo".to_string()), which_case("Foo"));
    assert!(is_pascal("A1B") && !is_single_word("A1B"));
    assert_eq!(NamingCase::Pascal("A1B".to_string()), which_case("A1B"));
}

#[test]
fn a_classified_identifier_satisfies_the_predicate_of_its_tag() {
    for s in [
        "foo", "FOO", "Foo", "foo1", "FOO_BAR", "A_B_C", "foo_bar", "a_b1_c", "foo-bar",
        "a-b-c9", "fooBar", "aB", "fooBarBaz1", "FooBar", "AB", "A1B2", "x@y", "",
    ] {
        match which_case(s) {
            NamingCase::SingleWord(t) => assert!(is_single_word(&t)),
            NamingCase::ScreamingSnake(t) => assert!(is_screaming_snake(&t)),
            NamingCase::Snake(t) => assert!(is_snake(&t)),
            NamingCase::Kebab(t) => assert!(is_kebab(&t)),
            NamingCase::Camel(t) => assert!(is_camel(&t)),
            NamingCase::Pascal(t) => assert!(is_pascal(&t)),
            NamingCase::Invalid(t) => {
                assert!(!is_single_word(&t));
                assert!(!is_screaming_snake(&t));
                assert!(!is_snake(&t));
                assert!(!is_kebab(&t));
                assert!(!is_camel(&t));
                assert!(!is_pascal(&t));
            }
        }
    }
}
