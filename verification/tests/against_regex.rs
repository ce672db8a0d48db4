use naming_lib::detector::{
    is_camel, is_kebab, is_pascal, is_screaming_snake, is_single_word, is_snake, which_case,
};
use naming_lib::naming_case::{extract_words_from, extract_words_from_pascal, NamingCase};
use regex::Regex;

const ALPHABET: [char; 10] = ['a', 'z', 'A', 'Z', '0', '9', '_', '-', '@', 'é'];

fn all_strings(max_len: usize) -> Vec<String> {
    let mut all = vec![String::new()];
    let mut last = vec![String::new()];
    for _ in 0..max_len {
        let mut next = Vec::new();
        for s in &last {
            for c in ALPHABET {
                let mut t = s.clone();
                t.push(c);
                next.push(t);
            }
        }
        all.extend(next.iter().cloned());
        last = next;
    }
    all
}

fn patterns() -> [Regex; 6] {
    [
        Regex::new(r"^(?:[a-z]+|[A-Z]+|[A-Z][a-z]+)\d*$").unwrap(),
        Regex::new(r"^[A-Z]+\d*(_[A-Z]+\d*)*$").unwrap(),
        Regex::new(r"^[a-z]+\d*(_[a-z]+\d*)*$").unwrap(),
        Regex::new(r"^[a-z]+\d*(-[a-z]+\d*)*$").unwrap(),
        Regex::new(r"^[a-z]+\d*([A-Z][a-z]*\d*)*$").unwrap(),
        Regex::new(r"^([A-Z][a-z]*\d*)+$").unwrap(),
    ]
}

fn classified_by_patterns(p: &[Regex; 6], s: &str) -> NamingCase {
    if p[0].is_match(s) {
        NamingCase::SingleWord(s.to_string())
    } else if p[1].is_match(s) {
        NamingCase::ScreamingSnake(s.to_string())
    } else if p[2].is_match(s) {
        NamingCase::Snake(s.to_string())
    } else if p[3].is_match(s) {
        NamingCase::Kebab(s.to_string())
    } else if p[4].is_match(s) {
        NamingCase::Camel(s.to_string())
    } else if p[5].is_match(s) {
        NamingCase::Pascal(s.to_string())
    } else {
        NamingCase::Invalid(s.to_string())
    }
}

fn capital_words_by_pattern(capital: &Regex, s: &str) -> Vec<String> {
    capital.find_iter(s).map(|m| m.as_str().to_string()).collect()
}

fn words_by_patterns(lower: &Regex, capital: &Regex, case: &NamingCase) -> Option<Vec<String>> {
    match case {
        NamingCase::SingleWord(s) => Some(vec![s.clone()]),
        NamingCase::ScreamingSnake(s) | NamingCase::Snake(s) => {
            Some(s.split('_').map(|w| w.to_string()).collect())
        }
        NamingCase::Kebab(s) => Some(s.split('-').map(|w| w.to_string()).collect()),
        NamingCase::Camel(s) => {
            let first = lower.find(s).unwrap().as_str().to_string();
            let mut words = vec![first.clone()];
            words.extend(capital_words_by_pattern(capital, s.strip_prefix(&first).unwrap()));
            Some(words)
        }
        NamingCase::Pascal(s) => Some(capital_words_by_pattern(capital, s)),
        NamingCase::Invalid(_) => None,
    }
}

fn capitalized(s: &str) -> String {
    let (first, other) = s.split_at(1);
    first.to_ascii_uppercase() + &other.to_ascii_lowercase()
}

#[test]
fn predicates_agree_with_the_patterns() {
    let p = patterns();
    for s in all_strings(4) {
        assert_eq!(is_single_word(&s), p[0].is_match(&s), "{:?}", s);
        assert_eq!(is_screaming_snake(&s), p[1].is_match(&s), "{:?}", s);
        assert_eq!(is_snake(&s), p[2].is_match(&s), "{:?}", s);
        assert_eq!(is_kebab(&s), p[3].is_match(&s), "{:?}", s);
        assert_eq!(is_camel(&s), p[4].is_match(&s), "{:?}", s);
        assert_eq!(is_pascal(&s), p[5].is_match(&s), "{:?}", s);
    }
}

#[test]
fn predicates_agree_with_the_patterns_on_longer_identifiers() {
    let p = patterns();
    let parts = ["foo", "Bar", "BAZ", "x1", "Y22", "_", "-", "9", "a", "B"];
    for a in parts {
        for b in parts {
            for c in parts {
                for d in parts {
                    let s = format!("{}{}{}{}", a, b, c, d);
                    assert_eq!(is_single_word(&s), p[0].is_match(&s), "{:?}", s);
                    assert_eq!(is_screaming_snake(&s), p[1].is_match(&s), "{:?}", s);
                    assert_eq!(is_snake(&s), p[2].is_match(&s), "{:?}", s);
                    assert_eq!(is_kebab(&s), p[3].is_match(&s), "{:?}", s);
                    assert_eq!(is_camel(&s), p[4].is_match(&s), "{:?}", s);
                    assert_eq!(is_pascal(&s), p[5].is_match(&s), "{:?}", s);
                }
            }
        }
    }
}

#[test]
fn which_case_agrees_with_the_patterns_in_order() {
    let p = patterns();
    for s in all_strings(4) {
        assert_eq!(which_case(&s), classified_by_patterns(&p, &s), "{:?}", s);
    }
}

#[test]
fn capital_words_agree_with_the_pattern() {
    let capital = Regex::new(r"[A-Z][a-z]*\d*").unwrap();
    for s in all_strings(4) {
        let expected = capital_words_by_pattern(&capital, &s);
        assert_eq!(extract_words_from_pascal(&s), expected, "{:?}", s);
    }
}

#[test]
fn words_agree_with_the_patterns() {
    let p = patterns();
    let lower = Regex::new(r"^[a-z]+\d*").unwrap();
    let capital = Regex::new(r"[A-Z][a-z]*\d*").unwrap();
    for s in all_strings(5) {
        let case = classified_by_patterns(&p, &s);
        let expected = words_by_patterns(&lower, &capital, &case);
        assert_eq!(extract_words_from(case).ok(), expected, "{:?}", s);
    }
}

#[test]
fn conversions_agree_with_the_patterns() {
    let p = patterns();
    let lower = Regex::new(r"^[a-z]+\d*").unwrap();
    let capital = Regex::new(r"[A-Z][a-z]*\d*").unwrap();
    let mut converted = 0;
    for s in all_strings(5) {
        let words = match words_by_patterns(&lower, &capital, &classified_by_patterns(&p, &s)) {
            Some(words) => words,
            None => {
                assert!(which_case(&s).to_snake().is_err());
                continue;
            }
        };
        let uppers: Vec<String> = words.iter().map(|w| w.to_ascii_uppercase()).collect();
        let lowers: Vec<String> = words.iter().map(|w| w.to_ascii_lowercase()).collect();
        let capitals: Vec<String> = words.iter().map(|w| capitalized(w)).collect();
        assert_eq!(which_case(&s).to_screaming_snake(), Ok(uppers.join("_")), "{:?}", s);
        assert_eq!(which_case(&s).to_snake(), Ok(lowers.join("_")), "{:?}", s);
        assert_eq!(which_case(&s).to_kebab(), Ok(lowers.join("-")), "{:?}", s);
        assert_eq!(
            which_case(&s).to_camel(),
            Ok(lowers[0].clone() + &capitals[1..].join("")),
            "{:?}",
            s
        );
        assert_eq!(which_case(&s).to_pascal(), Ok(capitals.join("")), "{:?}", s);
        converted += 1;
    }
    assert!(converted > 1000);
}
