use eyecite::regexes::{short_cite_re, ResolvedRegex};
use eyecite::tokenizers::extractors::{
    TokenExtractor, TokenExtractorExtra, _populate_reporter_extractors,
};
use eyecite::tokenizers::models::TokenFactories;
use eyecite::EyeciteError;

fn b(s: &str) -> Vec<u8> {
    s.as_bytes().to_vec()
}

#[test]
fn build_extractors() {
    assert_eq!(_populate_reporter_extractors().unwrap().is_empty(), false);
}

#[test]
fn short_form_rewrites_the_connective() {
    let derived = short_cite_re(&b("(?P<volume>\\d+) (?P<reporter>U\\.S\\.),? (?P<page>\\d+)"));
    assert_eq!(
        derived.value().as_slice(),
        b("(?P<volume>\\d+) (?P<reporter>U\\.S\\.),? at (?P<page>\\d+)").as_slice()
    );
    let no_comma = short_cite_re(&b("(?P<reporter>X) (?P<page>Y)"));
    assert_eq!(no_comma.value().as_slice(), b("(?P<reporter>X),? at (?P<page>Y)").as_slice());
    let twice = short_cite_re(&b("(?P<reporter>A),? (?P<page>B) and (?P<reporter>C) (?P<page>D)"));
    assert_eq!(
        twice.value().as_slice(),
        b("(?P<reporter>A),? at (?P<page>B) and (?P<reporter>C),? at (?P<page>D)").as_slice()
    );
    let unchanged = short_cite_re(&b("(?P<volume>\\d+) only"));
    assert_eq!(unchanged.value().as_slice(), b("(?P<volume>\\d+) only").as_slice());
}

#[test]
fn short_form_matches_at_citations_only() {
    let derived = short_cite_re(&b("(?P<reporter>U\\.S\\.),? (?P<page>\\d+)"));
    let pattern = String::from_utf8(derived.into_value()).unwrap();
    let re = regex::bytes::Regex::new(&pattern).unwrap();
    assert!(re.is_match(b"U.S., at 113"));
    assert!(re.is_match(b"U.S. at 113"));
    assert!(!re.is_match(b"U.S. 113"));
}

#[test]
fn invalid_pattern_is_a_regex_error() {
    let r = TokenExtractor::new(
        ResolvedRegex::of(b("(")),
        TokenFactories::Citation,
        false,
        vec![],
        TokenExtractorExtra::empty(),
    );
    match r {
        Err(EyeciteError::RegexError { message }) => assert!(!message.is_empty()),
        _ => panic!("an unclosed group must be reported as a regex error"),
    }
}

#[test]
fn short_derivatives_are_registered_and_flagged() {
    let extractors = _populate_reporter_extractors().unwrap();
    // Every edition generates a short-citation derivative; slots registered
    // as derivatives carry the short flag.
    assert!(extractors.iter().any(|e| e.extra.short));
    let with_at = extractors
        .iter()
        .filter(|e| {
            e.regex.value().windows(7).any(|w| w == b",? at (".as_slice())
        })
        .count();
    assert!(with_at > 0);
}

#[test]
fn fixed_extractors_close_the_registry() {
    let extractors = _populate_reporter_extractors().unwrap();
    let n = extractors.len();
    assert!(n >= 5);
    assert_eq!(extractors[n - 5].regex.value().as_slice(), eyecite::regexes::id_regex().as_slice());
    assert!(extractors[n - 5].ignore_case);
    assert_eq!(
        extractors[n - 4].regex.value().as_slice(),
        eyecite::regexes::supra_regex().as_slice()
    );
    assert_eq!(
        extractors[n - 3].regex.value().as_slice(),
        eyecite::regexes::paragraph_regex().as_slice()
    );
    assert_eq!(
        extractors[n - 2].regex.value().as_slice(),
        eyecite::regexes::stop_word_regex().as_slice()
    );
    let stop_word_strings = &extractors[n - 2].strings;
    for w in eyecite::regexes::stop_words() {
        assert!(stop_word_strings.contains(&w));
    }
    assert!(stop_word_strings.contains(&b("See")));
    assert!(stop_word_strings.contains(&b("SEE")));
    assert!(stop_word_strings.contains(&b("Denied")));
    assert!(extractors[n - 5].strings.contains(&b("Id.")));
    assert!(extractors[n - 4].strings.contains(&b("Supra")));
    assert_eq!(
        extractors[n - 1].regex.value().as_slice(),
        eyecite::regexes::section_regex().as_slice()
    );
    assert_eq!(extractors[n - 1].strings, vec![eyecite::regexes::section_symbol()]);
}

#[test]
fn case_sensitive_matches_contain_a_trigger_string() {
    let extractors = _populate_reporter_extractors().unwrap();
    let text = b("See Roe v. Wade, 410 U. S. 113 (1973), 5 U.S. 137, and 1 Cranch 137.");
    for e in &extractors {
        if e.ignore_case || e.strings.is_empty() {
            continue;
        }
        for m in e.get_matches(&text) {
            let hit = &text[m.start..m.end];
            let found = e.strings.iter().any(|s| {
                s.is_empty() || hit.windows(s.len()).any(|w| w == s.as_slice())
            });
            assert!(found, "a match must contain one of its extractor's trigger strings");
        }
    }
}

#[test]
fn boundary_wrapping_is_exact() {
    let wrapped = eyecite::regexes::nonalphanum_boundaries_re(&ResolvedRegex::of(b("abc")));
    assert_eq!(
        wrapped.value().as_slice(),
        b("(?:^|[^a-zA-Z0-9])(abc)(?:[^a-zA-Z0-9]|$)").as_slice()
    );
}
