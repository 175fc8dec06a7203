use eyecite::tokenizers::extractors::{Edition, TokenExtractorExtra, _populate_reporter_extractors};
use eyecite::tokenizers::models::{Token, TokenData};
use eyecite::tokenizers::{Ahocorasick, Tokenizer};

fn b(s: &str) -> Vec<u8> {
    s.as_bytes().to_vec()
}

fn build_tokenizer() -> Ahocorasick {
    Ahocorasick::new(_populate_reporter_extractors().unwrap()).unwrap()
}

#[test]
fn tokenize() {
    let tokenizer = build_tokenizer();

    let (all_tokens, tokens) = tokenizer.tokenize(&b("See Roe v. Wade, 410 U. S. 113 (1973)"));

    let stop_word_extra = TokenExtractorExtra {
        exact_editions: vec![],
        variation_editions: vec![],
        short: false,
    };

    // The U.S. edition of the bundled dataset carries two custom templates.
    let us_edition_templates = vec![
        b("$full_cite"),
        b("$volume $reporter\\s*\\((?:(?P<volume_nominative>\\d{1,2}) )?(?P<reporter_nominative>Black|Cranch|Pet.|Wall.|How.|Wheat.|Dall.)\\) $page"),
    ];
    let edition_extra = TokenExtractorExtra {
        exact_editions: vec![],
        variation_editions: vec![Edition {
            end: None,
            start: Some(b("1875-01-01T00:00:00")),
            regexes: Some(us_edition_templates),
        }],
        short: false,
    };

    let see_token = Token::StopWord(TokenData {
        data: b("See"),
        start: 0,
        end: 3,
        extra: stop_word_extra.clone(),
        groups: vec![(b("stop_word"), b("See"))],
    });

    let v_token = Token::StopWord(TokenData {
        data: b("v."),
        start: 8,
        end: 10,
        extra: stop_word_extra,
        groups: vec![(b("stop_word"), b("v"))],
    });

    let us_citation = Token::Citation(TokenData {
        data: b("410 U. S. 113"),
        start: 17,
        end: 30,
        extra: edition_extra,
        groups: vec![
            (b("volume"), b("410")),
            (b("reporter"), b("U. S.")),
            (b("page"), b("113")),
        ],
    });

    let expected_tokens = vec![
        see_token.clone(),
        Token::Space,
        Token::Word(b("Roe")),
        Token::Space,
        v_token.clone(),
        Token::Space,
        Token::Word(b("Wade,")),
        Token::Space,
        us_citation.clone(),
        Token::Space,
        Token::Word(b("(1973)")),
    ];

    assert_eq!(all_tokens, expected_tokens);
    assert_eq!(tokens, vec![(0, see_token), (4, v_token), (8, us_citation)]);
}

fn token_bytes(t: &Token) -> Vec<u8> {
    match t {
        Token::Word(w) => w.clone(),
        Token::Space => b(" "),
        Token::Citation(d) => d.data.clone(),
        Token::Section(d) => d.data.clone(),
        Token::Supra(d) => d.data.clone(),
        Token::Id(d) => d.data.clone(),
        Token::Paragraph(d) => d.data.clone(),
        Token::StopWord(d) => d.data.clone(),
    }
}

fn token_span(t: &Token) -> Option<(usize, usize)> {
    match t {
        Token::Word(_) | Token::Space => None,
        Token::Citation(d) => Some((d.start, d.end)),
        Token::Section(d) => Some((d.start, d.end)),
        Token::Supra(d) => Some((d.start, d.end)),
        Token::Id(d) => Some((d.start, d.end)),
        Token::Paragraph(d) => Some((d.start, d.end)),
        Token::StopWord(d) => Some((d.start, d.end)),
    }
}

#[test]
fn coverage_reconstructs_the_text() {
    let tokenizer = build_tokenizer();
    let text = b("See Roe v. Wade, 410 U. S. 113 (1973), and id. at 120.");
    let (all_tokens, _tokens) = tokenizer.tokenize(&text);
    let mut rebuilt: Vec<u8> = Vec::new();
    for t in &all_tokens {
        rebuilt.extend(token_bytes(t));
    }
    assert_eq!(rebuilt, text);
}

#[test]
fn citation_tokens_do_not_overlap() {
    let tokenizer = build_tokenizer();
    let text = b("See Roe v. Wade, 410 U. S. 113 (1973), aff'd, 410 U. S. 959 (1973).");
    let (all_tokens, tokens) = tokenizer.tokenize(&text);
    let mut last_end = 0usize;
    for t in &all_tokens {
        if let Some((start, end)) = token_span(t) {
            assert!(last_end <= start);
            assert!(start <= end);
            assert!(end <= text.len());
            assert_eq!(&text[start..end], token_bytes(t).as_slice());
            last_end = end;
        }
    }
    assert!(tokens.len() >= 2);
}

#[test]
fn tokenize_is_deterministic() {
    let tokenizer = build_tokenizer();
    let text = b("See Roe v. Wade, 410 U. S. 113 (1973)");
    let first = tokenizer.tokenize(&text);
    let second = tokenizer.tokenize(&text);
    assert_eq!(first, second);
}

#[test]
fn empty_input_gives_empty_streams() {
    let tokenizer = build_tokenizer();
    let (all_tokens, tokens) = tokenizer.tokenize(&b(""));
    assert!(all_tokens.is_empty());
    assert!(tokens.is_empty());
}

#[test]
fn embedded_abbreviation_is_not_a_token() {
    let tokenizer = build_tokenizer();
    let (all_tokens, tokens) = tokenizer.tokenize(&b("xxx410 U. S. 113yyy vested"));
    assert!(tokens.is_empty());
    for t in &all_tokens {
        assert!(matches!(t, Token::Word(_) | Token::Space));
    }
}

#[test]
fn id_supra_and_section_tokens_are_recognized() {
    let tokenizer = build_tokenizer();
    let (all_tokens, tokens) = tokenizer.tokenize(&b("id. then supra, then 18 U.S.C. \u{00a7} 512"));
    assert!(tokens.iter().any(|(_, t)| matches!(t, Token::Id(d) if d.data == b("id."))));
    assert!(
        tokens.iter().any(|(_, t)| matches!(t, Token::Supra(d) if d.data == b("supra,")))
    );
    assert!(
        tokens.iter().any(|(_, t)| matches!(t, Token::Section(d) if d.data == b("\u{00a7}")))
    );
    let mut rebuilt: Vec<u8> = Vec::new();
    for t in &all_tokens {
        rebuilt.extend(token_bytes(t));
    }
    assert_eq!(rebuilt, b("id. then supra, then 18 U.S.C. \u{00a7} 512"));
}

#[test]
fn capitalized_stop_word_is_surfaced() {
    let tokenizer = build_tokenizer();
    let (_all_tokens, tokens) = tokenizer.tokenize(&b("Denied."));
    assert!(tokens.iter().any(|(_, t)| matches!(t, Token::StopWord(d) if d.data == b("Denied."))));
}

#[test]
fn get_citations_yields_no_records_yet() {
    let tokenizer = build_tokenizer();
    let citations = eyecite::find::get_citations(
        &b("See Roe v. Wade, 410 U. S. 113 (1973)"),
        false,
        &tokenizer,
    );
    assert!(citations.is_empty());
}
