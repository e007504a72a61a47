use topic_model::preprocessing::{
    normalize, preprocess_text, split_words, token_record, StopWords,
};

fn stop(words: &[&str]) -> StopWords {
    let mut stopwords = StopWords::new();
    for word in words {
        stopwords.insert(word.to_string());
    }
    stopwords
}

fn tokens(items: &[&str]) -> Vec<String> {
    items.iter().map(|item| item.to_string()).collect()
}

fn by_pattern(text: &str, stopwords: &[&str]) -> Vec<String> {
    let pattern = regex::Regex::new(r"[^a-zA-Z\s]").unwrap();
    let cleaned = pattern.replace_all(text, " ").to_lowercase();
    let words: Vec<String> = cleaned
        .split_whitespace()
        .map(|s| s.trim().to_string())
        .filter(|s| !s.is_empty() && !stopwords.contains(&s.as_str()))
        .collect();
    let mut stemmer = stemmer::Stemmer::new("english").unwrap();
    words.iter().map(|word| stemmer.stem(word).to_string()).collect()
}

#[test]
fn words_are_reduced_to_their_stems() {
    let found = preprocess_text("running cats quickly jumped", &StopWords::new());
    assert_eq!(found, tokens(&["run", "cat", "quick", "jump"]));
}

#[test]
fn letters_are_read_in_lower_case() {
    let found = preprocess_text("The CAT and the Dog", &StopWords::new());
    assert_eq!(found, tokens(&["the", "cat", "and", "the", "dog"]));
}

#[test]
fn stop_words_are_left_out() {
    let found = preprocess_text("The cat and the dog", &stop(&["the", "and"]));
    assert_eq!(found, tokens(&["cat", "dog"]));
}

#[test]
fn stop_words_are_compared_before_stemming() {
    let found = preprocess_text("running runs run", &stop(&["running"]));
    assert_eq!(found, tokens(&["run", "run"]));
    let found = preprocess_text("running runs run", &stop(&["run"]));
    assert_eq!(found, tokens(&["run", "run"]));
}

#[test]
fn what_is_no_letter_separates_words() {
    let found = preprocess_text("don't stop-me 2day, e.g. now!", &StopWords::new());
    assert_eq!(found, by_pattern("don't stop-me 2day, e.g. now!", &[]));
    assert_eq!(found, tokens(&["don", "t", "stop", "me", "day", "e", "g", "now"]));
}

#[test]
fn letters_outside_the_basic_alphabet_separate_words() {
    let found = preprocess_text("caf\u{e9} na\u{ef}ve \u{fc}ber", &StopWords::new());
    assert_eq!(found, tokens(&["caf", "na", "ve", "ber"]));
}

#[test]
fn every_kind_of_white_space_separates_words() {
    let text = "one\ttwo\nthree\r\nfour\u{a0}five\u{2003}six\u{3000}seven\u{85}eight";
    let found = preprocess_text(text, &StopWords::new());
    assert_eq!(found, by_pattern(text, &[]));
    assert_eq!(found.len(), 8);
}

#[test]
fn text_without_letters_has_no_tokens() {
    assert!(preprocess_text("", &StopWords::new()).is_empty());
    assert!(preprocess_text("   \n\t ", &StopWords::new()).is_empty());
    assert!(preprocess_text("1234 --- 5.6 (!)", &StopWords::new()).is_empty());
    assert!(preprocess_text("the the the", &stop(&["the"])).is_empty());
}

#[test]
fn tokens_are_those_of_the_pattern() {
    let stopwords = ["the", "a", "of", "and", "is", "in", "it", "to"];
    let samples = [
        "Topic models extract latent topics from a corpus of plain-text documents.",
        "It's 2024: the year of the \u{201c}verified\u{201d} tokenizer, isn't it?",
        "  leading and trailing   spaces  ",
        "MiXeD CaSe WoRdS and UPPER and lower",
        "tabs\tand\nnewlines\r\nand\u{a0}no-break\u{2009}thin spaces",
        "\u{130}stanbul \u{df} stra\u{df}e \u{3a3}\u{3af}\u{3c3}\u{3c5}\u{3c6}\u{3bf}\u{3c2} Kelvin \u{212a}",
        "snake_case camelCase kebab-case dot.case",
        "consistency consistently consisting consists relational relating relativity",
        "a",
        "Z",
        "\u{0}nul\u{0}inside",
    ];
    for text in samples {
        assert_eq!(preprocess_text(text, &stop(&stopwords)), by_pattern(text, &stopwords), "{:?}", text);
        assert_eq!(preprocess_text(text, &StopWords::new()), by_pattern(text, &[]), "{:?}", text);
    }
}

#[test]
fn characters_are_normalized_as_the_pattern_has_them() {
    for code in 0..=0x10FFFFu32 {
        if let Some(c) = char::from_u32(code) {
            let expected = if c.is_ascii_alphabetic() {
                c.to_ascii_lowercase()
            } else if c.is_whitespace() {
                c
            } else {
                ' '
            };
            assert_eq!(normalize(c), expected, "U+{:04X}", code);
        }
    }
}

#[test]
fn normalized_characters_keep_their_lower_case() {
    for code in 0..0x3100u32 {
        if let Some(c) = char::from_u32(code) {
            let n = normalize(c);
            assert_eq!(n.to_lowercase().collect::<String>(), n.to_string());
            assert_eq!(normalize(n), n);
        }
    }
}

#[test]
fn stop_words_are_a_set() {
    let mut stopwords = StopWords::new();
    assert!(!stopwords.contains("the"));
    stopwords.insert("the".to_string());
    stopwords.insert("the".to_string());
    stopwords.insert("".to_string());
    assert!(stopwords.contains("the"));
    assert!(stopwords.contains(""));
    assert!(!stopwords.contains("The"));
    assert!(!stopwords.contains("th"));
}

#[test]
fn record_of_a_text() {
    let record = token_record("The cats are running.", &stop(&["the", "are"]));
    assert_eq!(record, Ok(r#"["cat","run"]"#.to_string()));
    assert_eq!(token_record("...", &StopWords::new()), Ok("[]".to_string()));
}

#[test]
fn words_before_stemming() {
    let found = split_words("Running CATS, quickly!", &StopWords::new());
    assert_eq!(found, tokens(&["running", "cats", "quickly"]));
    let found = split_words("Running CATS, quickly!", &stop(&["cats"]));
    assert_eq!(found, tokens(&["running", "quickly"]));
    assert!(split_words("", &StopWords::new()).is_empty());
    assert!(split_words(" \t 42 ", &StopWords::new()).is_empty());
}

#[test]
fn words_hold_lower_case_letters_only() {
    let text = "Mixed UP, d1g1ts & s\u{fc}mbols\u{a0}everywhere\u{0}!";
    let found = split_words(text, &StopWords::new());
    assert_eq!(found, tokens(&["mixed", "up", "d", "g", "ts", "s", "mbols", "everywhere"]));
    for word in &found {
        assert!(!word.is_empty());
        assert!(word.chars().all(|c| c.is_ascii_lowercase()));
    }
}

#[test]
fn words_are_those_of_the_standard_split() {
    let samples = ["a  b\tc\nd", "  x ", "one", "\u{2003}wide\u{3000}spaces\u{2028}here ", ""];
    for text in samples {
        let expected: Vec<String> = text.split_whitespace().map(|w| w.to_string()).collect();
        assert_eq!(split_words(text, &StopWords::new()), expected);
    }
}
