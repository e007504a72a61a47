use topic_model::documents::{encode_document, parse_documents};
use topic_model::error::ModelError;
use topic_model::modeling::{prepare, start, start_with, Settings};
use topic_model::nmf::Verdict;

fn texts(items: &[&str]) -> Vec<String> {
    items.iter().map(|item| item.to_string()).collect()
}

#[test]
fn records_are_read_in_their_order() {
    let records = texts(&[r#"["cat","dog"]"#, "[]", r#" [ "fish" , "fish" ] "#]);
    let documents = parse_documents(&records).unwrap();
    assert_eq!(documents, vec![texts(&["cat", "dog"]), texts(&[]), texts(&["fish", "fish"])]);
}

#[test]
fn no_records_give_no_documents() {
    assert_eq!(parse_documents(&Vec::new()), Ok(Vec::new()));
}

#[test]
fn strings_are_read_as_json_has_them() {
    let records = texts(&[r#"["a\"b","été","tab\there",""]"#]);
    let documents = parse_documents(&records).unwrap();
    assert_eq!(documents, vec![texts(&["a\"b", "\u{e9}t\u{e9}", "tab\there", ""])]);
}

#[test]
fn record_that_holds_numbers_is_rejected() {
    let records = texts(&[r#"["cat"]"#, "[1, 2]", r#"["dog"]"#]);
    assert_eq!(parse_documents(&records), Err(ModelError::MalformedDocument { index: 1 }));
}

#[test]
fn first_unreadable_record_is_reported() {
    let records = texts(&[r#"["cat"]"#, r#"["dog""#, "nothing", r#"["fish"]"#]);
    assert_eq!(parse_documents(&records), Err(ModelError::MalformedDocument { index: 1 }));
    let records = texts(&["", r#"["dog"]"#]);
    assert_eq!(parse_documents(&records), Err(ModelError::MalformedDocument { index: 0 }));
}

#[test]
fn what_is_no_list_of_strings_is_rejected() {
    for bad in [
        r#""cat""#,
        r#"{"tokens":["cat"]}"#,
        r#"["cat", null]"#,
        r#"["cat"] ["dog"]"#,
        r#"["cat",]"#,
        r#"[["cat"]]"#,
        "null",
        "[cat]",
    ] {
        let records = texts(&[r#"["ok"]"#, r#"["ok"]"#, bad]);
        assert_eq!(
            parse_documents(&records),
            Err(ModelError::MalformedDocument { index: 2 }),
            "{}",
            bad
        );
    }
}

#[test]
fn tokens_are_written_as_a_json_array() {
    assert_eq!(encode_document(&texts(&["cat", "dog"])), Ok(r#"["cat","dog"]"#.to_string()));
    assert_eq!(encode_document(&texts(&[])), Ok("[]".to_string()));
    assert_eq!(encode_document(&texts(&["a\"b", "x\ny"])), Ok(r#"["a\"b","x\ny"]"#.to_string()));
}

#[test]
fn what_is_written_is_read_back() {
    let documents = vec![
        texts(&["cat", "dog"]),
        texts(&[]),
        texts(&["", " ", "a\"b\\c", "\u{e9}t\u{e9}", "line\nbreak", "[\"x\"]"]),
    ];
    let records: Vec<String> = documents.iter().map(|d| encode_document(d).unwrap()).collect();
    assert_eq!(parse_documents(&records), Ok(documents));
}

#[test]
fn default_settings() {
    let settings = Settings::default();
    assert_eq!(settings, Settings { min_df: 3, topics: 5, max_iter: 200, top_terms: 10, seed: None });
}

#[test]
fn problem_of_a_small_corpus() {
    let documents = vec![texts(&["cat", "dog"]), texts(&["dog", "dog", "fish"]), texts(&["cat", "fish"])];
    let settings = Settings { min_df: 2, topics: 2, max_iter: 7, top_terms: 3, seed: Some(17) };
    let problem = prepare(&documents, settings).unwrap();
    assert_eq!(problem.settings, settings);
    assert_eq!(problem.vocabulary.tokens(), &texts(&["cat", "dog", "fish"]));
    assert_eq!(problem.counts.counts, vec![vec![1, 1, 0], vec![0, 2, 1], vec![1, 0, 1]]);
    assert_eq!(problem.counts.matched, vec![2, 3, 2]);
    assert_eq!(problem.counts.doc_freq, vec![2, 2, 2]);
    assert_eq!(problem.schedule.max_iter(), 7);
    assert_eq!(problem.schedule.iterations(), 0);
    assert_eq!(problem.schedule.verdict(), Verdict::Continue);
}

#[test]
fn asking_for_no_topic_is_an_error() {
    let documents = vec![texts(&["cat"])];
    let settings = Settings { min_df: 1, topics: 0, max_iter: 10, top_terms: 10, seed: None };
    assert!(matches!(prepare(&documents, settings), Err(ModelError::NoTopics)));
    let records = texts(&[r#"["cat"]"#]);
    assert!(matches!(start_with(&records, settings), Err(ModelError::NoTopics)));
}

#[test]
fn unreadable_record_is_reported_before_the_settings() {
    let settings = Settings { min_df: 1, topics: 0, max_iter: 10, top_terms: 10, seed: None };
    let records = texts(&[r#"["cat"]"#, "{}"]);
    assert!(matches!(
        start_with(&records, settings),
        Err(ModelError::MalformedDocument { index: 1 })
    ));
    assert!(matches!(start(&records), Err(ModelError::MalformedDocument { index: 1 })));
}

#[test]
fn empty_corpus_is_no_error() {
    let problem = start(&Vec::new()).unwrap();
    assert_eq!(problem.vocabulary.len(), 0);
    assert!(problem.counts.counts.is_empty());
    assert!(problem.counts.matched.is_empty());
    assert!(problem.counts.doc_freq.is_empty());
    assert_eq!(problem.settings, Settings::default());
}

#[test]
fn corpus_without_frequent_tokens_is_no_error() {
    let records = texts(&[r#"["a","b"]"#, r#"["c"]"#]);
    let problem = start(&records).unwrap();
    assert_eq!(problem.vocabulary.len(), 0);
    assert_eq!(problem.counts.counts, vec![Vec::<usize>::new(), Vec::new()]);
    assert_eq!(problem.counts.matched, vec![0, 0]);
}

#[test]
fn start_uses_the_default_settings() {
    let records = texts(&[
        r#"["sun","moon","sun"]"#,
        r#"["moon","star"]"#,
        r#"["sun","moon"]"#,
        r#"["sun","sky"]"#,
    ]);
    let problem = start(&records).unwrap();
    assert_eq!(problem.settings, Settings::default());
    assert_eq!(problem.vocabulary.tokens(), &texts(&["sun", "moon"]));
    assert_eq!(problem.counts.counts, vec![vec![2, 1], vec![0, 1], vec![1, 1], vec![1, 0]]);
    assert_eq!(problem.counts.matched, vec![3, 1, 2, 1]);
    assert_eq!(problem.counts.doc_freq, vec![3, 3]);
    assert_eq!(problem.schedule.max_iter(), 200);
    assert!(problem.schedule.is_running());
}

#[test]
fn budget_of_zero_is_no_error() {
    let settings = Settings { min_df: 1, topics: 3, max_iter: 0, top_terms: 10, seed: None };
    let problem = start_with(&texts(&[r#"["a"]"#]), settings).unwrap();
    assert!(!problem.schedule.is_running());
    assert_eq!(problem.schedule.verdict(), Verdict::Exhausted);
}

#[test]
fn starting_twice_gives_the_same_problem() {
    let records = texts(&[r#"["b","a","b"]"#, r#"["a","c","b"]"#, r#"["c","a"]"#, r#"["b"]"#]);
    let first = start(&records).unwrap();
    let second = start(&records).unwrap();
    assert_eq!(first.vocabulary.tokens(), second.vocabulary.tokens());
    assert_eq!(first.counts.counts, second.counts.counts);
    assert_eq!(first.counts.matched, second.counts.matched);
    assert_eq!(first.counts.doc_freq, second.counts.doc_freq);
}
