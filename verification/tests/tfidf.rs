use topic_model::tfidf::count_terms;
use topic_model::vocabulary::build_vocabulary;

fn corpus_of(documents: &[&[&str]]) -> Vec<Vec<String>> {
    documents
        .iter()
        .map(|doc| doc.iter().map(|token| token.to_string()).collect())
        .collect()
}

fn idf(documents: usize, holders: usize) -> f64 {
    1.0 + ((documents as f64 + 1.0) / (holders as f64 + 1.0)).ln()
}

#[test]
fn counts_of_three_small_documents() {
    let corpus = corpus_of(&[&["cat", "dog"], &["dog", "dog", "fish"], &["cat", "fish"]]);
    let vocab = build_vocabulary(&corpus, 1);
    let counts = count_terms(&corpus, &vocab);
    assert_eq!(counts.counts, vec![vec![1, 1, 0], vec![0, 2, 1], vec![1, 0, 1]]);
    assert_eq!(counts.matched, vec![2, 3, 2]);
    assert_eq!(counts.doc_freq, vec![2, 2, 2]);
}

#[test]
fn every_token_of_the_small_corpus_has_the_same_idf() {
    let corpus = corpus_of(&[&["cat", "dog"], &["dog", "dog", "fish"], &["cat", "fish"]]);
    let vocab = build_vocabulary(&corpus, 1);
    let counts = count_terms(&corpus, &vocab);
    let documents = counts.matched.len();
    assert_eq!(documents, 3);
    for &holders in &counts.doc_freq {
        assert_eq!(holders, 2);
        let weight = idf(documents, holders);
        assert_eq!(weight, 1.0 + (4.0f64 / 3.0).ln());
        assert!((weight - 1.2877).abs() < 0.0001);
    }
}

#[test]
fn document_without_vocabulary_tokens_has_a_row_of_zeros() {
    let corpus = corpus_of(&[&["a", "b"], &["rare", "odd", "rare"], &["b", "a", "a"]]);
    let vocab = build_vocabulary(&corpus, 2);
    assert_eq!(vocab.len(), 2);
    let counts = count_terms(&corpus, &vocab);
    assert_eq!(counts.counts[1], vec![0, 0]);
    assert_eq!(counts.matched[1], 0);
    assert_eq!(counts.counts[0], vec![1, 1]);
    assert_eq!(counts.counts[2], vec![2, 1]);
    assert_eq!(counts.matched, vec![2, 0, 3]);
    assert_eq!(counts.doc_freq, vec![2, 2]);
}

#[test]
fn tokens_outside_the_vocabulary_are_not_counted() {
    let corpus = corpus_of(&[&["a", "x", "a", "y"], &["a", "z"]]);
    let vocab = build_vocabulary(&corpus, 2);
    let counts = count_terms(&corpus, &vocab);
    assert_eq!(counts.counts, vec![vec![2], vec![1]]);
    assert_eq!(counts.matched, vec![2, 1]);
    assert_eq!(counts.doc_freq, vec![2]);
}

#[test]
fn rows_sum_to_the_matched_count() {
    let corpus = corpus_of(&[
        &["b", "a", "c", "a"],
        &["d", "b", "e"],
        &[],
        &["e", "f", "a", "g", "b", "b"],
        &["c", "g"],
    ]);
    for min_df in 0..4 {
        let vocab = build_vocabulary(&corpus, min_df);
        let counts = count_terms(&corpus, &vocab);
        assert_eq!(counts.counts.len(), corpus.len());
        assert_eq!(counts.matched.len(), corpus.len());
        assert_eq!(counts.doc_freq.len(), vocab.len());
        for (d, row) in counts.counts.iter().enumerate() {
            assert_eq!(row.len(), vocab.len());
            assert_eq!(row.iter().sum::<usize>(), counts.matched[d]);
            let in_vocab = corpus[d].iter().filter(|t| vocab.contains(t.as_str())).count();
            assert_eq!(counts.matched[d], in_vocab);
        }
        for (t, &holders) in counts.doc_freq.iter().enumerate() {
            let column = counts.counts.iter().filter(|row| row[t] > 0).count();
            assert_eq!(holders, column);
            assert!(holders <= corpus.len());
            assert!(idf(corpus.len(), holders) >= 1.0);
        }
    }
}

#[test]
fn empty_vocabulary_gives_rows_without_columns() {
    let corpus = corpus_of(&[&["a"], &["b"]]);
    let vocab = build_vocabulary(&corpus, 2);
    let counts = count_terms(&corpus, &vocab);
    assert_eq!(counts.counts, vec![Vec::<usize>::new(), Vec::new()]);
    assert_eq!(counts.matched, vec![0, 0]);
    assert!(counts.doc_freq.is_empty());
}

#[test]
fn empty_corpus_gives_no_rows() {
    let corpus: Vec<Vec<String>> = Vec::new();
    let vocab = build_vocabulary(&corpus, 1);
    let counts = count_terms(&corpus, &vocab);
    assert!(counts.counts.is_empty());
    assert!(counts.matched.is_empty());
    assert!(counts.doc_freq.is_empty());
}

#[test]
fn counting_against_the_vocabulary_of_another_corpus() {
    let training = corpus_of(&[&["a", "b"], &["b", "c"]]);
    let vocab = build_vocabulary(&training, 1);
    let other = corpus_of(&[&["c", "c", "q"], &["q"]]);
    let counts = count_terms(&other, &vocab);
    assert_eq!(counts.counts, vec![vec![0, 0, 2], vec![0, 0, 0]]);
    assert_eq!(counts.matched, vec![2, 0]);
    assert_eq!(counts.doc_freq, vec![0, 0, 1]);
}

#[test]
fn counting_twice_gives_the_same_counts() {
    let corpus = corpus_of(&[&["cat", "dog"], &["dog", "dog", "fish"], &["cat", "fish"]]);
    let first = count_terms(&corpus, &build_vocabulary(&corpus, 1));
    let second = count_terms(&corpus, &build_vocabulary(&corpus, 1));
    assert_eq!(first.counts, second.counts);
    assert_eq!(first.matched, second.matched);
    assert_eq!(first.doc_freq, second.doc_freq);
}

fn weights(counts: &topic_model::tfidf::TermCounts) -> Vec<Vec<f32>> {
    let documents = counts.matched.len() as f32;
    counts
        .counts
        .iter()
        .enumerate()
        .map(|(d, row)| {
            row.iter()
                .enumerate()
                .map(|(t, &count)| {
                    if counts.matched[d] == 0 {
                        return 0.0;
                    }
                    let tf = count as f32 / counts.matched[d] as f32;
                    let idf = 1.0 + ((documents + 1.0) / (counts.doc_freq[t] as f32 + 1.0)).ln();
                    (tf * idf).max(0.0)
                })
                .collect()
        })
        .collect()
}

#[test]
fn weights_of_three_small_documents() {
    let corpus = corpus_of(&[&["cat", "dog"], &["dog", "dog", "fish"], &["cat", "fish"]]);
    let vocab = build_vocabulary(&corpus, 1);
    let v = weights(&count_terms(&corpus, &vocab));
    let idf = 1.0 + (4.0f32 / 3.0).ln();
    let expected = vec![
        vec![0.5 * idf, 0.5 * idf, 0.0],
        vec![0.0, 2.0 / 3.0 * idf, 1.0 / 3.0 * idf],
        vec![0.5 * idf, 0.0, 0.5 * idf],
    ];
    for (row, wanted) in v.iter().zip(expected.iter()) {
        for (x, y) in row.iter().zip(wanted.iter()) {
            assert!((x - y).abs() < 1e-6);
            assert!(*x >= 0.0);
        }
    }
    assert!((v[0][0] - 0.64384).abs() < 1e-4);
    assert!((v[1][1] - 0.85845).abs() < 1e-4);
}

#[test]
fn weights_of_a_document_outside_the_vocabulary_are_zero() {
    let corpus = corpus_of(&[&["a", "b"], &["rare", "odd"], &["b", "a"]]);
    let vocab = build_vocabulary(&corpus, 2);
    let v = weights(&count_terms(&corpus, &vocab));
    assert_eq!(v[1], vec![0.0, 0.0]);
    assert!(v.iter().flatten().all(|x| x.is_finite() && *x >= 0.0));
}
