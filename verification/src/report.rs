//! The report of a factorization: for each topic a label with its heaviest
//! terms, and the table of the documents' topic weights.
//!
//! Weights come here as ranks: unsigned integers that stand in the order of
//! the weights they stand for. For non-negative IEEE 754 numbers the bit
//! pattern is such an integer. A threshold is given as the rank of the
//! threshold weight.

use crate::corpus::Token;
use crate::text::{decimal, decimal_string, trim_end, trimmed_end};
use crate::vocabulary::Vocabulary;
use vstd::prelude::*;
use vstd::slice::slice_subrange;
use vstd::string::StringExecFns;

verus! {

/// Term `i` stands before term `j`: it is heavier, or as heavy and of the
/// smaller index.
pub open spec fn outranks(ranks: Seq<u32>, i: int, j: int) -> bool {
    ranks[i] > ranks[j] || (ranks[i] == ranks[j] && i < j)
}

/// Term `i` exists and is heavier than the threshold.
pub open spec fn qualifies(ranks: Seq<u32>, threshold: u32, i: int) -> bool {
    0 <= i < ranks.len() && ranks[i] > threshold
}

/// `top` lists the heaviest terms: at most `limit` of them, each heavier than
/// `threshold`, the heaviest first, and no term that it leaves out could
/// stand in it.
pub open spec fn is_top_selection(
    ranks: Seq<u32>,
    limit: nat,
    threshold: u32,
    top: Seq<usize>,
) -> bool {
    &&& top.len() <= limit
    &&& forall|p: int| 0 <= p < top.len() ==> qualifies(ranks, threshold, #[trigger] top[p] as int)
    &&& forall|p: int, q: int|
        0 <= p < q < top.len() ==> outranks(
            ranks,
            #[trigger] top[p] as int,
            #[trigger] top[q] as int,
        )
    &&& forall|i: int| #[trigger]
        qualifies(ranks, threshold, i) && !top.contains(i as usize) ==> top.len() == limit
    &&& forall|i: int, p: int|
        #[trigger] qualifies(ranks, threshold, i) && !top.contains(i as usize) && 0 <= p
            < top.len() ==> outranks(ranks, #[trigger] top[p] as int, i)
}

/// The list of the heaviest terms. There is one and only one: see
/// [`lemma_top_selection_unique`] and [`top_terms`].
pub open spec fn top_selection(ranks: Seq<u32>, limit: nat, threshold: u32) -> Seq<usize> {
    choose|top: Seq<usize>| is_top_selection(ranks, limit, threshold, top)
}

/// The tokens with the given indices.
pub open spec fn terms_at(vocab: Seq<Token>, top: Seq<usize>) -> Seq<Token> {
    Seq::new(top.len(), |p: int| vocab[top[p] as int])
}

/// The terms one after the other, each followed by a space.
pub open spec fn spaced(terms: Seq<Token>) -> Seq<char>
    decreases terms.len(),
{
    if terms.len() == 0 {
        Seq::empty()
    } else {
        spaced(terms.drop_last()) + terms.last() + seq![' ']
    }
}

/// The label of a topic: `Topic`, the topic's number and a colon, then the
/// terms, separated by spaces; no white space at the end.
pub open spec fn label_text(topic: nat, terms: Seq<Token>) -> Seq<char> {
    trimmed_end("Topic "@ + decimal(topic) + ": "@ + spaced(terms))
}

/// The label of topic `topic` with term ranks `row`: its terms are the
/// heaviest of the row. Where the row and the vocabulary differ in length,
/// what either has beyond the other is left aside.
pub open spec fn topic_report(
    row: Seq<u32>,
    vocab: Seq<Token>,
    topic: nat,
    limit: nat,
    threshold: u32,
) -> Seq<char> {
    let width = if row.len() <= vocab.len() {
        row.len()
    } else {
        vocab.len()
    };
    label_text(topic, terms_at(vocab, top_selection(row.take(width as int), limit, threshold)))
}

/// The head of the table of topic weights: `Document`, then `Topic0`,
/// `Topic1` and so on, one for each topic.
pub open spec fn header_text(topics: nat) -> Seq<Seq<char>> {
    seq!["Document"@] + Seq::new(topics, |i: int| "Topic"@ + decimal(i as nat))
}

/// The labels in one line, with ` | ` between one label and the next.
pub open spec fn joined_labels(labels: Seq<Seq<char>>) -> Seq<char>
    decreases labels.len(),
{
    if labels.len() == 0 {
        Seq::empty()
    } else if labels.len() == 1 {
        labels[0]
    } else {
        joined_labels(labels.drop_last()) + " | "@ + labels.last()
    }
}

/// Two lists of the heaviest terms of the same ranks, under the same limit
/// and threshold, are one list.
pub proof fn lemma_top_selection_unique(
    ranks: Seq<u32>,
    limit: nat,
    threshold: u32,
    a: Seq<usize>,
    b: Seq<usize>,
)
    requires
        is_top_selection(ranks, limit, threshold, a),
        is_top_selection(ranks, limit, threshold, b),
    ensures
        a == b,
{
    let shorter = if a.len() <= b.len() {
        a.len()
    } else {
        b.len()
    };
    lemma_selections_agree(ranks, limit, threshold, a, b, shorter);
    if a.len() <= b.len() {
        lemma_selection_is_full(ranks, limit, threshold, a, b);
    } else {
        lemma_selection_is_full(ranks, limit, threshold, b, a);
    }
    assert(a =~= b);
}

/// Two lists of the heaviest terms hold the same terms at their first `n`
/// places.
proof fn lemma_selections_agree(
    ranks: Seq<u32>,
    limit: nat,
    threshold: u32,
    a: Seq<usize>,
    b: Seq<usize>,
    n: nat,
)
    requires
        is_top_selection(ranks, limit, threshold, a),
        is_top_selection(ranks, limit, threshold, b),
        n <= a.len(),
        n <= b.len(),
    ensures
        forall|p: int| 0 <= p < n ==> a[p] == b[p],
    decreases n,
{
    if n > 0 {
        let p = n - 1;
        lemma_selections_agree(ranks, limit, threshold, a, b, p as nat);
        lemma_no_earlier_term(ranks, limit, threshold, a, b, p);
        lemma_no_earlier_term(ranks, limit, threshold, b, a, p);
        assert(qualifies(ranks, threshold, a[p] as int));
        assert(qualifies(ranks, threshold, b[p] as int));
    }
}

/// Where two lists of the heaviest terms agree before place `p`, the first
/// does not hold there a term that stands before the term of the second.
proof fn lemma_no_earlier_term(
    ranks: Seq<u32>,
    limit: nat,
    threshold: u32,
    a: Seq<usize>,
    b: Seq<usize>,
    p: int,
)
    requires
        is_top_selection(ranks, limit, threshold, a),
        is_top_selection(ranks, limit, threshold, b),
        0 <= p < a.len(),
        p < b.len(),
        forall|q: int| 0 <= q < p ==> a[q] == b[q],
    ensures
        !outranks(ranks, a[p] as int, b[p] as int),
{
    let x = a[p];
    assert(qualifies(ranks, threshold, x as int));
    if outranks(ranks, a[p] as int, b[p] as int) {
        if b.contains(x) {
            let q = choose|q: int| 0 <= q < b.len() && b[q] == x;
            if q < p {
                assert(outranks(ranks, a[q] as int, a[p] as int));
            } else if q > p {
                assert(outranks(ranks, b[p] as int, b[q] as int));
            }
        } else {
            assert(outranks(ranks, b[p] as int, x as int));
        }
    }
}

/// Of two lists of the heaviest terms that agree as far as the first goes,
/// the first is not the shorter.
proof fn lemma_selection_is_full(
    ranks: Seq<u32>,
    limit: nat,
    threshold: u32,
    a: Seq<usize>,
    b: Seq<usize>,
)
    requires
        is_top_selection(ranks, limit, threshold, a),
        is_top_selection(ranks, limit, threshold, b),
        a.len() <= b.len(),
        forall|p: int| 0 <= p < a.len() ==> a[p] == b[p],
    ensures
        a.len() == b.len(),
{
    if a.len() < b.len() {
        let n = a.len() as int;
        let x = b[n];
        assert(qualifies(ranks, threshold, x as int));
        if a.contains(x) {
            let q = choose|q: int| 0 <= q < a.len() && a[q] == x;
            assert(outranks(ranks, b[q] as int, b[n] as int));
        }
    }
}

/// Whether term `i` stands before term `j`.
fn stands_before(ranks: &[u32], i: usize, j: usize) -> (b: bool)
    requires
        i < ranks@.len(),
        j < ranks@.len(),
    ensures
        b == outranks(ranks@, i as int, j as int),
{
    ranks[i] > ranks[j] || (ranks[i] == ranks[j] && i < j)
}

/// The heaviest terms of `ranks`: the terms heavier than `threshold`, the
/// heaviest first, and at most `limit` of them. Of two terms of one weight
/// the one with the smaller index stands first.
pub fn top_terms(ranks: &[u32], limit: usize, threshold: u32) -> (top: Vec<usize>)
    ensures
        is_top_selection(ranks@, limit as nat, threshold, top@),
        top@ == top_selection(ranks@, limit as nat, threshold),
{
    let n = ranks.len();
    let mut top: Vec<usize> = Vec::new();
    let mut complete: bool = false;
    while top.len() < limit && !complete
        invariant
            n == ranks@.len(),
            top@.len() <= limit,
            forall|p: int|
                0 <= p < top@.len() ==> qualifies(ranks@, threshold, #[trigger] top@[p] as int),
            forall|p: int, q: int|
                0 <= p < q < top@.len() ==> outranks(
                    ranks@,
                    #[trigger] top@[p] as int,
                    #[trigger] top@[q] as int,
                ),
            forall|i: int, p: int|
                #[trigger] qualifies(ranks@, threshold, i) && !top@.contains(i as usize) && 0 <= p
                    < top@.len() ==> outranks(ranks@, #[trigger] top@[p] as int, i),
            complete ==> forall|i: int| #[trigger]
                qualifies(ranks@, threshold, i) ==> top@.contains(i as usize),
        decreases
                limit - top@.len() + if complete {
                    0int
                } else {
                    1int
                },
    {
        let taken = top.len();
        let mut best: usize = n;
        let mut i: usize = 0;
        while i < n
            invariant
                i <= n,
                n == ranks@.len(),
                taken == top@.len(),
                best <= n,
                forall|p: int|
                    0 <= p < top@.len() ==> qualifies(ranks@, threshold, #[trigger] top@[p] as int),
                best < n ==> best < i && qualifies(ranks@, threshold, best as int)
                    && !top@.contains(best),
                forall|k: int|
                    0 <= k < i && #[trigger] qualifies(ranks@, threshold, k) && !top@.contains(
                        k as usize,
                    ) ==> best < n && (k == best || outranks(ranks@, best as int, k)),
                forall|p: int, q: int|
                    0 <= p < q < top@.len() ==> outranks(
                        ranks@,
                        #[trigger] top@[p] as int,
                        #[trigger] top@[q] as int,
                    ),
                forall|k: int, p: int|
                    #[trigger] qualifies(ranks@, threshold, k) && !top@.contains(k as usize) && 0
                        <= p < top@.len() ==> outranks(ranks@, #[trigger] top@[p] as int, k),
            decreases n - i,
        {
            if ranks[i] > threshold {
                let open = taken == 0 || stands_before(ranks, top[taken - 1], i);
                if open && (best == n || stands_before(ranks, i, best)) {
                    best = i;
                }
            }
            i += 1;
        }
        if best == n {
            complete = true;
        } else {
            let ghost before = top@;
            top.push(best);
            proof {
                assert forall|k: usize| top@.contains(k) <==> before.contains(k) || k == best by {
                    if before.contains(k) {
                        let p = choose|p: int| 0 <= p < before.len() && before[p] == k;
                        assert(top@[p] == k);
                    }
                    if k == best {
                        assert(top@[before.len() as int] == k);
                    }
                }
            }
        }
    }
    proof {
        let chosen = top_selection(ranks@, limit as nat, threshold);
        lemma_top_selection_unique(ranks@, limit as nat, threshold, top@, chosen);
    }
    top
}

/// The label of topic `topic` with the given terms.
pub fn topic_label(topic: usize, terms: &Vec<String>) -> (label: String)
    ensures
        label@ == label_text(topic as nat, terms.deep_view()),
{
    let ghost words = terms.deep_view();
    let mut line = String::from_str("Topic ");
    let number = decimal_string(topic);
    line.append(number.as_str());
    line.append(": ");
    let ghost head = line@;
    let mut p: usize = 0;
    while p < terms.len()
        invariant
            p <= terms.len(),
            words == terms.deep_view(),
            line@ == head + spaced(words.take(p as int)),
        decreases terms.len() - p,
    {
        proof {
            reveal_strlit(" ");
            assert(words.take(p as int + 1).drop_last() =~= words.take(p as int));
        }
        line.append(terms[p].as_str());
        line.append(" ");
        p += 1;
    }
    proof {
        assert(words.take(p as int) =~= words);
    }
    trim_end(line.as_str())
}

/// The labels of the topics whose term ranks are the rows of `ranks`: for
/// each row the label of its at most `limit` heaviest terms heavier than
/// `threshold`. The label of row `i` names topic `i`.
pub fn print_topics(
    ranks: &Vec<Vec<u32>>,
    vocab: &Vocabulary,
    limit: usize,
    threshold: u32,
) -> (labels: Vec<String>)
    ensures
        labels@.len() == ranks@.len(),
        forall|i: int|
            0 <= i < ranks@.len() ==> (#[trigger] labels@[i])@ == topic_report(
                ranks@[i]@,
                vocab@,
                i as nat,
                limit as nat,
                threshold,
            ),
{
    let mut labels: Vec<String> = Vec::new();
    let mut i: usize = 0;
    while i < ranks.len()
        invariant
            i <= ranks.len(),
            labels@.len() == i,
            forall|k: int|
                0 <= k < i ==> (#[trigger] labels@[k])@ == topic_report(
                    ranks@[k]@,
                    vocab@,
                    k as nat,
                    limit as nat,
                    threshold,
                ),
        decreases ranks.len() - i,
    {
        let row = &ranks[i];
        let width = if row.len() <= vocab.len() {
            row.len()
        } else {
            vocab.len()
        };
        let top = top_terms(slice_subrange(row.as_slice(), 0, width), limit, threshold);
        let mut terms: Vec<String> = Vec::new();
        let mut p: usize = 0;
        while p < top.len()
            invariant
                p <= top.len(),
                width <= vocab@.len(),
                width <= row@.len(),
                is_top_selection(row@.take(width as int), limit as nat, threshold, top@),
                terms@.len() == p,
                forall|q: int| 0 <= q < p ==> (#[trigger] terms@[q])@ == vocab@[top@[q] as int],
            decreases top.len() - p,
        {
            match vocab.term(top[p]) {
                Some(term) => {
                    terms.push(term.clone());
                },
                None => {},
            }
            p += 1;
        }
        proof {
            assert(terms.deep_view() =~= terms_at(vocab@, top@));
        }
        let label = topic_label(i, &terms);
        labels.push(label);
        i += 1;
    }
    labels
}

/// The labels in one line, with ` | ` between one label and the next.
pub fn join_labels(labels: &Vec<String>) -> (line: String)
    ensures
        line@ == joined_labels(labels.deep_view()),
{
    let ghost all = labels.deep_view();
    let mut line = String::new();
    let mut i: usize = 0;
    while i < labels.len()
        invariant
            i <= labels.len(),
            all == labels.deep_view(),
            line@ == joined_labels(all.take(i as int)),
        decreases labels.len() - i,
    {
        proof {
            assert(all.take(i as int + 1).drop_last() =~= all.take(i as int));
        }
        if i > 0 {
            line.append(" | ");
        }
        line.append(labels[i].as_str());
        i += 1;
    }
    proof {
        assert(all.take(i as int) =~= all);
    }
    line
}

/// The head of the table of topic weights.
pub fn distribution_header(topics: usize) -> (header: Vec<String>)
    ensures
        header.deep_view() == header_text(topics as nat),
{
    let mut header: Vec<String> = Vec::new();
    header.push(String::from_str("Document"));
    let mut i: usize = 0;
    while i < topics
        invariant
            i <= topics,
            header@.len() == i + 1,
            header@[0]@ == "Document"@,
            forall|k: int|
                1 <= k <= i ==> (#[trigger] header@[k])@ == "Topic"@ + decimal((k - 1) as nat),
        decreases topics - i,
    {
        let mut name = String::from_str("Topic");
        let number = decimal_string(i);
        name.append(number.as_str());
        header.push(name);
        i += 1;
    }
    proof {
        assert(header.deep_view() =~= header_text(topics as nat));
    }
    header
}

/// The table of topic weights: the head for `topics` topics, then one row
/// for each document, in the order of the documents. The row of document `d`
/// stands at place `d + 1`; it holds the numeral of `d` and then the cells of
/// `cells[d]` as they come.
pub fn distribution_table(cells: &Vec<Vec<String>>, topics: usize) -> (table: Vec<Vec<String>>)
    ensures
        table@.len() == cells@.len() + 1,
        table@[0].deep_view() == header_text(topics as nat),
        forall|r: int|
            1 <= r <= cells@.len() ==> (#[trigger] table@[r]).deep_view() == seq![
                decimal((r - 1) as nat),
            ] + cells@[r - 1].deep_view(),
{
    let mut table: Vec<Vec<String>> = Vec::new();
    table.push(distribution_header(topics));
    let mut d: usize = 0;
    while d < cells.len()
        invariant
            d <= cells.len(),
            table@.len() == d + 1,
            table@[0].deep_view() == header_text(topics as nat),
            forall|r: int|
                1 <= r <= d ==> (#[trigger] table@[r]).deep_view() == seq![decimal((r - 1) as nat)]
                    + cells@[r - 1].deep_view(),
        decreases cells.len() - d,
    {
        let source = &cells[d];
        let mut row: Vec<String> = Vec::new();
        row.push(decimal_string(d));
        let mut c: usize = 0;
        while c < source.len()
            invariant
                c <= source.len(),
                row@.len() == c + 1,
                row@[0]@ == decimal(d as nat),
                forall|k: int| 1 <= k <= c ==> (#[trigger] row@[k])@ == source@[k - 1]@,
            decreases source.len() - c,
        {
            row.push(source[c].clone());
            c += 1;
        }
        proof {
            assert(row.deep_view() =~= seq![decimal(d as nat)] + source.deep_view());
        }
        table.push(row);
        d += 1;
    }
    table
}

} // verus!
