//! From raw text to tokens: letters only, in lower case, split at white
//! space, without stop words, each word reduced to its stem.

use crate::corpus::{lemma_push_contains, Token};
use crate::documents::{encode_document, json_of_token_list};
use crate::error::ModelError;
use crate::text::{is_white_space, is_whitespace};
use vstd::hash_map::StringHashMap;
use vstd::prelude::*;

verus! {

/// What becomes of a character of the text: a letter of the basic Latin
/// alphabet becomes its lower case, white space stays, and a space stands
/// for anything else.
pub open spec fn normalized(c: char) -> char {
    let u = c as u32;
    if 0x41 <= u <= 0x5A {
        (u + 0x20) as char
    } else if 0x61 <= u <= 0x7A || is_white_space(c) {
        c
    } else {
        ' '
    }
}

/// The text, character by character as `normalized` has it.
pub open spec fn normalized_text(text: Seq<char>) -> Seq<char> {
    Seq::new(text.len(), |i: int| normalized(text[i]))
}

/// The word that is open at the end of `text`: the characters behind its last
/// white space.
pub open spec fn open_word(text: Seq<char>) -> Seq<char>
    decreases text.len(),
{
    if text.len() == 0 || is_white_space(text.last()) {
        Seq::empty()
    } else {
        open_word(text.drop_last()).push(text.last())
    }
}

/// The words that white space has closed within `text`, in their order.
pub open spec fn closed_words(text: Seq<char>) -> Seq<Seq<char>>
    decreases text.len(),
{
    if text.len() == 0 {
        Seq::empty()
    } else if is_white_space(text.last()) && open_word(text.drop_last()).len() > 0 {
        closed_words(text.drop_last()).push(open_word(text.drop_last()))
    } else {
        closed_words(text.drop_last())
    }
}

/// The words of `text`: its longest runs of characters that are not white
/// space.
pub open spec fn words(text: Seq<char>) -> Seq<Seq<char>> {
    if open_word(text).len() > 0 {
        closed_words(text).push(open_word(text))
    } else {
        closed_words(text)
    }
}

/// Every character of `word` is a lower-case letter of the basic Latin
/// alphabet.
pub open spec fn is_lower_case(word: Seq<char>) -> bool {
    forall|i: int| 0 <= i < word.len() ==> 0x61 <= (#[trigger] word[i]) as u32 <= 0x7A
}

/// What the Snowball stemmer of `language` makes of `word`, or nothing where
/// there is no stemmer of that name.
pub uninterp spec fn stem_of(language: Seq<char>, word: Seq<char>) -> Option<Seq<char>>;

/// The stem of an English word.
pub open spec fn english_stem(word: Seq<char>) -> Token {
    stem_of("english"@, word)->0
}

/// Those of `words`, in their order, that are no stop words.
pub open spec fn kept_words(words: Seq<Seq<char>>, stop: Set<Token>) -> Seq<Seq<char>>
    decreases words.len(),
{
    if words.len() == 0 {
        Seq::empty()
    } else {
        let earlier = kept_words(words.drop_last(), stop);
        if stop.contains(words.last()) {
            earlier
        } else {
            earlier.push(words.last())
        }
    }
}

/// The words of a text that count: its words, read as `normalized_text` has
/// them, without the stop words.
pub open spec fn counted_words(text: Seq<char>, stop: Set<Token>) -> Seq<Seq<char>> {
    kept_words(words(normalized_text(text)), stop)
}

/// The stems of the given words, each in the place of its word.
pub open spec fn stems(words: Seq<Seq<char>>) -> Seq<Token> {
    Seq::new(words.len(), |i: int| english_stem(words[i]))
}

/// The tokens of a text: the stems of the words that count.
pub open spec fn preprocessed(text: Seq<char>, stop: Set<Token>) -> Seq<Token> {
    stems(counted_words(text, stop))
}

/// In a text of lower-case letters and white space, the open word and every
/// closed word are made of lower-case letters, and no closed word is empty.
pub proof fn lemma_words_are_lower_case(text: Seq<char>)
    requires
        forall|i: int| 0 <= i < text.len() ==> normalized(#[trigger] text[i]) == text[i],
    ensures
        is_lower_case(open_word(text)),
        forall|k: int|
            0 <= k < closed_words(text).len() ==> (#[trigger] closed_words(text)[k]).len() > 0
                && is_lower_case(closed_words(text)[k]),
    decreases text.len(),
{
    if text.len() > 0 {
        let front = text.drop_last();
        lemma_words_are_lower_case(front);
        let closed = closed_words(text);
        assert forall|k: int| 0 <= k < closed.len() implies (#[trigger] closed[k]).len() > 0
            && is_lower_case(closed[k]) by {
            if k < closed_words(front).len() {
                assert(closed[k] == closed_words(front)[k]);
            } else {
                assert(closed[k] == open_word(front));
            }
        }
    }
}

/// The words of a text, read as `normalized_text` has it, are not empty and
/// hold nothing but lower-case letters of the basic Latin alphabet.
pub proof fn lemma_words_of_normalized_text(text: Seq<char>)
    ensures
        forall|k: int|
            0 <= k < words(normalized_text(text)).len() ==> (#[trigger] words(
                normalized_text(text),
            )[k]).len() > 0 && is_lower_case(words(normalized_text(text))[k]),
{
    lemma_words_are_lower_case(normalized_text(text));
}

/// The words that are kept are among the words that were there.
pub proof fn lemma_kept_words(words: Seq<Seq<char>>, stop: Set<Token>)
    ensures
        forall|word: Seq<char>| #[trigger]
            kept_words(words, stop).contains(word) <==> words.contains(word) && !stop.contains(
                word,
            ),
    decreases words.len(),
{
    if words.len() > 0 {
        let front = words.drop_last();
        lemma_kept_words(front, stop);
        assert(words =~= front.push(words.last()));
        assert forall|word: Seq<char>| #[trigger]
            kept_words(words, stop).contains(word) <==> words.contains(word) && !stop.contains(
                word,
            ) by {
            lemma_push_contains(kept_words(front, stop), words.last(), word);
        }
    }
}

/// Calls `Stemmer::new` of the crate `stemmer` for `language`, and `stem` on
/// what it gives. Nothing is proved of it. The contract claims that the
/// outcome depends on the two strings alone, and names it `stem_of`: the stem
/// where the language has a stemmer, nothing where it has none; and that
/// `english` has one, as the crate's documentation shows. Both calls abort on
/// a string that holds the character zero, which is why the language may hold
/// none; of the word more is asked, and no more is needed: lower-case letters
/// only.
#[verifier::external_body]
fn stem_in(language: &str, word: &str) -> (r: Option<String>)
    requires
        !language@.contains('\0'),
        is_lower_case(word@),
    ensures
        match r {
            Some(stem) => stem_of(language@, word@) == Some(stem@),
            None => stem_of(language@, word@) is None,
        },
        language@ == "english"@ ==> r is Some,
{
    match stemmer::Stemmer::new(language) {
        Some(mut stemmer) => Some(stemmer.stem(word)),
        None => None,
    }
}

/// The words that are left out of every document.
pub struct StopWords {
    words: StringHashMap<bool>,
}

impl View for StopWords {
    type V = Set<Token>;

    closed spec fn view(&self) -> Set<Token> {
        self.words@.dom()
    }
}

impl StopWords {
    /// No stop word.
    pub fn new() -> (stop: StopWords)
        ensures
            stop@ == Set::<Token>::empty(),
    {
        StopWords { words: StringHashMap::new() }
    }

    /// Makes `word` a stop word.
    pub fn insert(&mut self, word: String)
        ensures
            final(self)@ == old(self)@.insert(word@),
    {
        self.words.insert(word, true);
    }

    /// Whether `word` is a stop word.
    pub fn contains(&self, word: &str) -> (b: bool)
        ensures
            b == self@.contains(word@),
    {
        self.words.contains_key(word)
    }
}

/// The character as `normalized` has it.
pub fn normalize(c: char) -> (n: char)
    ensures
        n == normalized(c),
{
    let u: u32 = c as u32;
    if 0x41 <= u && u <= 0x5A {
        let lower: u8 = (u + 0x20) as u8;
        lower as char
    } else if (0x61 <= u && u <= 0x7A) || is_whitespace(c) {
        c
    } else {
        ' '
    }
}

/// Adds a finished word to `found`, unless it is a stop word.
fn close_word(found: &mut Vec<String>, word: String, stopwords: &StopWords)
    ensures
        final(found).deep_view() == if stopwords@.contains(word@) {
            old(found).deep_view()
        } else {
            old(found).deep_view().push(word@)
        },
{
    if !stopwords.contains(word.as_str()) {
        found.push(word);
    }
}

/// The words of `text` that count. Letters of the basic Latin alphabet are
/// read in lower case and everything else but white space as a space; the
/// words are what stands between white space, and those that are stop words
/// are left out. What is left holds lower-case letters only.
pub fn split_words(text: &str, stopwords: &StopWords) -> (found: Vec<String>)
    ensures
        found.deep_view() == counted_words(text@, stopwords@),
        forall|k: int|
            0 <= k < found@.len() ==> (#[trigger] found@[k])@.len() > 0 && is_lower_case(
                found@[k]@,
            ),
{
    let ghost clean = normalized_text(text@);
    let mut found: Vec<String> = Vec::new();
    let mut word = String::new();
    for c in it: text.chars()
        invariant
            it.seq() == text@,
            clean == normalized_text(text@),
            word@ == open_word(clean.take(it.index() as int)),
            found.deep_view() == kept_words(
                closed_words(clean.take(it.index() as int)),
                stopwords@,
            ),
    {
        let ghost read = clean.take(it.index() as int);
        let ghost longer = clean.take(it.index() + 1);
        let n = normalize(c);
        proof {
            assert(longer.drop_last() =~= read);
        }
        if is_whitespace(n) {
            if !word.as_str().is_empty() {
                close_word(&mut found, word, stopwords);
                proof {
                    assert(closed_words(longer).drop_last() =~= closed_words(read));
                }
                word = String::new();
            }
        } else {
            word.push(n);
        }
    }
    proof {
        assert(clean.take(text@.len() as int) =~= clean);
    }
    if !word.as_str().is_empty() {
        close_word(&mut found, word, stopwords);
        proof {
            assert(words(clean).drop_last() =~= closed_words(clean));
        }
    }
    proof {
        lemma_words_of_normalized_text(text@);
        lemma_kept_words(words(clean), stopwords@);
        assert forall|k: int| 0 <= k < found@.len() implies (#[trigger] found@[k])@.len() > 0
            && is_lower_case(found@[k]@) by {
            assert(counted_words(text@, stopwords@).contains(found.deep_view()[k]));
        }
    }
    found
}

/// The tokens of `text`: the English stems of its words that count, in the
/// order of the words.
pub fn preprocess_text(text: &str, stopwords: &StopWords) -> (tokens: Vec<String>)
    ensures
        tokens.deep_view() == preprocessed(text@, stopwords@),
{
    let found = split_words(text, stopwords);
    let ghost counted = found.deep_view();
    let mut tokens: Vec<String> = Vec::new();
    let mut i: usize = 0;
    while i < found.len()
        invariant
            i <= found.len(),
            counted == found.deep_view(),
            forall|k: int| 0 <= k < found@.len() ==> is_lower_case((#[trigger] found@[k])@),
            tokens@.len() == i,
            forall|k: int| 0 <= k < i ==> (#[trigger] tokens@[k])@ == english_stem(counted[k]),
        decreases found.len() - i,
    {
        let word = &found[i];
        proof {
            reveal_strlit("english");
        }
        match stem_in("english", word.as_str()) {
            Some(stem) => {
                tokens.push(stem);
            },
            None => {},
        }
        i += 1;
    }
    tokens
}

/// The record of a text: its tokens, written as a JSON array of strings.
pub fn token_record(text: &str, stopwords: &StopWords) -> (r: Result<String, ModelError>)
    ensures
        match r {
            Ok(record) => json_of_token_list(preprocessed(text@, stopwords@)) == Some(record@),
            Err(e) => json_of_token_list(preprocessed(text@, stopwords@)) is None && e
                == ModelError::UnwritableDocument,
        },
{
    let tokens = preprocess_text(text, stopwords);
    encode_document(&tokens)
}

} // verus!
