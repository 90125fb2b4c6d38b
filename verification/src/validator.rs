//! The validator: splits a candidate phrase on whitespace, scans its words
//! left to right against the dictionary's membership set, and only after a
//! fully clean scan compares the word count against the expected minimum.
//! The first word outside the dictionary short-circuits the scan, whatever
//! the phrase's length.

use vstd::prelude::*;
use crate::dictionary::Dictionary;
use crate::phrase::{split_ws, split_whitespace_words};

verus! {

/// Why a phrase was refused. Either kind carries enough for a caller's
/// message: the offending word verbatim, or the word count actually seen.
#[derive(Debug, Clone, PartialEq)]
pub enum Error {
    /// Every word was a dictionary word, but there were fewer of them than
    /// expected; carries the actual count.
    PhraseTooShort(usize),
    /// The first word, in left-to-right order, that is not a dictionary
    /// word, verbatim as it appeared in the phrase.
    WordNotFromDictionary(String),
}

impl Error {
    /// A human-readable rendering of the error.
    pub fn describe(&self) -> (r: String)
        ensures
            match self {
                Error::PhraseTooShort(_) => r@ == "the phrase is too short"@,
                Error::WordNotFromDictionary(_) => r@
                    == "a word does not come from the dictionary"@,
            },
    {
        match self {
            Error::PhraseTooShort(_) => "the phrase is too short".to_owned(),
            Error::WordNotFromDictionary(_) => "a word does not come from the dictionary".to_owned(),
        }
    }
}

/// Every word of `ws` belongs to `d`.
pub open spec fn all_words_in(ws: Seq<Seq<char>>, d: Set<Seq<char>>) -> bool {
    forall|i: int| 0 <= i < ws.len() ==> d.contains(#[trigger] ws[i])
}

/// Position `k` holds the first word of `ws` outside `d`.
pub open spec fn is_first_offender(ws: Seq<Seq<char>>, d: Set<Seq<char>>, k: int) -> bool {
    &&& 0 <= k < ws.len()
    &&& !d.contains(ws[k])
    &&& forall|j: int| 0 <= j < k ==> d.contains(#[trigger] ws[j])
}

/// The condition under which validation succeeds: every split word is in
/// the membership set `d`, and there are at least `expected` of them.
pub open spec fn validation_accepts(d: Set<Seq<char>>, phrase: Seq<char>, expected: int) -> bool {
    all_words_in(split_ws(phrase), d) && split_ws(phrase).len() >= expected
}

/// Validates a phrase against the dictionary: splits it on whitespace runs,
/// requires every word to be a dictionary member, and then requires at
/// least `expected_no_of_words` words. The first non-member word fails the
/// scan immediately; the length check is reached only after a clean scan.
#[verifier::loop_isolation(false)]
pub fn validate_phrase(dict: &Dictionary, phrase: &str, expected_no_of_words: usize) -> (r: Result<
    (),
    Error,
>)
    ensures
        match r {
            Ok(()) => validation_accepts(dict.word_set(), phrase@, expected_no_of_words as int),
            Err(Error::PhraseTooShort(n)) => {
                &&& all_words_in(split_ws(phrase@), dict.word_set())
                &&& split_ws(phrase@).len() < expected_no_of_words as int
                &&& n == split_ws(phrase@).len()
            },
            Err(Error::WordNotFromDictionary(w)) => exists|k: int|
                is_first_offender(split_ws(phrase@), dict.word_set(), k) && w@ == split_ws(
                    phrase@,
                )[k],
        },
{
    let words = split_whitespace_words(phrase);
    let ghost ws = split_ws(phrase@);
    let mut i: usize = 0;
    while i < words.len()
        invariant
            i <= words.len(),
            forall|j: int| 0 <= j < i ==> dict.word_set().contains(#[trigger] ws[j]),
        decreases words.len() - i,
    {
        if !dict.contains(&words[i]) {
            proof {
                assert(ws[i as int] == words@[i as int]@);
                assert(is_first_offender(ws, dict.word_set(), i as int));
            }
            return Err(Error::WordNotFromDictionary(words[i].clone()));
        }
        i = i + 1;
    }
    if words.len() < expected_no_of_words {
        return Err(Error::PhraseTooShort(words.len()));
    }
    Ok(())
}

/// Validating what the generator produced always succeeds: a phrase whose
/// split is `n` dictionary words is accepted at any expected count up to
/// `n`.
pub proof fn lemma_generated_phrase_validates(
    d: Set<Seq<char>>,
    phrase: Seq<char>,
    n: int,
    expected: int,
)
    requires
        split_ws(phrase).len() == n,
        forall|i: int| 0 <= i < n ==> d.contains(#[trigger] split_ws(phrase)[i]),
        expected <= n,
    ensures
        validation_accepts(d, phrase, expected),
{
}

/// A phrase of `w` dictionary words is refused when one more word is
/// expected, and refused for its length alone: there is no offending word,
/// so the only error [`validate_phrase`] can report is `PhraseTooShort(w)`.
pub proof fn lemma_one_word_short(d: Set<Seq<char>>, phrase: Seq<char>, w: int)
    requires
        split_ws(phrase).len() == w,
        all_words_in(split_ws(phrase), d),
    ensures
        !validation_accepts(d, phrase, w + 1),
        forall|k: int| !is_first_offender(split_ws(phrase), d, k),
{
}

} // verus!
