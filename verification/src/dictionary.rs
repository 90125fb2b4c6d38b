//! The dictionary: an immutable ordered sequence of distinct words, each
//! non-empty and free of whitespace and control characters. It is built once,
//! then shared read-only; membership queries answer against exactly the set
//! of its words.

use vstd::prelude::*;
use vstd::string::StrSliceExecFns;
use crate::chars::{is_control, is_control_char, is_space, is_space_char};
use crate::phrase::{no_control_chars, word_shaped, words_view};

verus! {

/// The well-formedness the dictionary guarantees of a word sequence: every
/// entry a well-shaped, control-free word, and no entry repeated.
pub open spec fn wf_words(ws: Seq<Seq<char>>) -> bool {
    &&& forall|i: int|
        0 <= i < ws.len() ==> word_shaped(#[trigger] ws[i]) && no_control_chars(ws[i])
    &&& forall|i: int, j: int| 0 <= i < j < ws.len() ==> ws[i] != ws[j]
}

/// An immutable ordered word list with the invariant of [`wf_words`],
/// established once by [`Dictionary::new`] and never disturbed: no method
/// mutates a dictionary.
pub struct Dictionary {
    words: Vec<String>,
}

impl View for Dictionary {
    type V = Seq<Seq<char>>;

    closed spec fn view(&self) -> Seq<Seq<char>> {
        words_view(self.words@)
    }
}

impl Dictionary {
    /// The dictionary's invariant.
    pub open spec fn wf(&self) -> bool {
        wf_words(self@)
    }

    /// The membership set: exactly the set of the dictionary's words,
    /// however it is queried and however often.
    pub open spec fn word_set(&self) -> Set<Seq<char>> {
        Set::new(|w: Seq<char>| self@.contains(w))
    }

    /// Builds a dictionary from an ordered word list, accepting it exactly
    /// when every word is non-empty, free of whitespace and control
    /// characters, and no word is repeated.
    #[verifier::loop_isolation(false)]
    pub fn new(words: Vec<String>) -> (r: Option<Dictionary>)
        ensures
            r is Some <==> wf_words(words_view(words@)),
            r is Some ==> r->Some_0@ == words_view(words@) && r->Some_0.wf(),
    {
        let ghost wv = words_view(words@);
        let mut i: usize = 0;
        while i < words.len()
            invariant
                i <= words.len(),
                wv == words_view(words@),
                forall|k: int|
                    0 <= k < i ==> word_shaped(#[trigger] wv[k]) && no_control_chars(wv[k]),
                forall|k: int, j: int| 0 <= k < j < i ==> wv[k] != wv[j],
            decreases words.len() - i,
        {
            let w = words[i].as_str();
            let n = w.unicode_len();
            assert(wv[i as int] == w@);
            if n == 0 {
                proof {
                    assert(!word_shaped(wv[i as int]));
                }
                return None;
            }
            let mut c: usize = 0;
            while c < n
                invariant
                    c <= n,
                    n == w@.len(),
                    forall|k: int|
                        0 <= k < c ==> !is_space_char(#[trigger] w@[k]) && !is_control_char(
                            w@[k],
                        ),
                decreases n - c,
            {
                let ch = w.get_char(c);
                if is_space(ch) || is_control(ch) {
                    proof {
                        assert(!(word_shaped(wv[i as int]) && no_control_chars(wv[i as int])));
                    }
                    return None;
                }
                c = c + 1;
            }
            let mut j: usize = 0;
            while j < i
                invariant
                    j <= i < words.len(),
                    wv == words_view(words@),
                    forall|k: int| 0 <= k < j ==> wv[k] != wv[i as int],
                decreases i - j,
            {
                if words[j].eq(&words[i]) {
                    proof {
                        assert(wv[j as int] == wv[i as int]);
                    }
                    return None;
                }
                j = j + 1;
            }
            i = i + 1;
        }
        Some(Dictionary { words })
    }

    /// The number of words.
    pub fn len(&self) -> (n: usize)
        ensures
            n == self@.len(),
    {
        self.words.len()
    }

    /// The word at a position, for callers who need the full ordered
    /// sequence (to sample it themselves, or to bound its entropy).
    pub fn word_at(&self, i: usize) -> (w: &String)
        requires
            i < self@.len(),
        ensures
            w@ == self@[i as int],
    {
        &self.words[i]
    }

    /// The full ordered word sequence, read-only, for callers who need
    /// direct access to the dictionary data.
    pub fn words(&self) -> (r: &Vec<String>)
        ensures
            words_view(r@) == self@,
    {
        &self.words
    }

    /// Whether `w` is a dictionary word.
    pub fn contains(&self, w: &String) -> (r: bool)
        ensures
            r == self.word_set().contains(w@),
    {
        let mut i: usize = 0;
        while i < self.words.len()
            invariant
                i <= self.words.len(),
                forall|k: int| 0 <= k < i ==> self@[k] != w@,
            decreases self.words.len() - i,
        {
            if self.words[i].eq(w) {
                assert(self@[i as int] == w@);
                return true;
            }
            i = i + 1;
        }
        assert(!self@.contains(w@));
        false
    }
}

/// The membership set is a function of the dictionary's contents alone: two
/// dictionaries holding the same words answer every membership query alike,
/// in whatever order the queries come.
pub proof fn lemma_membership_set_stable(d1: &Dictionary, d2: &Dictionary)
    requires
        d1@ == d2@,
    ensures
        d1.word_set() == d2.word_set(),
{
    assert(d1.word_set() =~= d2.word_set());
}

} // verus!
