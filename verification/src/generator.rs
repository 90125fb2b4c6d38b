//! The generator: draws `no_of_words` independent, uniformly random words
//! from the dictionary (with replacement) and joins them with single spaces.
//! Randomness comes from the operating system's cryptographic source; a
//! system that cannot supply entropy aborts the operation rather than fall
//! back to anything weaker.

use vstd::prelude::*;
use rand::RngExt;
use crate::dictionary::Dictionary;
use crate::phrase::{
    all_words_shaped, join_with_spaces, join_words, lemma_join_no_control, lemma_split_join,
    no_control_chars, split_ws, word_shaped, words_view,
};

verus! {

/// Relies on rand's `RngExt::random_range` over `rand::rngs::SysRng`, the
/// operating system's cryptographic random source: the result is uniformly
/// distributed in `0..dict_len` (the range is non-empty, so the call does
/// not panic on it); if the system cannot supply entropy the process panics
/// rather than degrade to weaker randomness.
#[verifier::external_body]
fn random_index(dict_len: usize) -> (r: usize)
    requires
        dict_len > 0,
    ensures
        r < dict_len,
{
    let mut rng = rand::rand_core::UnwrapErr(rand::rngs::SysRng);
    rng.random_range(0..dict_len)
}

/// Generates a phrase of exactly `no_of_words` dictionary words, each drawn
/// independently and with replacement, joined by single spaces: its
/// whitespace split has exactly `no_of_words` words, every one of them a
/// member of the dictionary, and the phrase carries no carriage return or
/// other control character. Zero words yield the empty string.
#[verifier::loop_isolation(false)]
pub fn random_phrase(dict: &Dictionary, no_of_words: usize) -> (r: String)
    requires
        dict.wf(),
        dict@.len() > 0,
    ensures
        split_ws(r@).len() == no_of_words,
        forall|i: int| 0 <= i < no_of_words ==> dict.word_set().contains(#[trigger] split_ws(r@)[i]),
        no_control_chars(r@),
        exists|ws: Seq<Seq<char>>|
            {
                &&& r@ == #[trigger] join_words(ws)
                &&& ws.len() == no_of_words
                &&& forall|i: int| 0 <= i < ws.len() ==> dict.word_set().contains(#[trigger] ws[i])
            },
{
    let mut chosen: Vec<String> = Vec::new();
    let mut k: usize = 0;
    while k < no_of_words
        invariant
            k <= no_of_words,
            chosen@.len() == k,
            forall|j: int|
                0 <= j < k ==> dict@.contains(#[trigger] words_view(chosen@)[j]) && word_shaped(
                    words_view(chosen@)[j],
                ) && no_control_chars(words_view(chosen@)[j]),
        decreases no_of_words - k,
    {
        let idx = random_index(dict.len());
        let w = dict.word_at(idx).clone();
        let ghost prev = chosen@;
        chosen.push(w);
        proof {
            assert(words_view(chosen@) =~= words_view(prev).push(dict@[idx as int]));
            assert(word_shaped(dict@[idx as int]) && no_control_chars(dict@[idx as int]));
            assert(dict@.contains(dict@[idx as int]));
        }
        k = k + 1;
    }
    let ghost wv = words_view(chosen@);
    let phrase = join_with_spaces(&chosen);
    proof {
        assert(all_words_shaped(wv));
        lemma_split_join(wv);
        lemma_join_no_control(wv);
        assert(phrase@ == join_words(wv) && wv.len() == no_of_words && forall|i: int|
            0 <= i < wv.len() ==> dict.word_set().contains(#[trigger] wv[i]));
    }
    phrase
}

/// The index-reduction step for platforms whose primitive is raw random
/// bytes rather than random indices: two bytes are read as a little-endian
/// value and reduced modulo the dictionary length. When the length does not
/// evenly divide 65536 this reduction is slightly biased toward smaller
/// indices; a caller who needs exact uniformity must reject and redraw
/// instead of reducing.
pub fn index_from_bytes(b0: u8, b1: u8, dict_len: usize) -> (r: usize)
    requires
        dict_len > 0,
    ensures
        r == (b0 + 256 * (b1 as int)) % (dict_len as int),
        r < dict_len,
{
    ((b0 as usize) + 256 * (b1 as usize)) % dict_len
}

} // verus!
