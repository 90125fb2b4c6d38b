//! Phrases: sequences of words joined by single spaces, and the whitespace
//! split that recovers the words. The central fact, proved here, is the
//! round trip: splitting a phrase joined from well-shaped words gives back
//! exactly those words.

use vstd::prelude::*;
use vstd::string::StrSliceExecFns;
use crate::chars::{is_control_char, is_space, is_space_char};

verus! {

/// No character of `w` is whitespace.
pub open spec fn no_space_chars(w: Seq<char>) -> bool {
    forall|i: int| 0 <= i < w.len() ==> !is_space_char(#[trigger] w[i])
}

/// No character of `s` is a control character.
pub open spec fn no_control_chars(s: Seq<char>) -> bool {
    forall|i: int| 0 <= i < s.len() ==> !is_control_char(#[trigger] s[i])
}

/// A word as the dictionary and the splitter understand it: non-empty and
/// free of whitespace.
pub open spec fn word_shaped(w: Seq<char>) -> bool {
    w.len() > 0 && no_space_chars(w)
}

/// Every element of `ws` is a well-shaped word.
pub open spec fn all_words_shaped(ws: Seq<Seq<char>>) -> bool {
    forall|i: int| 0 <= i < ws.len() ==> word_shaped(#[trigger] ws[i])
}

/// The views of a sequence of owned strings.
pub open spec fn words_view(ws: Seq<String>) -> Seq<Seq<char>> {
    ws.map_values(|w: String| w@)
}

/// The words of `s`, split on runs of whitespace, empty tokens discarded,
/// left-to-right order preserved.
pub open spec fn split_ws(s: Seq<char>) -> Seq<Seq<char>>
    decreases s.len(),
{
    if s.len() == 0 {
        Seq::empty()
    } else {
        let rest = split_ws(s.drop_last());
        let c = s.last();
        if is_space_char(c) {
            rest
        } else if s.len() >= 2 && !is_space_char(s[s.len() - 2]) {
            rest.update(rest.len() - 1, rest.last().push(c))
        } else {
            rest.push(seq![c])
        }
    }
}

/// The words of `ws` joined by single spaces: no leading, trailing or
/// doubled separator.
pub open spec fn join_words(ws: Seq<Seq<char>>) -> Seq<char>
    decreases ws.len(),
{
    if ws.len() == 0 {
        Seq::empty()
    } else if ws.len() == 1 {
        ws[0]
    } else {
        join_words(ws.drop_last()) + seq![' '] + ws.last()
    }
}

/// Appending a whitespace character leaves the split unchanged.
pub proof fn lemma_split_snoc_space(s: Seq<char>, c: char)
    requires
        is_space_char(c),
    ensures
        split_ws(s.push(c)) == split_ws(s),
{
    assert(s.push(c).drop_last() =~= s);
    assert(s.push(c).last() == c);
}

/// A sequence ending in a non-whitespace character splits into at least one
/// word, and the last word ends in that character.
pub proof fn lemma_split_nonspace_end(s: Seq<char>)
    requires
        s.len() > 0,
        !is_space_char(s.last()),
    ensures
        split_ws(s).len() > 0,
        split_ws(s).last().len() > 0,
        split_ws(s).last().last() == s.last(),
    decreases s.len(),
{
    if s.len() >= 2 && !is_space_char(s[s.len() - 2]) {
        assert(s.drop_last().last() == s[s.len() - 2]);
        lemma_split_nonspace_end(s.drop_last());
    }
}

/// Appending a non-whitespace character either opens a new word (after
/// whitespace or at the start) or extends the last word.
pub proof fn lemma_split_snoc_nonspace(s: Seq<char>, c: char)
    requires
        !is_space_char(c),
    ensures
        s.len() == 0 || is_space_char(s.last()) ==> split_ws(s.push(c)) == split_ws(s).push(
            seq![c],
        ),
        s.len() > 0 && !is_space_char(s.last()) ==> split_ws(s).len() > 0 && split_ws(s.push(c))
            == split_ws(s).update(split_ws(s).len() - 1, split_ws(s).last().push(c)),
{
    let t = s.push(c);
    assert(t.drop_last() =~= s);
    assert(t.last() == c);
    if s.len() > 0 {
        assert(t[t.len() - 2] == s.last());
        if !is_space_char(s.last()) {
            lemma_split_nonspace_end(s);
        }
    }
}

/// Appending a whole word to a sequence that ends in whitespace (or is
/// empty) appends that word to the split.
pub proof fn lemma_split_append_word(s: Seq<char>, w: Seq<char>)
    requires
        s.len() == 0 || is_space_char(s.last()),
        word_shaped(w),
    ensures
        split_ws(s + w) == split_ws(s).push(w),
    decreases w.len(),
{
    if w.len() == 1 {
        assert(s + w =~= s.push(w[0]));
        lemma_split_snoc_nonspace(s, w[0]);
        assert(seq![w[0]] =~= w);
    } else {
        let w0 = w.drop_last();
        assert(word_shaped(w0)) by {
            assert(forall|i: int| 0 <= i < w0.len() ==> w0[i] == w[i]);
        }
        lemma_split_append_word(s, w0);
        let s0 = s + w0;
        assert(s0.last() == w0.last());
        assert(!is_space_char(w0.last()));
        lemma_split_snoc_nonspace(s0, w.last());
        assert(s0.push(w.last()) =~= s + w);
        assert(split_ws(s0).last() == w0);
        assert(split_ws(s0).len() - 1 == split_ws(s).len());
        assert(split_ws(s).push(w0).update(
            split_ws(s).len() as int,
            w0.push(w.last()),
        ) =~= split_ws(s).push(w0.push(w.last())));
        assert(w0.push(w.last()) =~= w);
    }
}

/// The round trip: splitting a phrase joined from well-shaped words yields
/// exactly those words.
pub proof fn lemma_split_join(ws: Seq<Seq<char>>)
    requires
        all_words_shaped(ws),
    ensures
        split_ws(join_words(ws)) == ws,
    decreases ws.len(),
{
    if ws.len() == 0 {
        assert(split_ws(join_words(ws)) =~= ws);
    } else if ws.len() == 1 {
        let e = Seq::<char>::empty();
        assert(word_shaped(ws[0]));
        assert(e + ws[0] =~= ws[0]);
        lemma_split_append_word(e, ws[0]);
        assert(split_ws(e).push(ws[0]) =~= ws);
    } else {
        let wsr = ws.drop_last();
        assert(all_words_shaped(wsr)) by {
            assert(forall|i: int| 0 <= i < wsr.len() ==> wsr[i] == ws[i]);
        }
        lemma_split_join(wsr);
        let j0 = join_words(wsr);
        let s1 = j0 + seq![' '];
        assert(s1 =~= j0.push(' '));
        lemma_split_snoc_space(j0, ' ');
        assert(s1.len() > 0 && s1.last() == ' ');
        assert(word_shaped(ws[ws.len() - 1]));
        lemma_split_append_word(s1, ws.last());
        assert(wsr.push(ws.last()) =~= ws);
    }
}

/// A phrase joined from control-free words contains no control characters.
pub proof fn lemma_join_no_control(ws: Seq<Seq<char>>)
    requires
        forall|i: int| 0 <= i < ws.len() ==> no_control_chars(#[trigger] ws[i]),
    ensures
        no_control_chars(join_words(ws)),
    decreases ws.len(),
{
    if ws.len() == 0 {
    } else if ws.len() == 1 {
        assert(no_control_chars(ws[0]));
    } else {
        let wsr = ws.drop_last();
        assert(forall|i: int| 0 <= i < wsr.len() ==> no_control_chars(#[trigger] wsr[i])) by {
            assert(forall|i: int| 0 <= i < wsr.len() ==> wsr[i] == ws[i]);
        }
        lemma_join_no_control(wsr);
        let j0 = join_words(wsr);
        let j = join_words(ws);
        let last = ws[ws.len() - 1];
        assert(no_control_chars(last));
        assert forall|k: int| 0 <= k < j.len() implies !is_control_char(#[trigger] j[k]) by {
            if k < j0.len() {
                assert(j[k] == j0[k]);
            } else if k == j0.len() {
                assert(j[k] == ' ');
                assert(!is_control_char(' '));
            } else {
                assert(j[k] == last[k - j0.len() - 1]);
            }
        }
    }
}

/// Splits `s` on runs of whitespace into its words, in order, discarding
/// the empty tokens that leading, trailing or repeated whitespace would
/// produce.
#[verifier::loop_isolation(false)]
pub fn split_whitespace_words(s: &str) -> (r: Vec<String>)
    ensures
        words_view(r@) == split_ws(s@),
{
    let n = s.unicode_len();
    let mut out: Vec<String> = Vec::new();
    let mut i: usize = 0;
    while i < n
        invariant
            i <= n,
            words_view(out@) == split_ws(s@.subrange(0, i as int)),
            i == 0 || i == n || is_space_char(s@[i as int - 1]) || is_space_char(s@[i as int]),
        decreases n - i,
    {
        let c = s.get_char(i);
        if is_space(c) {
            proof {
                assert(s@.subrange(0, i as int + 1) =~= s@.subrange(0, i as int).push(
                    s@[i as int],
                ));
                lemma_split_snoc_space(s@.subrange(0, i as int), s@[i as int]);
            }
            i = i + 1;
        } else {
            let ghost prefix = s@.subrange(0, i as int);
            let start = i;
            i = i + 1;
            while i < n && !is_space(s.get_char(i))
                invariant
                    start < i <= n,
                    forall|k: int| start <= k < i ==> !is_space_char(#[trigger] s@[k]),
                decreases n - i,
            {
                i = i + 1;
            }
            let w = s.substring_char(start, i);
            out.push(w.to_owned());
            proof {
                let word = s@.subrange(start as int, i as int);
                assert(word_shaped(word));
                assert(prefix.len() == 0 || is_space_char(prefix.last()));
                lemma_split_append_word(prefix, word);
                assert(prefix + word =~= s@.subrange(0, i as int));
                assert(words_view(out@) =~= split_ws(s@.subrange(0, i as int)));
            }
        }
    }
    proof {
        assert(s@.subrange(0, n as int) =~= s@);
    }
    out
}

/// Joins the given words with single spaces: no leading or trailing
/// separator, none doubled.
#[verifier::loop_isolation(false)]
pub fn join_with_spaces(words: &Vec<String>) -> (r: String)
    ensures
        r@ == join_words(words_view(words@)),
{
    let ghost wv = words_view(words@);
    let mut r = String::new();
    let mut i: usize = 0;
    while i < words.len()
        invariant
            i <= words.len(),
            r@ == join_words(wv.subrange(0, i as int)),
        decreases words.len() - i,
    {
        if i > 0 {
            r.append(" ");
        }
        r.append(words[i].as_str());
        proof {
            reveal_strlit(" ");
            let pre = wv.subrange(0, i as int);
            let cur = wv.subrange(0, i as int + 1);
            assert(cur.drop_last() =~= pre);
            assert(cur.last() == wv[i as int]);
            if i == 0 {
                assert(r@ =~= join_words(cur));
            } else {
                assert(r@ =~= join_words(pre) + seq![' '] + wv[i as int]);
            }
        }
        i = i + 1;
    }
    proof {
        assert(wv.subrange(0, words@.len() as int) =~= wv);
    }
    r
}

} // verus!
