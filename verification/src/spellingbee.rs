//! The Spelling Bee matcher: answers are built only from a permitted letter
//! set (repetition allowed), must contain the mandatory first letter, and
//! must reach a minimum length.
use vstd::prelude::*;

use crate::seqtools::lemma_filter_push;
use crate::text::{chars_contain, str_chars, views};

verus! {

/// Minimum length of a Spelling Bee answer.
pub open spec fn spellingbee_min_len() -> int {
    4
}

/// Whether `w` is a Spelling Bee answer for the letter set `letters`:
/// long enough, every character drawn from the permitted letter set
/// (repetition allowed), and containing the mandatory letter (the first
/// of `letters`).
pub open spec fn sb_match(w: Seq<char>, letters: Seq<char>) -> bool {
    &&& w.len() >= spellingbee_min_len()
    &&& (forall|i: int| 0 <= i < w.len() ==> letters.contains(#[trigger] w[i]))
    &&& w.contains(letters[0])
}

/// Whether one word is a Spelling Bee answer for `letters`.
fn sb_word_ok(wchars: &Vec<char>, letters: &Vec<char>) -> (b: bool)
    requires
        letters@.len() > 0,
    ensures
        b == sb_match(wchars@, letters@),
{
    if wchars.len() < 4 {
        return false;
    }
    let mut i: usize = 0;
    while i < wchars.len()
        invariant
            i <= wchars@.len(),
            forall|t: int| 0 <= t < i ==> letters@.contains(#[trigger] wchars@[t]),
        decreases wchars@.len() - i,
    {
        if !chars_contain(letters, wchars[i]) {
            return false;
        }
        i = i + 1;
    }
    chars_contain(wchars, letters[0])
}

/// The Spelling Bee matcher: all corpus words, in corpus order, that are
/// built from `search_string`'s letters, contain its first (mandatory)
/// letter, and are at least four characters long.
pub fn spellingbee(search_string: &str, word_list: &Vec<String>) -> (r: Vec<String>)
    requires
        search_string@.len() > 0,
    ensures
        views(r@) == views(word_list@).filter(|w: Seq<char>| sb_match(w, search_string@)),
{
    let letters = str_chars(search_string);
    let ghost corpus = views(word_list@);
    let ghost pred = |w: Seq<char>| sb_match(w, search_string@);
    let mut results: Vec<String> = Vec::new();
    proof {
        reveal(Seq::filter);
        assert(corpus.take(0) =~= Seq::<Seq<char>>::empty());
        assert(views(results@) =~= corpus.take(0).filter(pred));
    }
    let mut i: usize = 0;
    while i < word_list.len()
        invariant
            i <= word_list@.len(),
            letters@ == search_string@,
            search_string@.len() > 0,
            corpus == views(word_list@),
            corpus.len() == word_list@.len(),
            pred == (|w: Seq<char>| sb_match(w, search_string@)),
            views(results@) == corpus.take(i as int).filter(pred),
        decreases word_list@.len() - i,
    {
        let wchars = str_chars(word_list[i].as_str());
        proof {
            assert(corpus[i as int] == word_list@[i as int]@);
            assert(corpus.take(i + 1) =~= corpus.take(i as int).push(corpus[i as int]));
            lemma_filter_push(corpus.take(i as int), corpus[i as int], pred);
        }
        if sb_word_ok(&wchars, &letters) {
            let ghost rpre = results@;
            results.push(word_list[i].clone());
            proof {
                assert(views(results@) =~= views(rpre).push(corpus[i as int]));
            }
        }
        i = i + 1;
    }
    proof {
        assert(corpus.take(corpus.len() as int) =~= corpus);
    }
    results
}

} // verus!
