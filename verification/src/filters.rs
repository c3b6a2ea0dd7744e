//! The result post-processor: drop results of the wrong size, and drop
//! results that contradict the partially-known ("found") letter pattern.
use vstd::prelude::*;

use crate::anagrams::strip_ws;
use crate::seqtools::{lemma_filter_idempotent, lemma_filter_push};
use crate::text::{char_is_wspace, is_wspace, str_chars, views};
use crate::transform::{expand_numbers, spec_expand_numbers};

verus! {

/// Whether a word's non-whitespace character count is exactly `n`.
pub open spec fn right_size(w: Seq<char>, n: int) -> bool {
    strip_ws(w).len() == n
}

/// The non-whitespace character count of one word.
fn nonws_count(wchars: &Vec<char>) -> (n: usize)
    ensures
        n == strip_ws(wchars@).len(),
{
    let mut count: usize = 0;
    proof {
        reveal(Seq::filter);
        assert(wchars@.take(0) =~= Seq::<char>::empty());
    }
    let mut i: usize = 0;
    while i < wchars.len()
        invariant
            i <= wchars@.len(),
            count == strip_ws(wchars@.take(i as int)).len(),
            count <= i,
        decreases wchars@.len() - i,
    {
        proof {
            assert(wchars@.take(i + 1) =~= wchars@.take(i as int).push(wchars@[i as int]));
            lemma_filter_push(wchars@.take(i as int), wchars@[i as int], |c: char| !is_wspace(c));
        }
        if !char_is_wspace(wchars[i]) {
            count = count + 1;
        }
        i = i + 1;
    }
    proof {
        assert(wchars@.take(wchars@.len() as int) =~= wchars@);
    }
    count
}

/// Keep only the results whose non-whitespace character count is `size`,
/// in their given order.
pub fn remove_wrong_sized_words(results: &Vec<String>, size: u8) -> (r: Vec<String>)
    ensures
        views(r@) == views(results@).filter(|w: Seq<char>| right_size(w, size as int)),
{
    let ghost given = views(results@);
    let ghost pred = |w: Seq<char>| right_size(w, size as int);
    let mut kept: Vec<String> = Vec::new();
    proof {
        reveal(Seq::filter);
        assert(given.take(0) =~= Seq::<Seq<char>>::empty());
        assert(views(kept@) =~= given.take(0).filter(pred));
    }
    let mut i: usize = 0;
    while i < results.len()
        invariant
            i <= results@.len(),
            given == views(results@),
            given.len() == results@.len(),
            pred == (|w: Seq<char>| right_size(w, size as int)),
            views(kept@) == given.take(i as int).filter(pred),
        decreases results@.len() - i,
    {
        let wchars = str_chars(results[i].as_str());
        proof {
            assert(given[i as int] == results@[i as int]@);
            assert(given.take(i + 1) =~= given.take(i as int).push(given[i as int]));
            lemma_filter_push(given.take(i as int), given[i as int], pred);
        }
        if nonws_count(&wchars) == size as usize {
            let ghost kpre = kept@;
            kept.push(results[i].clone());
            proof {
                assert(views(kept@) =~= views(kpre).push(given[i as int]));
            }
        }
        i = i + 1;
    }
    proof {
        assert(given.take(given.len() as int) =~= given);
    }
    kept
}

/// Filtering by size is idempotent: a second pass with the same size
/// changes nothing.
pub proof fn lemma_size_filter_idempotent(words: Seq<Seq<char>>, size: u8)
    ensures
        words.filter(|w: Seq<char>| right_size(w, size as int)).filter(
            |w: Seq<char>| right_size(w, size as int),
        ) == words.filter(|w: Seq<char>| right_size(w, size as int)),
{
    lemma_filter_idempotent(words, |w: Seq<char>| right_size(w, size as int));
}

/// An uppercase ASCII letter.
pub open spec fn is_upper_alpha(c: char) -> bool {
    65 <= c as u32 <= 90
}

/// ASCII case-insensitive character equality.
pub open spec fn eq_fold(a: char, b: char) -> bool {
    ||| a == b
    ||| (is_upper_alpha(a) && a as u32 + 32 == b as u32)
    ||| (is_upper_alpha(b) && b as u32 + 32 == a as u32)
}

/// Runtime check for [`eq_fold`].
fn chars_eq_fold(a: char, b: char) -> (r: bool)
    ensures
        r == eq_fold(a, b),
{
    let ua = a as u32;
    let ub = b as u32;
    ua == ub || (65 <= ua && ua <= 90 && ua + 32 == ub) || (65 <= ub && ub <= 90 && ub + 32 == ua)
}

/// The fixed part of an expanded found pattern: everything before the
/// first open wildcard, which matches any remainder.
pub open spec fn found_prefix(e: Seq<char>) -> Seq<char>
    decreases e.len(),
{
    if e.len() == 0 {
        Seq::empty()
    } else if e[0] == '%' {
        Seq::empty()
    } else {
        seq![e[0]] + found_prefix(e.skip(1))
    }
}

/// A wildcard-free stretch of the pattern passes straight into the prefix.
proof fn lemma_found_prefix_split(e: Seq<char>, i: int)
    requires
        0 <= i <= e.len(),
        forall|j: int| 0 <= j < i ==> e[j] != '%',
    ensures
        found_prefix(e) == e.take(i) + found_prefix(e.skip(i)),
    decreases i,
{
    if i == 0 {
        assert(e.take(0) =~= Seq::<char>::empty());
        assert(e.skip(0) =~= e);
        assert(found_prefix(e) =~= e.take(0) + found_prefix(e.skip(0)));
    } else {
        lemma_found_prefix_split(e, i - 1);
        let s = e.skip(i - 1);
        assert(s[0] == e[i - 1]);
        assert(s[0] != '%');
        assert(s.skip(1) =~= e.skip(i));
        assert(found_prefix(s) == seq![s[0]] + found_prefix(e.skip(i)));
        assert(e.take(i) =~= e.take(i - 1) + seq![e[i - 1]]);
        assert(found_prefix(e) =~= e.take(i) + found_prefix(e.skip(i)));
    }
}

/// One pattern position of a found check: blanks accept anything, `/`
/// wants a space, a literal wants itself up to ASCII case.
pub open spec fn found_char_ok(wc: char, pc: char) -> bool {
    if pc == '_' || pc == '.' {
        true
    } else if pc == '/' {
        wc == ' '
    } else {
        eq_fold(wc, pc)
    }
}

/// Whether a word matches the expanded found pattern from its start: it
/// reaches at least the fixed prefix's length and agrees with it
/// position by position; anything may follow.
pub open spec fn found_match(w: Seq<char>, expanded: Seq<char>) -> bool {
    let p = found_prefix(expanded);
    w.len() >= p.len() && (forall|i: int| 0 <= i < p.len() ==> found_char_ok(#[trigger] w[i], p[i]))
}

/// Whether a word holds any whitespace (is a phrase).
pub open spec fn has_wspace(w: Seq<char>) -> bool {
    exists|i: int| 0 <= i < w.len() && is_wspace(#[trigger] w[i])
}

/// Whether the found filter keeps a word: phrases are dropped first when
/// asked, then the word must match the expanded pattern.
pub open spec fn found_keep(w: Seq<char>, expanded: Seq<char>, exclude_phrases: bool) -> bool {
    (!exclude_phrases || !has_wspace(w)) && found_match(w, expanded)
}

/// The fixed prefix of an expanded pattern: its characters up to the
/// first open wildcard.
fn compute_found_prefix(echars: &Vec<char>) -> (p: Vec<char>)
    ensures
        p@ == found_prefix(echars@),
{
    let e = Ghost(echars@);
    let mut prefix: Vec<char> = Vec::new();
    let mut i: usize = 0;
    while i < echars.len()
        invariant
            i <= echars@.len(),
            e@ == echars@,
            prefix@ == echars@.take(i as int),
            forall|j: int| 0 <= j < i ==> echars@[j] != '%',
        decreases echars@.len() - i,
    {
        if echars[i] == '%' {
            proof {
                lemma_found_prefix_split(e@, i as int);
                assert(e@.skip(i as int)[0] == '%');
                assert(found_prefix(e@.skip(i as int)) =~= Seq::<char>::empty());
                assert(prefix@ =~= found_prefix(e@));
            }
            return prefix;
        }
        prefix.push(echars[i]);
        i = i + 1;
        assert(prefix@ =~= echars@.take(i as int));
    }
    proof {
        lemma_found_prefix_split(e@, e@.len() as int);
        assert(e@.skip(e@.len() as int) =~= Seq::<char>::empty());
        assert(found_prefix(e@.skip(e@.len() as int)) =~= Seq::<char>::empty());
        assert(e@.take(e@.len() as int) =~= e@);
        assert(prefix@ =~= found_prefix(e@));
    }
    prefix
}

/// Whether one word holds any whitespace character.
fn word_has_wspace(wchars: &Vec<char>) -> (b: bool)
    ensures
        b == has_wspace(wchars@),
{
    let mut i: usize = 0;
    while i < wchars.len()
        invariant
            i <= wchars@.len(),
            forall|t: int| 0 <= t < i ==> !is_wspace(#[trigger] wchars@[t]),
        decreases wchars@.len() - i,
    {
        if char_is_wspace(wchars[i]) {
            return true;
        }
        i = i + 1;
    }
    false
}

/// Whether one word matches the fixed prefix of the expanded pattern.
fn word_found_match(wchars: &Vec<char>, prefix: &Vec<char>, ghost_expanded: Ghost<Seq<char>>) -> (b:
    bool)
    requires
        prefix@ == found_prefix(ghost_expanded@),
    ensures
        b == found_match(wchars@, ghost_expanded@),
{
    if wchars.len() < prefix.len() {
        return false;
    }
    let mut i: usize = 0;
    while i < prefix.len()
        invariant
            i <= prefix@.len(),
            wchars@.len() >= prefix@.len(),
            prefix@ == found_prefix(ghost_expanded@),
            forall|t: int| 0 <= t < i ==> found_char_ok(#[trigger] wchars@[t], prefix@[t]),
        decreases prefix@.len() - i,
    {
        let pc = prefix[i];
        let wc = wchars[i];
        let ok = if pc == '_' || pc == '.' {
            true
        } else if pc == '/' {
            wc == ' '
        } else {
            chars_eq_fold(wc, pc)
        };
        if !ok {
            return false;
        }
        i = i + 1;
    }
    true
}

/// Expand the found pattern's digit runs, then keep only the results that
/// match it from their first character; with `exclude_phrases` set, any
/// result holding whitespace is dropped first.
pub fn remove_found_mismatches(results: &Vec<String>, found: String, exclude_phrases: bool) -> (r:
    Vec<String>)
    requires
        spec_expand_numbers(found@).len() <= usize::MAX,
    ensures
        views(r@) == views(results@).filter(
            |w: Seq<char>| found_keep(w, spec_expand_numbers(found@), exclude_phrases),
        ),
{
    let expanded = expand_numbers(found.as_str());
    let echars = str_chars(expanded.as_str());
    let ghost e = spec_expand_numbers(found@);
    let prefix = compute_found_prefix(&echars);
    let ghost given = views(results@);
    let ghost pred = |w: Seq<char>| found_keep(w, e, exclude_phrases);
    let mut kept: Vec<String> = Vec::new();
    proof {
        reveal(Seq::filter);
        assert(given.take(0) =~= Seq::<Seq<char>>::empty());
        assert(views(kept@) =~= given.take(0).filter(pred));
    }
    let mut t: usize = 0;
    while t < results.len()
        invariant
            t <= results@.len(),
            given == views(results@),
            given.len() == results@.len(),
            prefix@ == found_prefix(e),
            pred == (|w: Seq<char>| found_keep(w, e, exclude_phrases)),
            views(kept@) == given.take(t as int).filter(pred),
        decreases results@.len() - t,
    {
        let wchars = str_chars(results[t].as_str());
        proof {
            assert(given[t as int] == results@[t as int]@);
            assert(given.take(t + 1) =~= given.take(t as int).push(given[t as int]));
            lemma_filter_push(given.take(t as int), given[t as int], pred);
        }
        let phrase_dropped = exclude_phrases && word_has_wspace(&wchars);
        if !phrase_dropped && word_found_match(&wchars, &prefix, Ghost(e)) {
            let ghost kpre = kept@;
            kept.push(results[t].clone());
            proof {
                assert(views(kept@) =~= views(kpre).push(given[t as int]));
            }
        }
        t = t + 1;
    }
    proof {
        assert(given.take(given.len() as int) =~= given);
    }
    kept
}

} // verus!
