//! The positional lookup matcher: blanks, literals, an exclusion set, a
//! `/` word-boundary standing for a space, and an optional trailing open
//! wildcard `%`.
use vstd::prelude::*;

use crate::text::{chars_contain, str_chars, strings_contain, views};
use crate::PuzzleError;

verus! {

/// A `/` in a pattern stands for a literal space; other characters stand
/// for themselves.
pub open spec fn pat_char(c: char) -> char {
    if c == '/' {
        ' '
    } else {
        c
    }
}

/// Blanks match any single non-space candidate character.
pub open spec fn is_blank(c: char) -> bool {
    c == '_' || c == '.'
}

/// One pattern position accepts one candidate character when:
/// an excluded candidate character is rejected unless the pattern itself
/// places it there; a blank accepts anything but a space; a literal wants
/// exactly itself.
pub open spec fn position_ok(wc: char, pc: char, excl: Seq<char>) -> bool {
    let sc = pat_char(pc);
    if wc != sc && excl.contains(wc) {
        false
    } else if is_blank(sc) {
        wc != ' '
    } else {
        wc == sc
    }
}

/// Whether the pattern ends in the open wildcard.
pub open spec fn wildcard_pattern(pat: Seq<char>) -> bool {
    pat.len() > 0 && pat.last() == '%'
}

/// The open wildcard may stand only in the final position.
pub open spec fn wildcard_placement_ok(pat: Seq<char>) -> bool {
    forall|i: int| 0 <= i < pat.len() - 1 ==> pat[i] != '%'
}

/// The lookup matcher's rule for one candidate word. Without a wildcard,
/// lengths must agree and every position must accept. With a trailing
/// wildcard, only the fixed prefix is compared and the candidate may be
/// any length at least the prefix's; what follows the prefix is
/// unconstrained.
pub open spec fn pattern_matches(w: Seq<char>, pat: Seq<char>, excl: Seq<char>) -> bool {
    if wildcard_pattern(pat) {
        let p = pat.len() - 1;
        &&& w.len() >= p
        &&& (forall|i: int| 0 <= i < p ==> position_ok(#[trigger] w[i], pat[i], excl))
    } else {
        &&& w.len() == pat.len()
        &&& (forall|i: int| 0 <= i < w.len() ==> position_ok(#[trigger] w[i], pat[i], excl))
    }
}

/// An excluded letter never survives at a non-literal position: wherever a
/// matched word carries an excluded character inside the pattern's fixed
/// part, the pattern itself places exactly that character there. Exclusion
/// therefore only tolerates a letter the pattern explicitly names.
pub proof fn lemma_exclusion_respected(w: Seq<char>, pat: Seq<char>, excl: Seq<char>, i: int)
    requires
        pattern_matches(w, pat, excl),
        0 <= i < w.len(),
        i < pat.len(),
        wildcard_pattern(pat) ==> i < pat.len() - 1,
        excl.contains(w[i]),
    ensures
        w[i] == pat_char(pat[i]),
{
    assert(position_ok(w[i], pat[i], excl));
}

/// Check that an open wildcard, if present, stands only at the end.
pub fn validate_wildcard(search_string: &str) -> (r: Result<(), PuzzleError>)
    ensures
        r is Ok <==> wildcard_placement_ok(search_string@),
        r is Err ==> r->Err_0 == PuzzleError::InvalidWildcardPlacement,
{
    let chars = str_chars(search_string);
    let n = chars.len();
    if n == 0 {
        return Ok(());
    }
    let mut i: usize = 0;
    while i < n - 1
        invariant
            n == chars@.len(),
            chars@ == search_string@,
            n >= 1,
            i <= n - 1,
            forall|j: int| 0 <= j < i ==> chars@[j] != '%',
        decreases n - 1 - i,
    {
        if chars[i] == '%' {
            return Err(PuzzleError::InvalidWildcardPlacement);
        }
        i = i + 1;
    }
    Ok(())
}

/// Runtime check for [`position_ok`].
fn check_position(wc: char, pc: char, excl: &Vec<char>) -> (b: bool)
    ensures
        b == position_ok(wc, pc, excl@),
{
    let sc = if pc == '/' {
        ' '
    } else {
        pc
    };
    if wc != sc && chars_contain(excl, wc) {
        false
    } else if sc == '_' || sc == '.' {
        wc != ' '
    } else {
        wc == sc
    }
}

/// Runtime check for [`pattern_matches`] on one candidate word.
fn word_matches(w: &Vec<char>, pat: &Vec<char>, excl: &Vec<char>) -> (b: bool)
    ensures
        b == pattern_matches(w@, pat@, excl@),
{
    let plen = pat.len();
    if plen > 0 && pat[plen - 1] == '%' {
        let p = plen - 1;
        if w.len() < p {
            return false;
        }
        let mut i: usize = 0;
        while i < p
            invariant
                i <= p,
                p == pat@.len() - 1,
                w@.len() >= p,
                forall|t: int| 0 <= t < i ==> position_ok(#[trigger] w@[t], pat@[t], excl@),
            decreases p - i,
        {
            if !check_position(w[i], pat[i], excl) {
                return false;
            }
            i = i + 1;
        }
        true
    } else {
        if w.len() != plen {
            return false;
        }
        let mut i: usize = 0;
        while i < plen
            invariant
                i <= plen,
                plen == pat@.len(),
                w@.len() == plen,
                !wildcard_pattern(pat@),
                forall|t: int| 0 <= t < i ==> position_ok(#[trigger] w@[t], pat@[t], excl@),
            decreases plen - i,
        {
            if !check_position(w[i], pat[i], excl) {
                return false;
            }
            i = i + 1;
        }
        true
    }
}

/// All corpus words accepted by the pattern under the exclusion set, as a
/// set: each accepted word once, every accepted word present.
pub fn lookup(search_string: &str, word_list: &Vec<String>, exclude: &str) -> (r: Vec<String>)
    requires
        wildcard_placement_ok(search_string@),
    ensures
        forall|a: int, b: int| 0 <= a < b < r@.len() ==> views(r@)[a] != views(r@)[b],
        forall|j: int|
            0 <= j < r@.len() ==> pattern_matches(
                #[trigger] views(r@)[j],
                search_string@,
                exclude@,
            ) && views(word_list@).contains(views(r@)[j]),
        forall|i: int|
            0 <= i < word_list@.len() && pattern_matches(
                #[trigger] views(word_list@)[i],
                search_string@,
                exclude@,
            ) ==> views(r@).contains(views(word_list@)[i]),
{
    let pat = str_chars(search_string);
    let excl = str_chars(exclude);
    let mut results: Vec<String> = Vec::new();
    let ghost corpus = views(word_list@);
    let mut i: usize = 0;
    while i < word_list.len()
        invariant
            i <= word_list@.len(),
            pat@ == search_string@,
            excl@ == exclude@,
            corpus == views(word_list@),
            corpus.len() == word_list@.len(),
            forall|a: int, b: int| 0 <= a < b < results@.len() ==> views(results@)[a] != views(
                results@,
            )[b],
            forall|j: int|
                0 <= j < results@.len() ==> pattern_matches(
                    #[trigger] views(results@)[j],
                    search_string@,
                    exclude@,
                ) && corpus.contains(views(results@)[j]),
            forall|t: int|
                0 <= t < i && pattern_matches(#[trigger] corpus[t], search_string@, exclude@)
                    ==> views(results@).contains(corpus[t]),
        decreases word_list@.len() - i,
    {
        let wchars = str_chars(word_list[i].as_str());
        proof {
            assert(corpus[i as int] == word_list@[i as int]@);
        }
        if word_matches(&wchars, &pat, &excl) {
            if !strings_contain(&results, &word_list[i]) {
                let ghost rpre = results@;
                results.push(word_list[i].clone());
                proof {
                    assert(views(results@) =~= views(rpre).push(corpus[i as int]));
                    assert(views(results@)[rpre.len() as int] == corpus[i as int]);
                    assert forall|t: int|
                        0 <= t < i + 1 && pattern_matches(
                            #[trigger] corpus[t],
                            search_string@,
                            exclude@,
                        ) implies views(results@).contains(corpus[t]) by {
                        if t < i {
                            let j = choose|j: int|
                                0 <= j < rpre.len() && views(rpre)[j] == corpus[t];
                            assert(views(results@)[j] == corpus[t]);
                        }
                    }
                }
            } else {
                proof {
                    assert(views(results@).contains(corpus[i as int]));
                }
            }
        }
        i = i + 1;
    }
    results
}

} // verus!
