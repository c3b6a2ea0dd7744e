//! The Wordle solver: green letters are positional literals handled by the
//! lookup matcher; yellow letters must then be found somewhere outside the
//! green positions.
use vstd::prelude::*;

use crate::matcher::{lookup, pattern_matches, wildcard_pattern, wildcard_placement_ok};
use crate::text::{chars_contain, str_chars, views};

verus! {

/// An ASCII letter.
pub open spec fn is_ascii_alpha(c: char) -> bool {
    (97 <= c as u32 <= 122) || (65 <= c as u32 <= 90)
}

/// Runtime check for [`is_ascii_alpha`].
fn char_is_ascii_alpha(c: char) -> (b: bool)
    ensures
        b == is_ascii_alpha(c),
{
    let u = c as u32;
    (97 <= u && u <= 122) || (65 <= u && u <= 90)
}

/// The candidate with every position aligned to a green (letter) pattern
/// position replaced by a neutral mark, hiding it from the yellow check.
pub open spec fn masked(w: Seq<char>, pat: Seq<char>) -> Seq<char> {
    Seq::new(
        w.len(),
        |i: int|
            if i < 5 && i < pat.len() && is_ascii_alpha(pat[i]) {
                '.'
            } else {
                w[i]
            },
    )
}

/// Every yellow letter occurs in the candidate at some position not
/// already claimed by a green pattern letter. Presence is per distinct
/// letter: a yellow letter named twice is not required to occur twice.
pub open spec fn yellow_ok(w: Seq<char>, pat: Seq<char>, yellow: Seq<char>) -> bool {
    forall|j: int| 0 <= j < yellow.len() ==> masked(w, pat).contains(#[trigger] yellow[j])
}

/// Whether a word survives both Wordle stages: the green/exclusion lookup
/// and the yellow presence check.
pub open spec fn wordle_match(w: Seq<char>, pat: Seq<char>, excl: Seq<char>, incl: Seq<char>) -> bool {
    pattern_matches(w, pat, excl) && yellow_ok(w, pat, incl)
}

/// Check that each yellow letter still occurs in `w` after the positions
/// green in `search_string` are masked out.
pub fn check_yellow_letters_exist(w: &str, search_string: &str, yellow_letters: &str) -> (r: bool)
    requires
        w@.len() >= 5,
        search_string@.len() >= 5,
    ensures
        r == yellow_ok(w@, search_string@, yellow_letters@),
{
    let wchars = str_chars(w);
    let pchars = str_chars(search_string);
    let mut masked_w: Vec<char> = Vec::new();
    let mut i: usize = 0;
    while i < wchars.len()
        invariant
            i <= wchars@.len(),
            wchars@ == w@,
            pchars@ == search_string@,
            search_string@.len() >= 5,
            masked_w@ == masked(w@, search_string@).take(i as int),
        decreases wchars@.len() - i,
    {
        if i < 5 && char_is_ascii_alpha(pchars[i]) {
            masked_w.push('.');
        } else {
            masked_w.push(wchars[i]);
        }
        i = i + 1;
        assert(masked_w@ =~= masked(w@, search_string@).take(i as int));
    }
    proof {
        assert(masked(w@, search_string@).take(w@.len() as int) =~= masked(w@, search_string@));
    }
    let ychars = str_chars(yellow_letters);
    let mut j: usize = 0;
    while j < ychars.len()
        invariant
            j <= ychars@.len(),
            ychars@ == yellow_letters@,
            masked_w@ == masked(w@, search_string@),
            forall|t: int| 0 <= t < j ==> masked(w@, search_string@).contains(
                #[trigger] yellow_letters@[t],
            ),
        decreases ychars@.len() - j,
    {
        if !chars_contain(&masked_w, ychars[j]) {
            return false;
        }
        j = j + 1;
    }
    true
}

/// The Wordle solver: all corpus words consistent with the green pattern,
/// the grey (excluded) letters and the yellow (included) letters, as a set.
pub fn wordle(search_string: &str, word_list: &Vec<String>, exclude: &str, included: &str) -> (r:
    Vec<String>)
    requires
        search_string@.len() == 5,
        !wildcard_pattern(search_string@),
        wildcard_placement_ok(search_string@),
    ensures
        forall|a: int, b: int| 0 <= a < b < r@.len() ==> views(r@)[a] != views(r@)[b],
        forall|j: int|
            0 <= j < r@.len() ==> wordle_match(
                #[trigger] views(r@)[j],
                search_string@,
                exclude@,
                included@,
            ) && views(word_list@).contains(views(r@)[j]),
        forall|i: int|
            0 <= i < word_list@.len() && wordle_match(
                #[trigger] views(word_list@)[i],
                search_string@,
                exclude@,
                included@,
            ) ==> views(r@).contains(views(word_list@)[i]),
{
    let results = lookup(search_string, word_list, exclude);
    let ghost lr = views(results@);
    let mut matches: Vec<String> = Vec::new();
    let mut j: usize = 0;
    while j < results.len()
        invariant
            j <= results@.len(),
            lr == views(results@),
            lr.len() == results@.len(),
            search_string@.len() == 5,
            !wildcard_pattern(search_string@),
            forall|a: int, b: int| 0 <= a < b < lr.len() ==> lr[a] != lr[b],
            forall|t: int|
                0 <= t < lr.len() ==> pattern_matches(#[trigger] lr[t], search_string@, exclude@)
                    && views(word_list@).contains(lr[t]),
            forall|a: int, b: int| 0 <= a < b < matches@.len() ==> views(matches@)[a] != views(
                matches@,
            )[b],
            forall|t: int|
                0 <= t < matches@.len() ==> exists|s: int|
                    0 <= s < j && lr[s] == #[trigger] views(matches@)[t],
            forall|t: int|
                0 <= t < matches@.len() ==> wordle_match(
                    #[trigger] views(matches@)[t],
                    search_string@,
                    exclude@,
                    included@,
                ) && views(word_list@).contains(views(matches@)[t]),
            forall|s: int|
                0 <= s < j && yellow_ok(#[trigger] lr[s], search_string@, included@) ==> views(
                    matches@,
                ).contains(lr[s]),
        decreases results@.len() - j,
    {
        proof {
            assert(lr[j as int] == results@[j as int]@);
            assert(pattern_matches(lr[j as int], search_string@, exclude@));
            assert(lr[j as int].len() == 5);
        }
        if check_yellow_letters_exist(results[j].as_str(), search_string, included) {
            let ghost mpre = matches@;
            matches.push(results[j].clone());
            proof {
                assert(views(matches@) =~= views(mpre).push(lr[j as int]));
                assert(views(matches@)[mpre.len() as int] == lr[j as int]);
                assert forall|a: int, b: int|
                    0 <= a < b < matches@.len() implies views(matches@)[a] != views(
                    matches@,
                )[b] by {
                    if b == matches@.len() - 1 {
                        let s = choose|s: int| 0 <= s < j && lr[s] == views(mpre)[a];
                        assert(lr[s] != lr[j as int]);
                    }
                }
                assert forall|s: int|
                    0 <= s < j + 1 && yellow_ok(
                        #[trigger] lr[s],
                        search_string@,
                        included@,
                    ) implies views(matches@).contains(lr[s]) by {
                    if s < j {
                        let t = choose|t: int| 0 <= t < mpre.len() && views(mpre)[t] == lr[s];
                        assert(views(matches@)[t] == lr[s]);
                    }
                }
            }
        }
        j = j + 1;
    }
    proof {
        assert forall|i: int|
            0 <= i < word_list@.len() && wordle_match(
                #[trigger] views(word_list@)[i],
                search_string@,
                exclude@,
                included@,
            ) implies views(matches@).contains(views(word_list@)[i]) by {
            let w = views(word_list@)[i];
            assert(views(results@).contains(w));
            let s = choose|s: int| 0 <= s < lr.len() && lr[s] == w;
            assert(yellow_ok(lr[s], search_string@, included@));
        }
    }
    matches
}

} // verus!
