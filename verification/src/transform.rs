//! Pure string transforms: numeric run-length expansion, reversal, and the
//! alternating-character ("regular") pattern extraction used for clue aids.
use vstd::prelude::*;

use crate::anagrams::strip_ws;
use crate::seqtools::lemma_filter_push;
use crate::text::{char_is_wspace, chars_contain, chars_string, is_wspace, str_chars, views};

verus! {

/// An ASCII digit.
pub open spec fn is_digit(c: char) -> bool {
    48 <= c as u32 <= 57
}

/// The value of an ASCII digit.
pub open spec fn digit_val(c: char) -> nat
    recommends
        is_digit(c),
{
    (c as u32 - 48) as nat
}

/// A run of `n` blank tokens.
pub open spec fn blanks(n: nat) -> Seq<char> {
    Seq::new(n, |i: int| '_')
}

/// In an expanded pattern a space becomes the `/` word boundary; other
/// non-digit characters pass through.
pub open spec fn expand_map_char(c: char) -> char {
    if c == ' ' {
        '/'
    } else {
        c
    }
}

/// The pending run value after reading one more digit. A run's leading
/// zeros carry no value.
pub open spec fn next_run(num: nat, c: char) -> nat {
    if num == 0 {
        digit_val(c)
    } else {
        num * 10 + digit_val(c)
    }
}

/// The expansion of the rest of a pattern, with `num` the value of the
/// digit run read so far: each maximal digit run becomes that many blanks,
/// a space becomes `/`, anything else passes through.
pub open spec fn expand_from(s: Seq<char>, num: nat) -> Seq<char>
    decreases s.len(),
{
    if s.len() == 0 {
        blanks(num)
    } else if is_digit(s[0]) {
        expand_from(s.skip(1), next_run(num, s[0]))
    } else {
        blanks(num) + seq![expand_map_char(s[0])] + expand_from(s.skip(1), 0)
    }
}

/// The numeric run-length expansion of a whole pattern.
pub open spec fn spec_expand_numbers(s: Seq<char>) -> Seq<char> {
    expand_from(s, 0)
}

/// An expansion is at least as long as its pending run of blanks.
proof fn lemma_expand_len(s: Seq<char>, num: nat)
    ensures
        expand_from(s, num).len() >= num,
    decreases s.len(),
{
    if s.len() == 0 {
    } else if is_digit(s[0]) {
        lemma_expand_len(s.skip(1), next_run(num, s[0]));
        assert(next_run(num, s[0]) >= num);
    } else {
        lemma_expand_len(s.skip(1), 0);
    }
}

/// Append `n` blank tokens.
fn push_blanks(v: &mut Vec<char>, n: usize)
    ensures
        final(v)@ == old(v)@ + blanks(n as nat),
{
    let mut k: usize = 0;
    while k < n
        invariant
            k <= n,
            v@ == old(v)@ + blanks(k as nat),
        decreases n - k,
    {
        v.push('_');
        k = k + 1;
        assert(v@ =~= old(v)@ + blanks(k as nat));
    }
}

/// Expand each maximal digit run of the pattern into that many blanks,
/// turn each space into the `/` word boundary, and pass every other
/// character through unchanged.
pub fn expand_numbers(search_string: &str) -> (r: String)
    requires
        spec_expand_numbers(search_string@).len() <= usize::MAX,
    ensures
        r@ == spec_expand_numbers(search_string@),
{
    let chars = str_chars(search_string);
    let ghost total = spec_expand_numbers(search_string@);
    let mut res: Vec<char> = Vec::new();
    let mut num: usize = 0;
    let mut i: usize = 0;
    proof {
        assert(chars@.skip(0) =~= chars@);
        assert(res@ + expand_from(chars@.skip(0), 0) =~= total);
    }
    while i < chars.len()
        invariant
            i <= chars@.len(),
            chars@ == search_string@,
            total == spec_expand_numbers(search_string@),
            total.len() <= usize::MAX,
            res@ + expand_from(chars@.skip(i as int), num as nat) == total,
        decreases chars@.len() - i,
    {
        let ghost suffix = chars@.skip(i as int);
        proof {
            assert(suffix[0] == chars@[i as int]);
            assert(suffix.skip(1) =~= chars@.skip(i + 1));
        }
        let c = chars[i];
        let u = c as u32;
        if 48 <= u && u <= 57 {
            let d = (u - 48) as usize;
            proof {
                assert(expand_from(suffix, num as nat) == expand_from(
                    chars@.skip(i + 1),
                    next_run(num as nat, c),
                ));
                lemma_expand_len(chars@.skip(i + 1), next_run(num as nat, c));
                assert(next_run(num as nat, c) <= total.len());
            }
            if num != 0 {
                num = num * 10 + d;
            } else {
                num = d;
            }
        } else {
            let ghost rpre = res@;
            let ghost n0 = num as nat;
            proof {
                assert(expand_from(suffix, n0) == blanks(n0) + seq![expand_map_char(c)]
                    + expand_from(chars@.skip(i + 1), 0));
            }
            push_blanks(&mut res, num);
            if c == ' ' {
                res.push('/');
            } else {
                res.push(c);
            }
            num = 0;
            proof {
                assert(res@ =~= rpre + blanks(n0) + seq![expand_map_char(c)]);
                assert(res@ + expand_from(chars@.skip(i + 1), 0) =~= total);
            }
        }
        i = i + 1;
    }
    proof {
        assert(chars@.skip(chars@.len() as int) =~= Seq::<char>::empty());
        assert(expand_from(Seq::<char>::empty(), num as nat) == blanks(num as nat));
    }
    push_blanks(&mut res, num);
    proof {
        assert(res@ =~= total);
    }
    chars_string(&res)
}

/// The search string with its characters in reverse order, as the single
/// entry of a result list.
pub fn reverse(search_string: &str) -> (r: Vec<String>)
    ensures
        r@.len() == 1,
        r@[0]@ == search_string@.reverse(),
{
    let chars = str_chars(search_string);
    let n = chars.len();
    let mut rev: Vec<char> = Vec::new();
    let mut i: usize = 0;
    while i < n
        invariant
            i <= n,
            n == chars@.len(),
            chars@ == search_string@,
            rev@.len() == i,
            forall|t: int| 0 <= t < i ==> rev@[t] == chars@[n - 1 - t],
        decreases n - i,
    {
        rev.push(chars[n - 1 - i]);
        i = i + 1;
    }
    proof {
        assert(rev@ =~= search_string@.reverse());
    }
    let word = chars_string(&rev);
    let mut results: Vec<String> = Vec::new();
    results.push(word);
    results
}

/// Strip every whitespace character out of the string, in place.
pub fn remove_whitespace(s: &mut String)
    ensures
        final(s)@ == strip_ws(old(s)@),
{
    let chars = str_chars(s.as_str());
    let mut kept: Vec<char> = Vec::new();
    proof {
        reveal(Seq::filter);
        assert(chars@.take(0) =~= Seq::<char>::empty());
        assert(kept@ =~= strip_ws(chars@.take(0)));
    }
    let mut i: usize = 0;
    while i < chars.len()
        invariant
            i <= chars@.len(),
            chars@ == old(s)@,
            kept@ == strip_ws(chars@.take(i as int)),
        decreases chars@.len() - i,
    {
        proof {
            assert(chars@.take(i + 1) =~= chars@.take(i as int).push(chars@[i as int]));
            lemma_filter_push(chars@.take(i as int), chars@[i as int], |c: char| !is_wspace(c));
        }
        if !char_is_wspace(chars[i]) {
            kept.push(chars[i]);
        }
        i = i + 1;
    }
    proof {
        assert(chars@.take(chars@.len() as int) =~= chars@);
    }
    *s = chars_string(&kept);
}

/// The characters of `s` standing at even positions, in order.
pub open spec fn evens(s: Seq<char>) -> Seq<char> {
    Seq::new(((s.len() + 1) / 2) as nat, |i: int| s[2 * i])
}

/// The characters of `s` standing at odd positions, in order.
pub open spec fn odds(s: Seq<char>) -> Seq<char> {
    Seq::new((s.len() / 2) as nat, |i: int| s[2 * i + 1])
}

/// The string the regular-pattern split partitions: whitespace stripped,
/// then optionally reversed.
pub open spec fn regular_base(s: Seq<char>, rev: bool) -> Seq<char> {
    if rev {
        strip_ws(s).reverse()
    } else {
        strip_ws(s)
    }
}

/// Split the search string's non-whitespace characters by index parity:
/// the first result holds the even positions, the second the odd ones,
/// each keeping relative order. With `rev` set the string is reversed
/// before the split.
pub fn regular_patterns(search_string: &str, rev: bool) -> (r: Vec<String>)
    ensures
        r@.len() == 2,
        r@[0]@ == evens(regular_base(search_string@, rev)),
        r@[1]@ == odds(regular_base(search_string@, rev)),
{
    let mut word: String = search_string.to_owned();
    remove_whitespace(&mut word);
    if rev {
        let mut reversed = reverse(word.as_str());
        word = reversed.pop().unwrap();
    }
    let base = str_chars(word.as_str());
    proof {
        assert(base@ == regular_base(search_string@, rev));
    }
    let mut word_evens: Vec<char> = Vec::new();
    let mut word_odds: Vec<char> = Vec::new();
    let mut i: usize = 0;
    while i < base.len()
        invariant
            i <= base@.len(),
            base@ == regular_base(search_string@, rev),
            word_evens@.len() == (i + 1) / 2,
            word_odds@.len() == i / 2,
            forall|t: int| 0 <= t < word_evens@.len() ==> word_evens@[t] == base@[2 * t],
            forall|t: int| 0 <= t < word_odds@.len() ==> word_odds@[t] == base@[2 * t + 1],
        decreases base@.len() - i,
    {
        if i % 2 == 0 {
            word_evens.push(base[i]);
        } else {
            word_odds.push(base[i]);
        }
        i = i + 1;
    }
    proof {
        assert(word_evens@ =~= evens(base@));
        assert(word_odds@ =~= odds(base@));
    }
    let mut results: Vec<String> = Vec::new();
    results.push(chars_string(&word_evens));
    results.push(chars_string(&word_odds));
    results
}

/// Whether every search letter occurs in `word`: the display layer's test
/// for highlighting a full anagram of the puzzle letters. Short words
/// never qualify.
pub open spec fn covers_letters(w: Seq<char>, letters: Seq<char>) -> bool {
    forall|j: int| 0 <= j < letters.len() ==> w.contains(#[trigger] letters[j])
}

/// Whether `word` is long enough and holds every letter of the search
/// string.
pub fn word_is_anagram(word: &str, search_string: &str) -> (b: bool)
    ensures
        b == (word@.len() >= 7 && covers_letters(word@, search_string@)),
{
    let wchars = str_chars(word);
    if wchars.len() < 7 {
        return false;
    }
    let schars = str_chars(search_string);
    let mut j: usize = 0;
    while j < schars.len()
        invariant
            j <= schars@.len(),
            wchars@ == word@,
            schars@ == search_string@,
            forall|t: int| 0 <= t < j ==> word@.contains(#[trigger] search_string@[t]),
        decreases schars@.len() - j,
    {
        if !chars_contain(&wchars, schars[j]) {
            return false;
        }
        j = j + 1;
    }
    true
}

} // verus!
