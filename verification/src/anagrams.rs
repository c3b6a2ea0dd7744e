//! Anagram keys: the whitespace-stripped, character-sorted form of a word.
//! Two words share a key exactly when they are anagrams of each other.
use vstd::prelude::*;
use vstd::relations::{sorted_by, total_ordering};
use vstd::seq_lib::lemma_sorted_unique;

use crate::seqtools::{lemma_filter_multiset, lemma_filter_push, lemma_insert_multiset};
use crate::text::{char_is_wspace, chars_string, is_wspace, str_chars};

verus! {

/// Character order used for anagram keys: by code point.
pub open spec fn char_le(a: char, b: char) -> bool {
    (a as u32) <= (b as u32)
}

/// The character order as a relation value.
pub open spec fn char_le_fn() -> spec_fn(char, char) -> bool {
    |a: char, b: char| char_le(a, b)
}

/// Code-point order on characters is a total order.
pub proof fn lemma_char_le_total()
    ensures
        total_ordering(char_le_fn()),
{
    let leq = char_le_fn();
    assert(vstd::relations::reflexive(leq)) by {
        assert(forall|x: char| #[trigger] leq(x, x));
    }
    assert(vstd::relations::transitive(leq)) by {
        assert(forall|x: char, y: char, z: char|
            #[trigger] leq(x, y) && #[trigger] leq(y, z) ==> leq(x, z));
    }
    assert(vstd::relations::antisymmetric(leq)) by {
        assert forall|x: char, y: char| #[trigger] leq(x, y) && #[trigger] leq(y, x) implies x
            == y by {
            assert((x as u32) == (y as u32));
            vstd::utf8::char_u32_cast(x, x as u32);
            vstd::utf8::char_u32_cast(y, y as u32);
        }
    }
    assert(vstd::relations::strongly_connected(leq)) by {
        assert(forall|x: char, y: char| #[trigger] leq(x, y) || #[trigger] leq(y, x));
    }
}

/// `s` without its whitespace characters.
pub open spec fn strip_ws(s: Seq<char>) -> Seq<char> {
    s.filter(|c: char| !is_wspace(c))
}

/// The anagram key of a word: its non-whitespace characters in sorted order.
pub open spec fn anagram_key(s: Seq<char>) -> Seq<char> {
    strip_ws(s).sort_by(char_le_fn())
}

/// Insert `c` into a sorted character vector, keeping it sorted.
fn sorted_insert(v: &mut Vec<char>, c: char)
    requires
        sorted_by(old(v)@, char_le_fn()),
    ensures
        sorted_by(final(v)@, char_le_fn()),
        final(v)@.to_multiset() == old(v)@.to_multiset().insert(c),
{
    let mut i: usize = 0;
    while i < v.len() && (v[i] as u32) <= (c as u32)
        invariant
            i <= v@.len(),
            sorted_by(v@, char_le_fn()),
            forall|j: int| 0 <= j < i ==> char_le(v@[j], c),
        decreases v@.len() - i,
    {
        i = i + 1;
    }
    let ghost s = v@;
    proof {
        lemma_insert_multiset(v@, i as int, c);
    }
    v.insert(i, c);
    proof {
        assert(v@ == s.insert(i as int, c));
        s.insert_ensures(i as int, c);
        assert forall|x: int, y: int| 0 <= x < y < s.len() implies char_le(s[x], s[y]) by {
            assert(char_le_fn()(s[x], s[y]));
        }
        let t = v@;
        assert forall|x: int, y: int| 0 <= x < y < t.len() implies char_le_fn()(t[x], t[y]) by {
            let ii = i as int;
            if x == ii && y > ii {
                assert(t[y] == s[y - 1]);
                assert(i < s.len());
                assert(!char_le(s[ii], c));
                assert(char_le(c, s[ii]));
                if y - 1 > ii {
                    assert(char_le(s[ii], s[y - 1]));
                }
                assert(char_le(c, s[y - 1]));
            } else if x < ii && y == ii {
                assert(char_le(t[x], c));
            } else if x < ii && y > ii {
                assert(t[x] == s[x] && t[y] == s[y - 1]);
                assert(char_le(s[x], c));
                if x < y - 1 {
                    assert(char_le(s[x], s[y - 1]));
                }
            } else if y < ii {
                assert(t[x] == s[x] && t[y] == s[y]);
            } else if x > ii {
                assert(t[x] == s[x - 1] && t[y] == s[y - 1]);
            }
            assert(char_le(t[x], t[y]));
        }
    }
}

/// The non-whitespace characters of `word`, sorted by code point: the
/// word's anagram key as an owned string.
pub fn sort_word(word: &str) -> (r: String)
    ensures
        r@ == anagram_key(word@),
{
    let chars = str_chars(word);
    let mut sorted: Vec<char> = Vec::new();
    proof {
        reveal(Seq::filter);
        crate::seqtools::lemma_empty_to_multiset::<char>();
        assert(chars@.take(0) =~= Seq::<char>::empty());
    }
    let mut i: usize = 0;
    while i < chars.len()
        invariant
            i <= chars@.len(),
            sorted_by(sorted@, char_le_fn()),
            sorted@.to_multiset() == strip_ws(chars@.take(i as int)).to_multiset(),
        decreases chars@.len() - i,
    {
        let ghost pre = chars@.take(i as int);
        proof {
            assert(chars@.take(i + 1) =~= pre.push(chars@[i as int]));
            lemma_filter_push(pre, chars@[i as int], |c: char| !is_wspace(c));
            strip_ws(pre).to_multiset_ensures();
        }
        if !char_is_wspace(chars[i]) {
            sorted_insert(&mut sorted, chars[i]);
        }
        i = i + 1;
    }
    proof {
        assert(chars@.take(chars@.len() as int) =~= chars@);
        let key = anagram_key(word@);
        lemma_char_le_total();
        strip_ws(word@).lemma_sort_by_ensures(char_le_fn());
        lemma_sorted_unique(sorted@, key, char_le_fn());
    }
    chars_string(&sorted)
}

/// Two words have the same anagram key exactly when they are anagrams:
/// when their non-whitespace characters form the same multiset.
pub proof fn lemma_anagram_key_iff(w1: Seq<char>, w2: Seq<char>)
    ensures
        anagram_key(w1) == anagram_key(w2) <==> strip_ws(w1).to_multiset() == strip_ws(
            w2,
        ).to_multiset(),
{
    lemma_char_le_total();
    strip_ws(w1).lemma_sort_by_ensures(char_le_fn());
    strip_ws(w2).lemma_sort_by_ensures(char_le_fn());
    if strip_ws(w1).to_multiset() == strip_ws(w2).to_multiset() {
        lemma_sorted_unique(anagram_key(w1), anagram_key(w2), char_le_fn());
    }
}

/// Permuting a word's characters, whitespace ignored, leaves its anagram
/// key unchanged.
pub proof fn lemma_anagram_key_permutation(w1: Seq<char>, w2: Seq<char>)
    requires
        w1.to_multiset() == w2.to_multiset(),
    ensures
        anagram_key(w1) == anagram_key(w2),
{
    lemma_filter_multiset(w1, w2, |c: char| !is_wspace(c));
    lemma_anagram_key_iff(w1, w2);
}

} // verus!
