//! The panagram solver: from a nine-letter set whose first letter is
//! mandatory, form every anagram key of the mandatory letter plus three to
//! eight of the remaining letters, and read all matching words out of the
//! anagram index. Working in sorted key space collapses the permutation
//! space to one key per letter selection.
use vstd::prelude::*;
use vstd::seq_lib::lemma_multiset_commutative;

use crate::anagrams::{anagram_key, sort_word};
use crate::index::{push_bucket_words, AnagramIndex};
use crate::seqtools::{lemma_empty_to_multiset, lemma_filter_equiv, lemma_filter_none,
    lemma_filter_split};
use crate::text::{chars_string, str_chars, strings_contain, views};

verus! {

/// The letters of `rest` selected by the set bits of `m`, in order.
pub open spec fn mask_select(rest: Seq<char>, m: nat) -> Seq<char>
    decreases rest.len(),
{
    if rest.len() == 0 {
        Seq::empty()
    } else {
        (if m % 2 == 1 {
            seq![rest[0]]
        } else {
            Seq::empty()
        }) + mask_select(rest.skip(1), m / 2)
    }
}

/// The candidate anagram keys of a panagram puzzle: the mandatory first
/// letter together with any selection of at least three of the eight
/// remaining letters, in canonical key form.
pub open spec fn panagram_keys(letters: Seq<char>) -> Set<Seq<char>> {
    Set::new(
        |k: Seq<char>|
            exists|m: nat|
                m < 256 && #[trigger] mask_select(letters.skip(1), m).len() >= 3 && k
                    == anagram_key(seq![letters[0]] + mask_select(letters.skip(1), m)),
    )
}

/// Whether a word is an answer to the panagram puzzle: its anagram key is
/// one of the puzzle's candidate keys.
pub open spec fn is_panagram_word(w: Seq<char>, letters: Seq<char>) -> bool {
    panagram_keys(letters).contains(anagram_key(w))
}

/// The letters of `rest` selected by the set bits of `mask`.
fn select_by_mask(rest: &Vec<char>, mask: usize) -> (sel: Vec<char>)
    ensures
        sel@ == mask_select(rest@, mask as nat),
{
    let mut sel: Vec<char> = Vec::new();
    let mut m: usize = mask;
    let mut i: usize = 0;
    proof {
        assert(rest@.skip(0) =~= rest@);
        assert(sel@ + mask_select(rest@.skip(0), mask as nat) =~= mask_select(rest@, mask as nat));
    }
    while i < rest.len()
        invariant
            i <= rest@.len(),
            sel@ + mask_select(rest@.skip(i as int), m as nat) == mask_select(rest@, mask as nat),
        decreases rest@.len() - i,
    {
        let ghost suffix = rest@.skip(i as int);
        proof {
            assert(suffix[0] == rest@[i as int]);
            assert(suffix.skip(1) =~= rest@.skip(i + 1));
        }
        let ghost spre = sel@;
        if m % 2 == 1 {
            sel.push(rest[i]);
            proof {
                assert(sel@ =~= spre + seq![rest@[i as int]]);
            }
        }
        m = m / 2;
        i = i + 1;
        proof {
            assert(sel@ + mask_select(rest@.skip(i as int), m as nat) =~= mask_select(
                rest@,
                mask as nat,
            ));
        }
    }
    proof {
        assert(rest@.skip(rest@.len() as int) =~= Seq::<char>::empty());
        assert(mask_select(Seq::<char>::empty(), m as nat) =~= Seq::<char>::empty());
        assert(sel@ =~= mask_select(rest@, mask as nat));
    }
    sel
}

/// The distinct candidate keys of the puzzle, as strings: one for every
/// selection of at least three of the eight non-mandatory letters.
fn panagram_key_list(chars: &Vec<char>) -> (keys: Vec<String>)
    requires
        chars@.len() == 9,
    ensures
        forall|a: int, b: int| 0 <= a < b < keys@.len() ==> views(keys@)[a] != views(keys@)[b],
        forall|k: Seq<char>| views(keys@).contains(k) <==> panagram_keys(chars@).contains(k),
{
    let required = chars[0];
    let mut rest: Vec<char> = Vec::new();
    let mut i: usize = 1;
    while i < 9
        invariant
            1 <= i <= 9,
            chars@.len() == 9,
            rest@ == chars@.skip(1).take(i - 1),
        decreases 9 - i,
    {
        rest.push(chars[i]);
        i = i + 1;
        assert(rest@ =~= chars@.skip(1).take(i - 1));
    }
    proof {
        assert(rest@ =~= chars@.skip(1));
    }
    let ghost letters = chars@;
    let mut keys: Vec<String> = Vec::new();
    let mut mask: usize = 0;
    while mask < 256
        invariant
            mask <= 256,
            rest@ == letters.skip(1),
            letters == chars@,
            letters.len() == 9,
            chars@[0] == required,
            forall|a: int, b: int| 0 <= a < b < keys@.len() ==> views(keys@)[a] != views(keys@)[b],
            forall|t: int|
                0 <= t < keys@.len() ==> panagram_keys(letters).contains(
                    #[trigger] views(keys@)[t],
                ),
            forall|m: nat|
                m < mask && #[trigger] mask_select(letters.skip(1), m).len() >= 3 ==> views(
                    keys@,
                ).contains(anagram_key(seq![letters[0]] + mask_select(letters.skip(1), m))),
        decreases 256 - mask,
    {
        let sel = select_by_mask(&rest, mask);
        if sel.len() >= 3 {
            let mut cand: Vec<char> = Vec::new();
            cand.push(required);
            let mut t: usize = 0;
            while t < sel.len()
                invariant
                    t <= sel@.len(),
                    chars@[0] == required,
                    letters == chars@,
                    letters.len() == 9,
                    cand@ == seq![letters[0]] + sel@.take(t as int),
                decreases sel@.len() - t,
            {
                cand.push(sel[t]);
                t = t + 1;
                assert(cand@ =~= seq![letters[0]] + sel@.take(t as int));
            }
            proof {
                assert(cand@ =~= seq![letters[0]] + sel@);
            }
            let cand_str = chars_string(&cand);
            let key = sort_word(cand_str.as_str());
            proof {
                assert(key@ == anagram_key(seq![letters[0]] + mask_select(
                    letters.skip(1),
                    mask as nat,
                )));
                assert(panagram_keys(letters).contains(key@));
            }
            if !strings_contain(&keys, &key) {
                let ghost kpre = keys@;
                keys.push(key);
                proof {
                    assert(views(keys@) =~= views(kpre).push(
                        anagram_key(seq![letters[0]] + mask_select(letters.skip(1), mask as nat)),
                    ));
                    assert forall|a: int, b: int|
                        0 <= a < b < keys@.len() implies views(keys@)[a] != views(keys@)[b] by {
                        if b < keys@.len() - 1 {
                            assert(views(kpre)[a] != views(kpre)[b]);
                        } else {
                            assert(!views(kpre).contains(views(keys@)[b]));
                        }
                    }
                    assert forall|m: nat|
                        m < mask + 1 && #[trigger] mask_select(letters.skip(1), m).len()
                            >= 3 implies views(keys@).contains(
                        anagram_key(seq![letters[0]] + mask_select(letters.skip(1), m)),
                    ) by {
                        let kk = anagram_key(seq![letters[0]] + mask_select(letters.skip(1), m));
                        if m < mask {
                            let j = choose|j: int|
                                0 <= j < views(kpre).len() && views(kpre)[j] == kk;
                            assert(views(keys@)[j] == kk);
                        } else {
                            assert(views(keys@)[keys@.len() - 1] == kk);
                        }
                    }
                }
            } else {
                proof {
                    assert forall|m: nat|
                        m < mask + 1 && #[trigger] mask_select(letters.skip(1), m).len()
                            >= 3 implies views(keys@).contains(
                        anagram_key(seq![letters[0]] + mask_select(letters.skip(1), m)),
                    ) by {}
                }
            }
        }
        mask = mask + 1;
    }
    proof {
        assert forall|k: Seq<char>| views(keys@).contains(k) <==> panagram_keys(
            chars@,
        ).contains(k) by {
            if views(keys@).contains(k) {
                let j = choose|j: int| 0 <= j < views(keys@).len() && views(keys@)[j] == k;
                assert(panagram_keys(letters).contains(views(keys@)[j]));
            }
            if panagram_keys(chars@).contains(k) {
                let m = choose|m: nat|
                    m < 256 && #[trigger] mask_select(letters.skip(1), m).len() >= 3 && k
                        == anagram_key(seq![letters[0]] + mask_select(letters.skip(1), m));
                assert(views(keys@).contains(
                    anagram_key(seq![letters[0]] + mask_select(letters.skip(1), m)),
                ));
            }
        }
    }
    keys
}

/// The panagram solver: every corpus word, with multiplicity, whose
/// anagram key is formed from the mandatory first letter and three to
/// eight of the remaining letters. Order among the results is not pinned;
/// the collection of words is.
pub fn panagram(search_string: &str, word_list: &Vec<String>, anagrams: &AnagramIndex) -> (r: Vec<
    String,
>)
    requires
        search_string@.len() == 9,
        anagrams.represents(views(word_list@)),
    ensures
        views(r@).to_multiset() == views(word_list@).filter(
            |w: Seq<char>| is_panagram_word(w, search_string@),
        ).to_multiset(),
{
    let chars = str_chars(search_string);
    let keys = panagram_key_list(&chars);
    let ghost corpus = views(word_list@);
    let ghost kv = views(keys@);
    let mut results: Vec<String> = Vec::new();
    proof {
        lemma_empty_to_multiset::<Seq<char>>();
        assert(kv.take(0) =~= Seq::<Seq<char>>::empty());
        lemma_filter_none(corpus, |w: Seq<char>| kv.take(0).contains(anagram_key(w)));
        assert(views(results@) =~= Seq::<Seq<char>>::empty());
    }
    let mut ki: usize = 0;
    while ki < keys.len()
        invariant
            ki <= keys@.len(),
            kv == views(keys@),
            kv.len() == keys@.len(),
            corpus == views(word_list@),
            anagrams.represents(corpus),
            forall|a: int, b: int| 0 <= a < b < kv.len() ==> kv[a] != kv[b],
            views(results@).to_multiset() == corpus.filter(
                |w: Seq<char>| kv.take(ki as int).contains(anagram_key(w)),
            ).to_multiset(),
        decreases keys@.len() - ki,
    {
        let ghost rpre = results@;
        let ghost k = kv[ki as int];
        proof {
            assert(kv[ki as int] == keys@[ki as int]@);
        }
        push_bucket_words(&mut results, word_list, anagrams, &keys[ki]);
        proof {
            let p = |w: Seq<char>| kv.take(ki as int).contains(anagram_key(w));
            let q = |w: Seq<char>| anagram_key(w) == k;
            let r2 = |w: Seq<char>| kv.take(ki + 1).contains(anagram_key(w));
            assert(kv.take(ki + 1) =~= kv.take(ki as int).push(k));
            assert forall|w: Seq<char>| #[trigger] r2(w) == (p(w) || q(w)) by {
                let t = kv.take(ki + 1);
                if r2(w) {
                    let j = choose|j: int| 0 <= j < t.len() && t[j] == anagram_key(w);
                    if j < ki as int {
                        assert(kv.take(ki as int)[j] == anagram_key(w));
                    }
                }
                if p(w) {
                    let j = choose|j: int|
                        0 <= j < kv.take(ki as int).len() && kv.take(ki as int)[j] == anagram_key(
                            w,
                        );
                    assert(t[j] == anagram_key(w));
                }
                if q(w) {
                    assert(t[ki as int] == anagram_key(w));
                }
            }
            assert forall|w: Seq<char>| !(#[trigger] p(w) && q(w)) by {
                if p(w) && q(w) {
                    let j = choose|j: int|
                        0 <= j < kv.take(ki as int).len() && kv.take(ki as int)[j] == anagram_key(
                            w,
                        );
                    assert(kv[j] == kv[ki as int]);
                }
            }
            lemma_filter_split(corpus, p, q, r2);
            lemma_multiset_commutative(views(rpre), corpus.filter(q));
            assert(views(results@) == views(rpre) + corpus.filter(q));
            assert(views(results@).to_multiset() =~= corpus.filter(r2).to_multiset());
        }
        ki = ki + 1;
    }
    proof {
        assert(kv.take(kv.len() as int) =~= kv);
        let pall = |w: Seq<char>| kv.contains(anagram_key(w));
        let ppan = |w: Seq<char>| is_panagram_word(w, search_string@);
        assert forall|w: Seq<char>| #[trigger] pall(w) == ppan(w) by {
            assert(kv.contains(anagram_key(w)) <==> panagram_keys(search_string@).contains(
                anagram_key(w),
            ));
        }
        lemma_filter_equiv(corpus, pall, ppan);
    }
    results
}

} // verus!
