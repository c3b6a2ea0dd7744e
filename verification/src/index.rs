//! The anagram index: maps each anagram key to the ordered list of corpus
//! positions whose word reduces to that key. Built once from a corpus and
//! read by the anagram and panagram solvers.
use vstd::prelude::*;

use crate::anagrams::{anagram_key, sort_word};
use crate::text::views;

verus! {

/// The positions of `words`, in increasing order, whose anagram key is `k`.
pub open spec fn key_positions(words: Seq<Seq<char>>, k: Seq<char>) -> Seq<usize>
    decreases words.len(),
{
    if words.len() == 0 {
        Seq::empty()
    } else {
        key_positions(words.drop_last(), k) + if anagram_key(words.last()) == k {
            seq![(words.len() - 1) as usize]
        } else {
            Seq::empty()
        }
    }
}

/// Every position recorded for a key lies inside the corpus.
pub proof fn lemma_key_positions_bounds(words: Seq<Seq<char>>, k: Seq<char>)
    requires
        words.len() <= usize::MAX,
    ensures
        forall|j: int|
            0 <= j < key_positions(words, k).len() ==> #[trigger] key_positions(words, k)[j]
                < words.len(),
    decreases words.len(),
{
    if words.len() > 0 {
        let dl = words.drop_last();
        lemma_key_positions_bounds(dl, k);
        let a = key_positions(dl, k);
        let t = if anagram_key(words.last()) == k {
            seq![(words.len() - 1) as usize]
        } else {
            Seq::<usize>::empty()
        };
        assert(key_positions(words, k) == a + t);
        assert forall|j: int| 0 <= j < (a + t).len() implies (a + t)[j] < words.len() by {
            if j < a.len() {
                assert((a + t)[j] == a[j]);
            } else {
                assert((a + t)[j] == t[j - a.len()]);
            }
        }
    }
}

/// The words standing at a list of corpus positions.
pub open spec fn words_at(words: Seq<Seq<char>>, ps: Seq<usize>) -> Seq<Seq<char>> {
    ps.map_values(|p: usize| words[p as int])
}

/// Reading a key's positions out of the corpus gives exactly the corpus
/// words with that anagram key, in corpus order.
pub proof fn lemma_key_positions_filter(words: Seq<Seq<char>>, k: Seq<char>)
    requires
        words.len() <= usize::MAX,
    ensures
        words_at(words, key_positions(words, k)) == words.filter(
            |w: Seq<char>| anagram_key(w) == k,
        ),
    decreases words.len(),
{
    reveal(Seq::filter);
    let pred = |w: Seq<char>| anagram_key(w) == k;
    if words.len() == 0 {
        assert(words_at(words, key_positions(words, k)) =~= words.filter(pred));
    } else {
        let dl = words.drop_last();
        lemma_key_positions_filter(dl, k);
        lemma_key_positions_bounds(dl, k);
        assert(words =~= dl.push(words.last()));
        assert(words_at(words, key_positions(dl, k)) =~= words_at(dl, key_positions(dl, k)));
        if pred(words.last()) {
            assert(words_at(words, key_positions(words, k)) =~= words_at(
                words,
                key_positions(dl, k),
            ).push(words.last()));
            assert(words.filter(pred) =~= dl.filter(pred).push(words.last()));
        } else {
            assert(key_positions(words, k) =~= key_positions(dl, k));
            assert(words.filter(pred) =~= dl.filter(pred));
        }
    }
}

/// Maps an anagram key to the ordered set of corpus positions holding its
/// anagrams. Append order within a bucket is the order positions were added.
pub struct AnagramIndex {
    keys: Vec<String>,
    buckets: Vec<Vec<usize>>,
}

impl AnagramIndex {
    /// The key strings held, as character sequences.
    pub closed spec fn key_views(self) -> Seq<Seq<char>> {
        self.keys@.map_values(|s: String| s@)
    }

    /// The buckets held, in the same order as the keys.
    pub closed spec fn bucket_views(self) -> Seq<Seq<usize>> {
        self.buckets@.map_values(|b: Vec<usize>| b@)
    }

    /// Structural soundness: one bucket per key, no key twice.
    pub open spec fn wf(self) -> bool {
        &&& self.key_views().len() == self.bucket_views().len()
        &&& forall|i: int, j: int|
            0 <= i < j < self.key_views().len() ==> self.key_views()[i] != self.key_views()[j]
    }

    /// Whether some bucket is stored under key `k`.
    pub open spec fn has_key(self, k: Seq<char>) -> bool {
        self.key_views().contains(k)
    }

    /// The positions stored under key `k`; empty if the key is absent.
    pub open spec fn spec_positions(self, k: Seq<char>) -> Seq<usize> {
        if self.has_key(k) {
            self.bucket_views()[self.key_views().index_of(k)]
        } else {
            Seq::empty()
        }
    }

    /// The index holds exactly the buckets that one pass over `words`
    /// produces: each stored key maps to all positions bearing it, in
    /// increasing order; every key occurring in `words` is stored; and no
    /// bucket is empty, since a bucket is only ever created for an
    /// occurrence.
    pub open spec fn represents(self, words: Seq<Seq<char>>) -> bool {
        &&& self.wf()
        &&& forall|i: int|
            0 <= i < self.key_views().len() ==> #[trigger] self.bucket_views()[i] == key_positions(
                words,
                self.key_views()[i],
            )
        &&& forall|k: Seq<char>| key_positions(words, k).len() > 0 ==> self.has_key(k)
        &&& forall|i: int| 0 <= i < self.key_views().len() ==> #[trigger] self.bucket_views()[i].len() > 0
    }

    /// In a well-formed index a stored key has one index, so any position
    /// holding it is the `index_of` witness.
    proof fn lemma_key_index(self, k: Seq<char>, i: int)
        requires
            self.wf(),
            0 <= i < self.key_views().len(),
            self.key_views()[i] == k,
        ensures
            self.key_views().index_of(k) == i,
    {
        assert(self.key_views().contains(k));
        let j = self.key_views().index_of(k);
        assert(0 <= j < self.key_views().len() && self.key_views()[j] == k);
        if i < j {
            assert(self.key_views()[i] != self.key_views()[j]);
        } else if j < i {
            assert(self.key_views()[j] != self.key_views()[i]);
        }
    }

    /// Under `represents`, the stored positions of any key are exactly the
    /// corpus positions bearing it.
    pub proof fn lemma_positions_agree(self, words: Seq<Seq<char>>, k: Seq<char>)
        requires
            self.represents(words),
        ensures
            self.spec_positions(k) == key_positions(words, k),
    {
        if self.has_key(k) {
            let i = self.key_views().index_of(k);
            assert(0 <= i < self.key_views().len() && self.key_views()[i] == k);
            assert(self.bucket_views()[i] == key_positions(words, k));
        } else {
            if key_positions(words, k).len() > 0 {
                assert(self.has_key(k));
            }
            assert(self.spec_positions(k) =~= key_positions(words, k));
        }
    }

    /// An index with no keys at all.
    pub fn new() -> (r: Self)
        ensures
            r.wf(),
            r.key_views().len() == 0,
    {
        let r = AnagramIndex { keys: Vec::new(), buckets: Vec::new() };
        proof {
            assert(r.key_views() =~= Seq::<Seq<char>>::empty());
            assert(r.bucket_views() =~= Seq::<Seq<usize>>::empty());
        }
        r
    }

    /// The position of `key` among the stored keys, if present.
    fn find_key(&self, key: &String) -> (r: Option<usize>)
        requires
            self.wf(),
        ensures
            match r {
                Some(i) => 0 <= i < self.key_views().len() && self.key_views()[i as int] == key@,
                None => !self.has_key(key@),
            },
    {
        let mut i: usize = 0;
        while i < self.keys.len()
            invariant
                i <= self.key_views().len(),
                self.key_views().len() == self.keys@.len(),
                forall|j: int| 0 <= j < i ==> self.key_views()[j] != key@,
            decreases self.keys@.len() - i,
        {
            assert(self.key_views()[i as int] == self.keys@[i as int]@);
            if self.keys[i].eq(key) {
                return Some(i);
            }
            i = i + 1;
        }
        proof {
            assert forall|j: int| 0 <= j < self.key_views().len() implies self.key_views()[j]
                != key@ by {
                assert(self.key_views()[j] == self.keys@[j]@);
            }
        }
        None
    }

    /// The bucket stored under `key`, if any.
    pub fn positions_of(&self, key: &String) -> (r: Option<&Vec<usize>>)
        requires
            self.wf(),
        ensures
            match r {
                Some(b) => self.has_key(key@) && b@ == self.spec_positions(key@),
                None => !self.has_key(key@),
            },
    {
        match self.find_key(key) {
            Some(i) => {
                proof {
                    self.lemma_key_index(key@, i as int);
                    assert(self.has_key(key@));
                    assert(self.bucket_views()[i as int] == self.buckets@[i as int]@);
                }
                Some(&self.buckets[i])
            },
            None => None,
        }
    }

    /// Append `pos` to the bucket for `key`, creating the bucket if the key
    /// is new. Buckets of other keys are untouched.
    pub fn add_position(&mut self, key: String, pos: usize)
        requires
            old(self).wf(),
        ensures
            final(self).wf(),
            final(self).key_views() == (if old(self).has_key(key@) {
                old(self).key_views()
            } else {
                old(self).key_views().push(key@)
            }),
            forall|k: Seq<char>|
                #[trigger] final(self).spec_positions(k) == (if k == key@ {
                    old(self).spec_positions(k).push(pos)
                } else {
                    old(self).spec_positions(k)
                }),
    {
        let ghost pre = *self;
        match self.find_key(&key) {
            Some(i) => {
                proof {
                    pre.lemma_key_index(key@, i as int);
                }
                let mut bucket = self.buckets.remove(i);
                bucket.push(pos);
                self.buckets.insert(i, bucket);
                proof {
                    assert(self.keys@ == pre.keys@);
                    assert(self.key_views() =~= pre.key_views());
                    assert(self.bucket_views() =~= pre.bucket_views().update(
                        i as int,
                        pre.bucket_views()[i as int].push(pos),
                    ));
                    assert forall|k: Seq<char>|
                        #[trigger] self.spec_positions(k) == (if k == key@ {
                            pre.spec_positions(k).push(pos)
                        } else {
                            pre.spec_positions(k)
                        }) by {
                        if self.has_key(k) {
                            let j = self.key_views().index_of(k);
                            assert(0 <= j < self.key_views().len() && self.key_views()[j] == k);
                            pre.lemma_key_index(k, j);
                            if k == key@ {
                                assert(j == i as int);
                            } else {
                                assert(j != i as int);
                            }
                        } else {
                            assert(!pre.has_key(k));
                            assert(k != key@);
                        }
                    }
                }
            },
            None => {
                let mut bucket: Vec<usize> = Vec::new();
                bucket.push(pos);
                self.keys.push(key);
                self.buckets.push(bucket);
                proof {
                    assert(self.key_views() =~= pre.key_views().push(key@));
                    assert(self.bucket_views() =~= pre.bucket_views().push(seq![pos]));
                    assert forall|i: int, j: int|
                        0 <= i < j < self.key_views().len() implies self.key_views()[i]
                        != self.key_views()[j] by {
                        if j == self.key_views().len() - 1 {
                            assert(!pre.key_views().contains(key@));
                            assert(pre.key_views()[i] != key@);
                        }
                    }
                    assert forall|k: Seq<char>|
                        #[trigger] self.spec_positions(k) == (if k == key@ {
                            pre.spec_positions(k).push(pos)
                        } else {
                            pre.spec_positions(k)
                        }) by {
                        let n = pre.key_views().len() as int;
                        if k == key@ {
                            assert(self.key_views()[n] == key@);
                            self.lemma_key_index(key@, n);
                            assert(self.has_key(key@));
                            assert(self.spec_positions(key@) == seq![pos]);
                            assert(!pre.has_key(key@));
                            assert(pre.spec_positions(key@) =~= Seq::<usize>::empty());
                            assert(pre.spec_positions(key@).push(pos) =~= seq![pos]);
                        } else {
                            if pre.has_key(k) {
                                let j = pre.key_views().index_of(k);
                                assert(0 <= j < pre.key_views().len() && pre.key_views()[j] == k);
                                assert(self.key_views()[j] == k);
                                self.lemma_key_index(k, j);
                            } else {
                                assert forall|j: int|
                                    0 <= j < self.key_views().len() implies self.key_views()[j]
                                    != k by {
                                    if j < n {
                                        assert(pre.key_views()[j] != k);
                                    }
                                }
                                assert(!self.has_key(k));
                            }
                        }
                    }
                }
            },
        }
    }
}

/// Build the anagram index of a corpus: one pass, appending each position
/// to the bucket of its word's key. An empty corpus yields an empty index.
pub fn build_anagram_index(word_list: &Vec<String>) -> (idx: AnagramIndex)
    ensures
        idx.represents(views(word_list@)),
{
    let mut idx = AnagramIndex::new();
    let ghost all = views(word_list@);
    proof {
        assert(all.take(0) =~= Seq::<Seq<char>>::empty());
    }
    let mut i: usize = 0;
    while i < word_list.len()
        invariant
            i <= word_list@.len(),
            all == views(word_list@),
            all.len() == word_list@.len(),
            idx.represents(all.take(i as int)),
        decreases word_list@.len() - i,
    {
        let ghost pre = idx;
        let key = sort_word(word_list[i].as_str());
        proof {
            assert(all[i as int] == word_list@[i as int]@);
            assert(key@ == anagram_key(all[i as int]));
        }
        idx.add_position(key, i);
        proof {
            let t0 = all.take(i as int);
            let t1 = all.take(i + 1);
            assert(t1.drop_last() =~= t0);
            assert(t1.last() == all[i as int]);
            assert forall|k: Seq<char>| #[trigger] key_positions(t1, k) == (if k == anagram_key(
                all[i as int],
            ) {
                key_positions(t0, k).push(i)
            } else {
                key_positions(t0, k)
            }) by {
                if k == anagram_key(all[i as int]) {
                    assert(key_positions(t1, k) =~= key_positions(t0, k).push(i));
                } else {
                    assert(key_positions(t1, k) =~= key_positions(t0, k));
                }
            }
            assert forall|j: int|
                0 <= j < idx.key_views().len() implies #[trigger] idx.bucket_views()[j]
                == key_positions(t1, idx.key_views()[j]) by {
                let k = idx.key_views()[j];
                assert(idx.key_views().contains(k));
                idx.lemma_key_index(k, j);
                assert(idx.bucket_views()[j] == idx.spec_positions(k));
                pre.lemma_positions_agree(t0, k);
            }
            assert forall|j: int|
                0 <= j < idx.key_views().len() implies #[trigger] idx.bucket_views()[j].len()
                > 0 by {
                let k = idx.key_views()[j];
                assert(idx.key_views().contains(k));
                idx.lemma_key_index(k, j);
                assert(idx.bucket_views()[j] == idx.spec_positions(k));
                if k == key@ {
                    assert(idx.spec_positions(k) == pre.spec_positions(k).push(i));
                } else {
                    assert(idx.spec_positions(k) == pre.spec_positions(k));
                    assert(idx.key_views() == (if pre.has_key(key@) {
                        pre.key_views()
                    } else {
                        pre.key_views().push(key@)
                    }));
                    if pre.has_key(key@) {
                        assert(pre.key_views()[j] == k);
                    } else {
                        assert(j < pre.key_views().len());
                        assert(pre.key_views()[j] == k);
                    }
                    assert(pre.key_views().contains(k));
                    pre.lemma_key_index(k, j);
                    assert(pre.spec_positions(k) == pre.bucket_views()[j]);
                    assert(pre.bucket_views()[j].len() > 0);
                }
            }
            assert forall|k: Seq<char>| key_positions(t1, k).len() > 0 implies idx.has_key(k) by {
                let kk = anagram_key(all[i as int]);
                assert(idx.key_views() == (if pre.has_key(kk) {
                    pre.key_views()
                } else {
                    pre.key_views().push(kk)
                }));
                if k == kk {
                    if pre.has_key(k) {
                        let j = choose|j: int|
                            0 <= j < pre.key_views().len() && pre.key_views()[j] == k;
                        assert(idx.key_views()[j] == k);
                    } else {
                        assert(idx.key_views()[idx.key_views().len() - 1] == k);
                    }
                } else {
                    assert(key_positions(t0, k).len() > 0);
                    assert(pre.has_key(k));
                    let j = choose|j: int| 0 <= j < pre.key_views().len() && pre.key_views()[j] == k;
                    assert(idx.key_views()[j] == k);
                }
            }
        }
        i = i + 1;
    }
    proof {
        assert(all.take(word_list@.len() as int) =~= all);
    }
    idx
}

/// Append to `results` every corpus word whose anagram key is `key`, in
/// corpus order.
pub(crate) fn push_bucket_words(
    results: &mut Vec<String>,
    word_list: &Vec<String>,
    anagrams: &AnagramIndex,
    key: &String,
)
    requires
        anagrams.represents(views(word_list@)),
    ensures
        views(final(results)@) == views(old(results)@) + views(word_list@).filter(
            |w: Seq<char>| anagram_key(w) == key@,
        ),
{
    let ghost corpus = views(word_list@);
    let ghost k = key@;
    let n = word_list.len();
    proof {
        assert(corpus.len() == word_list@.len() == n);
        anagrams.lemma_positions_agree(corpus, k);
        lemma_key_positions_bounds(corpus, k);
        lemma_key_positions_filter(corpus, k);
    }
    match anagrams.positions_of(key) {
        Some(bucket) => {
            let ghost ps = key_positions(corpus, k);
            assert(bucket@ == ps);
            proof {
                assert(views(results@) =~= views(old(results)@) + words_at(corpus, ps.take(0)));
            }
            let mut j: usize = 0;
            while j < bucket.len()
                invariant
                    j <= ps.len(),
                    bucket@ == ps,
                    ps == key_positions(corpus, k),
                    corpus == views(word_list@),
                    corpus.len() == word_list@.len() <= usize::MAX,
                    forall|t: int| 0 <= t < ps.len() ==> #[trigger] ps[t] < corpus.len(),
                    views(results@) == views(old(results)@) + words_at(corpus, ps.take(j as int)),
                decreases ps.len() - j,
            {
                let p = bucket[j];
                let ghost rpre = results@;
                results.push(word_list[p].clone());
                proof {
                    assert(ps.take(j + 1) =~= ps.take(j as int).push(ps[j as int]));
                    assert(corpus[p as int] == word_list@[p as int]@);
                    assert(views(results@) =~= views(rpre).push(corpus[p as int]));
                    assert(views(results@) =~= views(old(results)@) + words_at(
                        corpus,
                        ps.take(j + 1),
                    ));
                }
                j = j + 1;
            }
            proof {
                assert(ps.take(ps.len() as int) =~= ps);
            }
        },
        None => {
            proof {
                assert(key_positions(corpus, k) =~= Seq::<usize>::empty());
                assert(words_at(corpus, key_positions(corpus, k)) =~= Seq::<Seq<char>>::empty());
                assert(views(results@) =~= views(old(results)@) + words_at(
                    corpus,
                    key_positions(corpus, k),
                ));
            }
        },
    }
}

/// All corpus words that are anagrams of `search_string`: the words whose
/// anagram key equals the search string's, in corpus order.
pub fn anagram_search(search_string: &str, word_list: &Vec<String>, anagrams: &AnagramIndex) -> (r:
    Vec<String>)
    requires
        anagrams.represents(views(word_list@)),
    ensures
        views(r@) == views(word_list@).filter(
            |w: Seq<char>| anagram_key(w) == anagram_key(search_string@),
        ),
{
    let ghost corpus = views(word_list@);
    let key = sort_word(search_string);
    let mut results: Vec<String> = Vec::new();
    let ghost rpre = results@;
    push_bucket_words(&mut results, word_list, anagrams, &key);
    proof {
        let p1 = |w: Seq<char>| anagram_key(w) == key@;
        let p2 = |w: Seq<char>| anagram_key(w) == anagram_key(search_string@);
        crate::seqtools::lemma_filter_equiv(corpus, p1, p2);
        assert(views(rpre) =~= Seq::<Seq<char>>::empty());
        assert(views(results@) =~= corpus.filter(p2));
    }
    results
}

} // verus!
