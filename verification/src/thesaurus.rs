//! The thesaurus lookup: comma-delimited lines keyed by a leading word;
//! a matching line contributes every following field.
use vstd::prelude::*;

use crate::text::{chars_string, str_chars, views};

verus! {

/// Whether `l` begins with the characters of `p`.
pub open spec fn starts_with(l: Seq<char>, p: Seq<char>) -> bool {
    l.len() >= p.len() && l.take(p.len() as int) == p
}

/// The comma-separated fields of a line; one more field than commas, as
/// with an empty line or empty fields between adjacent commas.
pub open spec fn split_commas(l: Seq<char>) -> Seq<Seq<char>>
    decreases l.len(),
{
    if l.len() == 0 {
        seq![Seq::empty()]
    } else if l[0] == ',' {
        seq![Seq::<char>::empty()] + split_commas(l.skip(1))
    } else {
        let rest = split_commas(l.skip(1));
        seq![seq![l[0]] + rest[0]] + rest.skip(1)
    }
}

/// A split always yields at least one field.
proof fn lemma_split_nonempty(l: Seq<char>)
    ensures
        split_commas(l).len() >= 1,
    decreases l.len(),
{
    if l.len() > 0 {
        lemma_split_nonempty(l.skip(1));
    }
}

/// What one line contributes to a thesaurus lookup for `w`: every field
/// after the leading key, when the line starts with `w` and a comma.
pub open spec fn line_words(line: Seq<char>, w: Seq<char>) -> Seq<Seq<char>> {
    if starts_with(line, w + seq![',']) {
        split_commas(line).skip(1)
    } else {
        Seq::empty()
    }
}

/// What all lines contribute, in line order.
pub open spec fn thesaurus_words(lines: Seq<Seq<char>>, w: Seq<char>) -> Seq<Seq<char>>
    decreases lines.len(),
{
    if lines.len() == 0 {
        Seq::empty()
    } else {
        thesaurus_words(lines.drop_last(), w) + line_words(lines.last(), w)
    }
}

/// Whether the characters of `l` begin with those of `p`.
fn chars_start_with(l: &Vec<char>, p: &Vec<char>) -> (b: bool)
    ensures
        b == starts_with(l@, p@),
{
    if l.len() < p.len() {
        return false;
    }
    let mut i: usize = 0;
    while i < p.len()
        invariant
            i <= p@.len(),
            l@.len() >= p@.len(),
            forall|t: int| 0 <= t < i ==> l@[t] == p@[t],
        decreases p@.len() - i,
    {
        if l[i] != p[i] {
            assert(l@.take(p@.len() as int)[i as int] != p@[i as int]);
            return false;
        }
        i = i + 1;
    }
    proof {
        assert(l@.take(p@.len() as int) =~= p@);
    }
    true
}

/// `ss` with `c` glued onto the front of its first field.
spec fn prepend_field(ss: Seq<Seq<char>>, c: Seq<char>) -> Seq<Seq<char>>
    recommends
        ss.len() >= 1,
{
    seq![c + ss[0]] + ss.skip(1)
}

/// The comma-separated fields of a line, as owned strings.
fn split_on_commas(lchars: &Vec<char>) -> (fields: Vec<String>)
    ensures
        views(fields@) == split_commas(lchars@),
{
    let mut fields: Vec<String> = Vec::new();
    let mut current: Vec<char> = Vec::new();
    let ghost l = lchars@;
    let mut i: usize = 0;
    proof {
        lemma_split_nonempty(l);
        assert(l.skip(0) =~= l);
        assert(views(fields@) + prepend_field(split_commas(l.skip(0)), current@) =~= split_commas(
            l,
        ));
    }
    while i < lchars.len()
        invariant
            i <= l.len(),
            l == lchars@,
            views(fields@) + prepend_field(split_commas(l.skip(i as int)), current@)
                == split_commas(l),
        decreases l.len() - i,
    {
        let ghost suffix = l.skip(i as int);
        proof {
            assert(suffix[0] == l[i as int]);
            assert(suffix.skip(1) =~= l.skip(i + 1));
            lemma_split_nonempty(l.skip(i + 1));
        }
        let c = lchars[i];
        if c == ',' {
            let ghost fpre = views(fields@);
            let ghost cpre = current@;
            let field = chars_string(&current);
            fields.push(field);
            current = Vec::new();
            proof {
                assert(split_commas(suffix) == seq![Seq::<char>::empty()] + split_commas(
                    l.skip(i + 1),
                ));
                assert(views(fields@) =~= fpre.push(cpre));
                assert(cpre + split_commas(suffix)[0] =~= cpre);
                assert(current@ + split_commas(l.skip(i + 1))[0] =~= split_commas(l.skip(i + 1))[0]);
                assert(views(fields@) + prepend_field(split_commas(l.skip(i + 1)), current@)
                    =~= split_commas(l));
            }
        } else {
            let ghost cpre = current@;
            current.push(c);
            proof {
                let rest = split_commas(l.skip(i + 1));
                assert(split_commas(suffix) == seq![seq![l[i as int]] + rest[0]] + rest.skip(1));
                assert(cpre + (seq![l[i as int]] + rest[0]) =~= current@ + rest[0]);
                assert(prepend_field(split_commas(suffix), cpre) =~= prepend_field(rest, current@));
            }
        }
        i = i + 1;
    }
    proof {
        assert(l.skip(l.len() as int) =~= Seq::<char>::empty());
        assert(split_commas(Seq::<char>::empty()) == seq![Seq::<char>::empty()]);
    }
    let last = chars_string(&current);
    let ghost fpre = views(fields@);
    let ghost cpre = current@;
    fields.push(last);
    proof {
        assert(views(fields@) =~= fpre.push(cpre));
        assert(prepend_field(split_commas(Seq::<char>::empty()), cpre) =~= seq![cpre]);
        assert(views(fields@) =~= split_commas(l));
    }
    fields
}

/// Append to `results` every synonym the thesaurus lines give for `word`:
/// for each line starting with the word and a comma, all fields after the
/// leading key, in order.
pub fn thesaurus(results: &mut Vec<String>, word: &str, lines: &Vec<String>)
    ensures
        views(final(results)@) == views(old(results)@) + thesaurus_words(views(lines@), word@),
{
    let mut target = str_chars(word);
    target.push(',');
    proof {
        assert(target@ =~= word@ + seq![',']);
    }
    let ghost lv = views(lines@);
    proof {
        assert(lv.take(0) =~= Seq::<Seq<char>>::empty());
        assert(views(results@) =~= views(old(results)@) + thesaurus_words(lv.take(0), word@));
    }
    let mut i: usize = 0;
    while i < lines.len()
        invariant
            i <= lines@.len(),
            lv == views(lines@),
            lv.len() == lines@.len(),
            target@ == word@ + seq![','],
            views(results@) == views(old(results)@) + thesaurus_words(lv.take(i as int), word@),
        decreases lines@.len() - i,
    {
        let lchars = str_chars(lines[i].as_str());
        proof {
            assert(lv[i as int] == lines@[i as int]@);
            assert(lv.take(i + 1).drop_last() =~= lv.take(i as int));
            assert(lv.take(i + 1).last() == lv[i as int]);
        }
        if chars_start_with(&lchars, &target) {
            let fields = split_on_commas(&lchars);
            let ghost fv = views(fields@);
            proof {
                lemma_split_nonempty(lchars@);
                assert(line_words(lv[i as int], word@) == fv.skip(1));
            }
            let mut k: usize = 1;
            let ghost rpre = views(results@);
            while k < fields.len()
                invariant
                    1 <= k <= fields@.len() || (fields@.len() == 0 && k == 1),
                    fv == views(fields@),
                    fv.len() == fields@.len(),
                    fv.len() >= 1,
                    views(results@) == rpre + fv.skip(1).take(k - 1),
                decreases fields@.len() - k,
            {
                let ghost rcur = views(results@);
                results.push(fields[k].clone());
                proof {
                    assert(views(results@) =~= rcur.push(fv[k as int]));
                    assert(fv.skip(1).take(k as int) =~= fv.skip(1).take(k - 1).push(
                        fv[k as int],
                    ));
                }
                k = k + 1;
            }
            proof {
                assert(fv.skip(1).take(fv.skip(1).len() as int) =~= fv.skip(1));
                assert(views(results@) =~= rpre + fv.skip(1));
                assert(views(results@) =~= views(old(results)@) + thesaurus_words(
                    lv.take(i + 1),
                    word@,
                ));
            }
        } else {
            proof {
                assert(line_words(lv[i as int], word@) =~= Seq::<Seq<char>>::empty());
                assert(views(results@) =~= views(old(results)@) + thesaurus_words(
                    lv.take(i + 1),
                    word@,
                ));
            }
        }
        i = i + 1;
    }
    proof {
        assert(lv.take(lv.len() as int) =~= lv);
    }
}

} // verus!
