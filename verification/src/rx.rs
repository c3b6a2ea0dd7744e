//! The regex matcher: a thin pass through the regex crate. Compilation
//! and matching are trusted at their interface; the corpus walk is
//! verified.
use vstd::prelude::*;

use crate::seqtools::lemma_filter_push;
use crate::text::views;
use crate::PuzzleError;

verus! {

#[verifier::external_type_specification]
#[verifier::external_body]
pub struct ExRegex(regex::Regex);

#[verifier::external_type_specification]
#[verifier::external_body]
pub struct ExRegexError(regex::Error);

/// Whether `regex::Regex::new` accepts this expression: valid syntax and
/// within the crate's default size limit, a function of the expression
/// alone.
pub uninterp spec fn regex_compiles(pat: Seq<char>) -> bool;

/// Whether the regular expression `pat` finds a match anywhere in `text`:
/// a function of the two strings alone.
pub uninterp spec fn regex_match(pat: Seq<char>, text: Seq<char>) -> bool;

/// The expression a compiled `regex::Regex` was built from, as the regex
/// crate itself reports it through `Regex::as_str`.
pub uninterp spec fn regex_pattern(re: &regex::Regex) -> Seq<char>;

/// Relies on `regex::Regex::new`: succeeds exactly on the expressions the
/// regex crate accepts (well-formed syntax, within the default size
/// limit), which depends on the expression alone; the compiled value
/// carries that expression.
#[verifier::external_body]
fn regex_new(s: &str) -> (r: Result<regex::Regex, regex::Error>)
    ensures
        r is Ok <==> regex_compiles(s@),
        r is Ok ==> regex_pattern(&r->Ok_0) == s@,
{
    regex::Regex::new(s)
}

/// Relies on `regex::Regex::is_match`: true exactly when the compiled
/// expression matches somewhere in `text`, unanchored, a function of the
/// expression and the text alone.
#[verifier::external_body]
fn regex_is_match(re: &regex::Regex, text: &str) -> (b: bool)
    ensures
        b == regex_match(regex_pattern(re), text@),
{
    re.is_match(text)
}

/// Compile the search string as a regular expression and keep every corpus
/// word it matches anywhere, in corpus order, duplicates included. An
/// expression that does not compile gives the pattern error and no
/// results.
pub fn regex_lookup(search_string: &str, word_list: &Vec<String>) -> (r: Result<
    Vec<String>,
    PuzzleError,
>)
    ensures
        r is Ok <==> regex_compiles(search_string@),
        r is Err ==> r->Err_0 == PuzzleError::InvalidPattern,
        r is Ok ==> views(r->Ok_0@) == views(word_list@).filter(
            |w: Seq<char>| regex_match(search_string@, w),
        ),
{
    let re = match regex_new(search_string) {
        Ok(re) => re,
        Err(_) => {
            return Err(PuzzleError::InvalidPattern);
        },
    };
    let ghost corpus = views(word_list@);
    let ghost pred = |w: Seq<char>| regex_match(search_string@, w);
    let mut results: Vec<String> = Vec::new();
    proof {
        reveal(Seq::filter);
        assert(corpus.take(0) =~= Seq::<Seq<char>>::empty());
        assert(views(results@) =~= corpus.take(0).filter(pred));
    }
    let mut i: usize = 0;
    while i < word_list.len()
        invariant
            i <= word_list@.len(),
            regex_pattern(&re) == search_string@,
            corpus == views(word_list@),
            corpus.len() == word_list@.len(),
            pred == (|w: Seq<char>| regex_match(search_string@, w)),
            views(results@) == corpus.take(i as int).filter(pred),
        decreases word_list@.len() - i,
    {
        proof {
            assert(corpus[i as int] == word_list@[i as int]@);
            assert(corpus.take(i + 1) =~= corpus.take(i as int).push(corpus[i as int]));
            lemma_filter_push(corpus.take(i as int), corpus[i as int], pred);
        }
        if regex_is_match(&re, word_list[i].as_str()) {
            let ghost rpre = results@;
            results.push(word_list[i].clone());
            proof {
                assert(views(results@) =~= views(rpre).push(corpus[i as int]));
            }
        }
        i = i + 1;
    }
    proof {
        assert(corpus.take(corpus.len() as int) =~= corpus);
    }
    Ok(results)
}

} // verus!
