//! Verified word-puzzle solvers: anagram index and search, positional
//! pattern lookup, Wordle-style constraint matching, Spelling Bee and
//! Panagram letter puzzles, plus the shared result post-processing filters.
//!
//! The corpus and pattern convention is lowercase ASCII text. Everything
//! here works character by character, so any input is handled without
//! surprises, but case folding and the whitespace notion are ASCII-only.
use vstd::prelude::*;

pub mod anagrams;
pub mod filters;
pub mod index;
pub mod jumble;
pub mod matcher;
pub mod panagram;
pub mod rx;
pub mod seqtools;
pub mod spellingbee;
pub mod text;
pub mod thesaurus;
pub mod transform;
pub mod wordle;

pub use crate::anagrams::{anagram_key, lemma_anagram_key_iff, lemma_anagram_key_permutation,
    sort_word, strip_ws};
pub use crate::filters::{lemma_size_filter_idempotent, remove_found_mismatches,
    remove_wrong_sized_words};
pub use crate::index::{anagram_search, build_anagram_index, AnagramIndex};
pub use crate::jumble::jumble_letters;
pub use crate::matcher::{lemma_exclusion_respected, lookup, pattern_matches, validate_wildcard,
    wildcard_placement_ok};
pub use crate::panagram::{is_panagram_word, panagram};
pub use crate::rx::regex_lookup;
pub use crate::spellingbee::spellingbee;
pub use crate::thesaurus::thesaurus;
pub use crate::transform::{expand_numbers, regular_patterns, remove_whitespace, reverse,
    spec_expand_numbers, word_is_anagram};
pub use crate::wordle::{check_yellow_letters_exist, wordle, wordle_match, yellow_ok};

verus! {

/// Which solver a caller has selected for one invocation.
#[derive(Eq, PartialEq)]
pub enum Action {
    Undefined,
    Wordle,
    Spellingbee,
    Panagram,
    Lookup,
    Anagram,
    Jumble,
    Regex,
    Thesaurus,
    LookupWithThesaurus,
    RegexWithThesaurus,
    RegularPatterns,
    Reverse,
    Remove,
}

/// Every failure a solver can report. Each is deterministic in its input.
#[derive(Eq, PartialEq, Structural, Clone, Copy, Debug)]
pub enum PuzzleError {
    /// A pattern or letter set has the wrong number of characters.
    InvalidLength,
    /// An open wildcard appears anywhere but the final pattern position.
    InvalidWildcardPlacement,
    /// A regular expression failed to compile.
    InvalidPattern,
    /// A "found" hint names a letter absent from the candidate letter set.
    MissingLetter,
}

} // verus!
