//! Preparation of the jumble letter wheel: validate the size, take the
//! already-found letters out of the letter set, and pad to an even count.
//! Shuffling and drawing the wheel are display work and stay outside.
use vstd::prelude::*;

use crate::text::str_chars;
use crate::PuzzleError;

verus! {

/// The found-pattern characters that name no letter: blanks and the word
/// boundary.
pub open spec fn is_found_marker(c: char) -> bool {
    c == '_' || c == '/' || c == '.'
}

/// The letter set with each found letter's first occurrence removed, in
/// the order the found pattern names them; `None` when a found letter is
/// missing from the set.
pub open spec fn remove_found(input: Seq<char>, found: Seq<char>) -> Option<Seq<char>>
    decreases found.len(),
{
    if found.len() == 0 {
        Some(input)
    } else if is_found_marker(found[0]) {
        remove_found(input, found.skip(1))
    } else if input.contains(found[0]) {
        remove_found(input.remove_value(found[0]), found.skip(1))
    } else {
        None
    }
}

/// The prepared wheel letters: the remainder after removal, padded with a
/// space to an even count.
pub open spec fn padded_even(rem: Seq<char>) -> Seq<char> {
    if rem.len() % 2 == 1 {
        rem + seq![' ']
    } else {
        rem
    }
}

/// The first position of `c` in `v`, if any.
fn find_char(v: &Vec<char>, c: char) -> (r: Option<usize>)
    ensures
        match r {
            Some(i) => 0 <= i < v@.len() && v@[i as int] == c && (forall|t: int|
                0 <= t < i ==> v@[t] != c),
            None => !v@.contains(c),
        },
{
    let mut i: usize = 0;
    while i < v.len()
        invariant
            i <= v@.len(),
            forall|t: int| 0 <= t < i ==> v@[t] != c,
        decreases v@.len() - i,
    {
        if v[i] == c {
            return Some(i);
        }
        i = i + 1;
    }
    None
}

/// The letters the jumble wheel will show, before shuffling: checks the
/// size argument against the letter count, removes each letter already
/// found, and pads the remainder to an even count with a space.
pub fn jumble_letters(full_input: &str, found_letters: &str, size: u8) -> (r: Result<
    Vec<char>,
    PuzzleError,
>)
    ensures
        size > 0 && full_input@.len() != size as int ==> r == Err::<Vec<char>, PuzzleError>(
            PuzzleError::InvalidLength,
        ),
        (size == 0 || full_input@.len() == size as int) ==> (match remove_found(
            full_input@,
            found_letters@,
        ) {
            Some(rem) => r is Ok && r->Ok_0@ == padded_even(rem),
            None => r == Err::<Vec<char>, PuzzleError>(PuzzleError::MissingLetter),
        }),
{
    let input = str_chars(full_input);
    if size > 0 && input.len() != size as usize {
        return Err(PuzzleError::InvalidLength);
    }
    let found = str_chars(found_letters);
    let mut letters = input;
    proof {
        assert(found@.skip(0) =~= found@);
    }
    let mut j: usize = 0;
    while j < found.len()
        invariant
            j <= found@.len(),
            found@ == found_letters@,
            size == 0 || full_input@.len() == size as int,
            remove_found(full_input@, found_letters@) == remove_found(
                letters@,
                found@.skip(j as int),
            ),
        decreases found@.len() - j,
    {
        let ghost suffix = found@.skip(j as int);
        proof {
            assert(suffix[0] == found@[j as int]);
            assert(suffix.skip(1) =~= found@.skip(j + 1));
        }
        let c = found[j];
        if !(c == '_' || c == '/' || c == '.') {
            match find_char(&letters, c) {
                Some(pos) => {
                    let ghost lpre = letters@;
                    proof {
                        lpre.index_of_first_ensures(c);
                        let fi = lpre.index_of_first(c)->0;
                        if fi < pos as int {
                            assert(lpre[fi] != c);
                        } else if (pos as int) < fi {
                            assert(lpre[pos as int] != c);
                        }
                        assert(fi == pos as int);
                        assert(lpre.remove_value(c) == lpre.remove(pos as int));
                    }
                    letters.remove(pos);
                },
                None => {
                    return Err(PuzzleError::MissingLetter);
                },
            }
        }
        j = j + 1;
    }
    proof {
        assert(found@.skip(found@.len() as int) =~= Seq::<char>::empty());
        assert(remove_found(letters@, Seq::<char>::empty()) == Some(letters@));
    }
    if letters.len() % 2 == 1 {
        letters.push(' ');
    }
    Ok(letters)
}

} // verus!
