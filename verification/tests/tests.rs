use lookup::anagram_search;
use lookup::build_anagram_index;
use lookup::check_yellow_letters_exist;
use lookup::expand_numbers;
use lookup::jumble_letters;
use lookup::lookup;
use lookup::panagram;
use lookup::regex_lookup;
use lookup::regular_patterns;
use lookup::remove_found_mismatches;
use lookup::remove_wrong_sized_words;
use lookup::reverse;
use lookup::sort_word;
use lookup::spellingbee;
use lookup::thesaurus;
use lookup::validate_wildcard;
use lookup::word_is_anagram;
use lookup::wordle;
use lookup::PuzzleError;

#[test]
fn test_sort_word() {
    assert_eq!("aaeeilmort", sort_word("ameliorate"));
}

#[test]
fn test_spellingbee() {
    let words = vec![
        "doctoral".to_string(),
        "cartload".to_string(),
        "frobnish".to_string(),
    ];
    let results = spellingbee("roldact", &words);
    assert_eq!(results.len(), 2); // should match "doctoral" and "cartload"
}

#[test]
fn test_panagram() {
    let words = vec!["cartload".to_string(), "plaintiff".to_string()];
    let anagrams = build_anagram_index(&words);
    let results = panagram("infaflipt", &words, &anagrams);
    assert_eq!(results.len(), 1); // should match "plaintiff"
}

#[test]
fn test_anagram_search() {
    let words = vec!["cartload".to_string(), "plaintiff".to_string()];
    let anagrams = build_anagram_index(&words);
    let results = anagram_search("infaflipt", &words, &anagrams);
    assert_eq!(results.len(), 1); // should match "plaintiff"
    let results2 = anagram_search("frobnish", &words, &anagrams);
    assert_eq!(results2.len(), 0); // should not match any
}

#[test]
fn test_lookup() {
    let words = vec![
        "doctoral".to_string(),
        "cartload".to_string(),
        "frobnish".to_string(),
        "frazzled".to_string(),
        "not care".to_string(),
    ];
    let results = lookup("f_o_ni__", &words, "");
    assert_eq!(results.len(), 1); // should match "frobnish"
    let results2 = lookup("s__v", &words, "");
    assert_eq!(results2.len(), 0); // should not match anything
    let results3 = lookup("fra_____", &words, "z");
    assert_eq!(results3.len(), 0); // should not match anything
    let results4 = lookup("not/c___", &words, "z");
    assert_eq!(results4.len(), 1); // should match "not care"
}

#[test]
fn test_lookup_with_wildcard() {
    let words = vec![
        "arc".to_string(),
        "arch".to_string(),
        "archimedes".to_string(),
    ];
    let results = lookup("arch%", &words, "");
    assert_eq!(results.len(), 2); // should match "arch" and "archimedes" but not shorter words
}

#[test]
fn test_lookup_phrase() {
    let words = vec![
        "i feel fine".to_string(),
        "a fine mess".to_string(),
        "a dead duck".to_string(),
        "a dandelion".to_string(),
    ];
    let results = lookup("a d___ ___k", &words, "");
    assert_eq!(results.len(), 1); // should match "a dead duck"
    let results2 = lookup("a d________", &words, "");
    assert_eq!(results2.len(), 1); // should only match "a dandelion", not "a dead duck"
}

#[test]
fn test_wordle() {
    let words = vec![
        "knelt".to_string(),
        "dodge".to_string(),
        "dryer".to_string(),
        "druid".to_string(),
        "wryly".to_string(),
    ];
    // We are specifically testing that wordle() finds two Ys in the results, and
    // not simply matching both against the green letter
    let results = wordle("_ry__", &words, "", "y"); // exclude, include
    assert_eq!(results.len(), 1); // should only match "wryly"

    let results2 = wordle("_____", &words, "", "er");
    assert_eq!(results2.len(), 1); // should only match "dryer"
    assert_eq!(results2[0], "dryer");

    let results3 = wordle("dr___", &words, "y", "");
    assert_eq!(results3.len(), 1); // should only match "druid" because we exclude y

    // What if the use includes a letter that is already "green"? This signifies
    // that there's ANOTHER yellow d
    let results4 = wordle("d____", &words, "", "d");
    assert_eq!(results4.len(), 2); // should only match "druid", and "dodge"
}

#[test]
fn test_wordle_exclude_green() {
    let words = vec!["adult".to_string()];
    // Case where the user might have excluded a letter which is also in the search
    // string (i.e. is "green"). This should exclude words that have the excluded letter
    // in any position OTHER than the supplied green one.
    let results = wordle("a___t", &words, "a", ""); // exclude, include
    assert_eq!(results.len(), 1); // should match
}

#[test]
fn test_yellow_check() {
    assert_eq!(true, check_yellow_letters_exist("dryer", "__y__", "er"));
    assert_eq!(false, check_yellow_letters_exist("dryer", "__y__", "ery")); // no second y
    assert_eq!(true, check_yellow_letters_exist("dryer", "d___r", "")); // no yellow letters
}

#[test]
fn test_number_expansion() {
    let mut ss1 = "3f3".to_string();
    ss1 = expand_numbers(&ss1);
    assert_eq!(ss1, "___f___");
    let mut ss2 = "3/x5".to_string();
    ss2 = expand_numbers(&ss2);
    assert_eq!(ss2, "___/x_____");
    let mut ss3 = "11/z4".to_string();
    ss3 = expand_numbers(&ss3);
    assert_eq!(ss3, "___________/z____");
}

#[test]
fn test_regex_lookup() {
    let words = vec![
        "knelt".to_string(),
        "dodge".to_string(),
        "dryer".to_string(),
        "druid".to_string(),
        "wryly".to_string(),
    ];
    let mut results: Vec<String> = regex_lookup("d", &words).unwrap();
    assert!(results.len() == 3);
    results = regex_lookup("k", &words).unwrap();
    assert!(results.len() == 1);
    results = regex_lookup("..d..", &words).unwrap();
    assert!(results.len() == 1);
    assert_eq!(results[0], "dodge");
    results = regex_lookup("^..y..$", &words).unwrap();
    assert!(results.len() == 2);
}

#[test]
fn test_reverse() {
    let result = reverse("clock");
    assert!(result.len() == 1);
    assert!(result[0] == "kcolc");
}

#[test]
fn test_regular_patterns() {
    let mut result = regular_patterns("BROSNEERS", false);
    assert!(result.len() == 2);
    assert!(result[0] == "BONES");
    assert!(result[1] == "RSER");
    result = regular_patterns("BROSNEERS", true); // reverse regular patterns
    assert!(result.len() == 2);
    assert!(result[0] == "SENOB");
    assert!(result[1] == "RESR");
    // Check that spaces are ignored in the input
    result = regular_patterns("BRO SNEERS", false);
    assert!(result.len() == 2);
    assert!(result[0] == "BONES");
    assert!(result[1] == "RSER");
}

#[test]
fn test_remove_found_mismatches() {
    let words = vec![
        "knelt".to_string(),
        "dodge".to_string(),
        "dryer".to_string(),
        "druid".to_string(),
        "wryly".to_string(),
        "abc def".to_string(),
        "abcxdef".to_string(),
    ];
    let mut found = "d...e".to_string();
    let mut results = remove_found_mismatches(&words, found, false);
    assert!(results.len() == 1);
    found = "ab...ef".to_string();
    results = remove_found_mismatches(&words, found, false);
    assert!(results.len() == 2);
    found = "ab...ef".to_string();
    results = remove_found_mismatches(&words, found, true); // ignore phrases
    assert!(results.len() == 1);
}

#[test]
fn test_remove_wrong_sized_words() {
    let words = vec![
        "a".to_string(),
        "be".to_string(),
        "cat".to_string(),
        "four".to_string(),
        "table".to_string(),
        "avails".to_string(),
        "flashes".to_string(),
        "walkover".to_string(),
        "subnormal".to_string(),
        "spherality".to_string(),
    ];
    let results = remove_wrong_sized_words(&words, 6);
    assert!(results.len() == 1);
    assert!(results[0] == "avails");
}

#[test]
fn test_expand_numbers() {
    let result = expand_numbers("3e4");
    assert!(result == "___e____");
    let result2 = expand_numbers("14x");
    assert!(result2 == "______________x");
    let result3 = expand_numbers("15");
    assert!(result3 == "_______________");
    let result4 = expand_numbers("1024");
    assert!(result4.len() == 1024);
}

#[test]
fn test_anagram_key_of_permutation() {
    // Any permutation of the same letters yields the same anagram key,
    // whitespace ignored.
    assert_eq!(sort_word("listen"), sort_word("silent"));
    assert_eq!(sort_word("a dead duck"), sort_word("ducka dead "));
    assert_ne!(sort_word("listen"), sort_word("listens"));
}

#[test]
fn test_anagram_search_exact_words() {
    let words = vec![
        "stop".to_string(),
        "pots".to_string(),
        "tops".to_string(),
        "opts".to_string(),
        "post".to_string(),
        "spot".to_string(),
        "most".to_string(),
    ];
    let anagrams = build_anagram_index(&words);
    let results = anagram_search("tops", &words, &anagrams);
    assert_eq!(
        results,
        vec!["stop", "pots", "tops", "opts", "post", "spot"]
    );
}

#[test]
fn test_anagram_search_duplicates_and_phrases() {
    // Duplicate corpus entries accumulate in one bucket, and phrases match
    // a word with the same letters, spaces ignored.
    let words = vec![
        "night".to_string(),
        "thing".to_string(),
        "night".to_string(),
        "nig ht".to_string(),
    ];
    let anagrams = build_anagram_index(&words);
    let results = anagram_search("thing", &words, &anagrams);
    assert_eq!(results.len(), 4);
}

#[test]
fn test_anagram_search_empty_corpus() {
    let words: Vec<String> = Vec::new();
    let anagrams = build_anagram_index(&words);
    let results = anagram_search("anything", &words, &anagrams);
    assert_eq!(results.len(), 0);
}

#[test]
fn test_panagram_exact_words() {
    // Every candidate key holds the mandatory first letter 'i' plus at
    // least three others: "cartload" has no 'i', "tan" is shorter than any
    // candidate, while "faint" ('i' plus f, a, n, t) qualifies.
    let words = vec![
        "cartload".to_string(),
        "plaintiff".to_string(),
        "tan".to_string(),
        "faint".to_string(),
    ];
    let anagrams = build_anagram_index(&words);
    let mut results = panagram("infaflipt", &words, &anagrams);
    results.sort();
    assert_eq!(results, vec!["faint".to_string(), "plaintiff".to_string()]);
}

#[test]
fn test_spellingbee_exact_words() {
    let words = vec![
        "doctoral".to_string(),
        "cartload".to_string(),
        "frobnish".to_string(),
        "cold".to_string(),
        "colt".to_string(),
        "rot".to_string(),
    ];
    // mandatory 'r'; "cold" has no r, "rot" is too short, "colt" has no r.
    let results = spellingbee("roldact", &words);
    assert_eq!(results, vec!["doctoral".to_string(), "cartload".to_string()]);
}

#[test]
fn test_spellingbee_repeats_allowed() {
    let words = vec!["lorry".to_string(), "dolly".to_string()];
    // Repeating permitted letters is fine; 'd' absent from the set rejects "dolly".
    let results = spellingbee("rolyc", &words);
    assert_eq!(results, vec!["lorry".to_string()]);
}

#[test]
fn test_lookup_excluded_letter_tolerated_only_when_green() {
    let words = vec!["avast".to_string(), "toast".to_string()];
    // 'a' is excluded, but the pattern places 'a' at position 0 itself:
    // "avast" still fails because of its second 'a' at position 2.
    let results = lookup("a___t", &words, "a");
    assert_eq!(results.len(), 0);
    // "toast" has 'a' only at a blank position: rejected too.
    let results2 = lookup("t___t", &words, "a");
    assert_eq!(results2.len(), 0);
    // without the exclusion both match their patterns
    let results3 = lookup("a___t", &words, "");
    assert_eq!(results3.len(), 1);
}

#[test]
fn test_lookup_wildcard_ignores_suffix() {
    // Past the fixed prefix nothing is compared: an excluded letter in the
    // open suffix is tolerated.
    let words = vec!["az".to_string(), "azz".to_string(), "za".to_string()];
    let mut results = lookup("a%", &words, "z");
    results.sort();
    assert_eq!(results, vec!["az".to_string(), "azz".to_string()]);
}

#[test]
fn test_spellingbee_rejects_outside_characters() {
    // Every character of an answer must come from the letter set: a space
    // or a hyphen is not in it.
    let words = vec![
        "ab cd".to_string(),
        "ab-cd".to_string(),
        "abca".to_string(),
    ];
    let results = spellingbee("abcd", &words);
    assert_eq!(results, vec!["abca".to_string()]);
}

#[test]
fn test_lookup_deduplicates() {
    let words = vec!["arch".to_string(), "arch".to_string(), "ache".to_string()];
    let results = lookup("arch", &words, "");
    assert_eq!(results.len(), 1); // a result set: duplicates collapse
}

#[test]
fn test_validate_wildcard_placement() {
    assert!(validate_wildcard("arch%").is_ok());
    assert!(validate_wildcard("arch").is_ok());
    assert!(validate_wildcard("").is_ok());
    assert_eq!(
        validate_wildcard("ar%ch"),
        Err(PuzzleError::InvalidWildcardPlacement)
    );
}

#[test]
fn test_regex_lookup_invalid_pattern() {
    let words = vec!["knelt".to_string()];
    let results = regex_lookup("foo(bar", &words);
    assert_eq!(results, Err(PuzzleError::InvalidPattern));
}

#[test]
fn test_jumble_letters_removes_found() {
    // found letters are taken out once each; markers are ignored; the
    // remainder is padded to an even count with a space.
    let letters = jumble_letters("COMPUTER", "C_M_____", 0).unwrap();
    assert_eq!(letters, vec!['O', 'P', 'U', 'T', 'E', 'R']);
    let padded = jumble_letters("COMPUTER", "C_M____", 0).unwrap();
    assert_eq!(padded.len(), 6);
    let odd = jumble_letters("COMPUTER", "C__", 0).unwrap();
    assert_eq!(odd, vec!['O', 'M', 'P', 'U', 'T', 'E', 'R', ' ']);
}

#[test]
fn test_jumble_letters_size_mismatch() {
    let r = jumble_letters("COMPUTER", "", 9);
    assert_eq!(r, Err(PuzzleError::InvalidLength));
    assert!(jumble_letters("COMPUTER", "", 8).is_ok());
}

#[test]
fn test_jumble_letters_missing_letter() {
    let r = jumble_letters("COMPUTER", "Z_______", 0);
    assert_eq!(r, Err(PuzzleError::MissingLetter));
}

#[test]
fn test_thesaurus_lines() {
    let lines = vec![
        "cold,chilly,freezing".to_string(),
        "colder,chillier".to_string(),
        "hot,warm".to_string(),
        "cold,icy".to_string(),
    ];
    let mut results: Vec<String> = vec!["seed".to_string()];
    thesaurus(&mut results, "cold", &lines);
    assert_eq!(results, vec!["seed", "chilly", "freezing", "icy"]);
}

#[test]
fn test_size_filter_idempotent() {
    let words = vec![
        "cat".to_string(),
        "four".to_string(),
        "avails".to_string(),
        "a dead duck".to_string(),
    ];
    let once = remove_wrong_sized_words(&words, 4);
    let twice = remove_wrong_sized_words(&once, 4);
    assert_eq!(once, twice);
    assert_eq!(once, vec!["four".to_string()]);
}

#[test]
fn test_remove_wrong_sized_words_ignores_whitespace() {
    let words = vec!["a dead duck".to_string(), "ruminating".to_string()];
    // "a dead duck" has 9 non-space characters
    let results = remove_wrong_sized_words(&words, 9);
    assert_eq!(results, vec!["a dead duck".to_string()]);
}

#[test]
fn test_remove_found_mismatches_expansion_and_case() {
    let words = vec![
        "dodge".to_string(),
        "DODGE".to_string(),
        "dodger".to_string(),
        "budge".to_string(),
    ];
    // "1o3" expands to "_o___"; matching is case-insensitive and anchored
    // at the start only, so the longer "dodger" still matches.
    let results = remove_found_mismatches(&words, "1o3".to_string(), false);
    assert_eq!(results, vec!["dodge", "DODGE", "dodger"]);
}

#[test]
fn test_remove_found_mismatches_wildcard() {
    let words = vec!["archway".to_string(), "arch".to_string(), "ask".to_string()];
    let results = remove_found_mismatches(&words, "ar%ignored".to_string(), false);
    assert_eq!(results, vec!["archway", "arch"]);
}

#[test]
fn test_wordle_all_blanks_and_greens() {
    let words = vec!["dryer".to_string(), "wryly".to_string()];
    // no greens, no yellows: every five-letter word passes
    let results = wordle("_____", &words, "", "");
    assert_eq!(results.len(), 2);
    // green r at position 1 plus yellow w
    let results2 = wordle("_r___", &words, "", "w");
    assert_eq!(results2, vec!["wryly".to_string()]);
}

#[test]
fn test_expand_numbers_zero_and_spaces() {
    // a lone zero adds no blanks; a space becomes the word boundary
    assert_eq!(expand_numbers("0x"), "x");
    assert_eq!(expand_numbers("a b"), "a/b");
    assert_eq!(expand_numbers("10"), "__________");
    assert_eq!(expand_numbers(""), "");
}

#[test]
fn test_word_is_anagram_helper() {
    assert!(word_is_anagram("doctoral", "roldact"));
    assert!(!word_is_anagram("cold", "cold")); // too short
    assert!(!word_is_anagram("doctoral", "roldactz")); // missing z
}

#[test]
fn test_regular_patterns_single_char() {
    let result = regular_patterns("A", false);
    assert_eq!(result[0], "A");
    assert_eq!(result[1], "");
}
