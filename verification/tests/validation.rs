use brain_wallet::{validate_phrase, Dictionary, Error};

fn dict(words: &[&str]) -> Dictionary {
    let owned: Vec<String> = words.iter().map(|w| w.to_string()).collect();
    Dictionary::new(owned).expect("word list should be a valid dictionary")
}

fn sample_dictionary() -> Dictionary {
    dict(&[
        "alpha", "bravo", "charlie", "delta", "echo", "foxtrot", "golf", "hotel", "india",
        "juliett", "kilo", "lima", "mike", "november", "oscar", "papa",
    ])
}

#[test]
fn should_validate_the_phrase() {
    let d = sample_dictionary();
    let p = brain_wallet::random_phrase(&d, 10);

    assert_eq!(validate_phrase(&d, &p, 10), Ok(()));
    assert_eq!(validate_phrase(&d, &p, 12), Err(Error::PhraseTooShort(10)));
    assert_eq!(
        validate_phrase(&d, "xxx", 0),
        Err(Error::WordNotFromDictionary("xxx".into()))
    );
}

#[test]
fn membership_check_precedes_length_check() {
    let d = sample_dictionary();
    assert_eq!(
        validate_phrase(&d, "xxx", 0),
        Err(Error::WordNotFromDictionary("xxx".into()))
    );
}

#[test]
fn concrete_three_word_dictionary_scenario() {
    let d = dict(&["apple", "banana", "cherry"]);
    assert_eq!(
        validate_phrase(&d, "apple banana", 3),
        Err(Error::PhraseTooShort(2))
    );
    assert_eq!(
        validate_phrase(&d, "apple mango", 1),
        Err(Error::WordNotFromDictionary("mango".into()))
    );
    assert_eq!(validate_phrase(&d, "apple banana cherry", 3), Ok(()));
}

#[test]
fn first_offending_word_is_reported() {
    let d = dict(&["apple", "banana"]);
    assert_eq!(
        validate_phrase(&d, "apple mango banana papaya", 0),
        Err(Error::WordNotFromDictionary("mango".into()))
    );
}

#[test]
fn empty_phrase_has_zero_words() {
    let d = sample_dictionary();
    assert_eq!(validate_phrase(&d, "", 0), Ok(()));
    assert_eq!(validate_phrase(&d, "", 1), Err(Error::PhraseTooShort(0)));
}

#[test]
fn whitespace_runs_are_collapsed() {
    let d = dict(&["apple", "banana"]);
    assert_eq!(validate_phrase(&d, "  apple \t banana \n", 2), Ok(()));
    assert_eq!(
        validate_phrase(&d, "  apple \t banana \n", 3),
        Err(Error::PhraseTooShort(2))
    );
}

#[test]
fn error_values_render_a_message() {
    assert_eq!(
        Error::PhraseTooShort(2).describe(),
        "the phrase is too short"
    );
    assert_eq!(
        Error::WordNotFromDictionary("mango".into()).describe(),
        "a word does not come from the dictionary"
    );
}

#[test]
fn unicode_whitespace_separates_words() {
    let d = dict(&["apple", "banana"]);
    assert_eq!(validate_phrase(&d, "apple\u{2003}banana", 2), Ok(()));
    assert_eq!(validate_phrase(&d, "apple\u{0085}banana", 2), Ok(()));
}

#[test]
fn split_and_join_are_mutually_inverse_on_word_lists() {
    let words: Vec<String> = vec!["apple".to_string(), "banana".to_string()];
    let joined = brain_wallet::phrase::join_with_spaces(&words);
    assert_eq!(joined, "apple banana");
    assert_eq!(
        brain_wallet::phrase::split_whitespace_words("  apple \u{2003} banana\t"),
        words
    );
    let empty: Vec<String> = Vec::new();
    assert_eq!(brain_wallet::phrase::join_with_spaces(&empty), "");
    assert_eq!(brain_wallet::phrase::split_whitespace_words("  \t "), empty);
}

#[test]
fn dictionary_rejects_invalid_word_lists() {
    let dup: Vec<String> = vec!["apple".into(), "banana".into(), "apple".into()];
    assert!(Dictionary::new(dup).is_none());
    let empty_word: Vec<String> = vec!["apple".into(), "".into()];
    assert!(Dictionary::new(empty_word).is_none());
    let spaced: Vec<String> = vec!["apple".into(), "ban ana".into()];
    assert!(Dictionary::new(spaced).is_none());
    let control: Vec<String> = vec!["apple".into(), "ban\rana".into()];
    assert!(Dictionary::new(control).is_none());
}

#[test]
fn dictionary_membership_and_order() {
    let d = dict(&["apple", "banana", "cherry"]);
    assert_eq!(d.len(), 3);
    assert_eq!(d.word_at(1).as_str(), "banana");
    assert!(d.contains(&"cherry".to_string()));
    assert!(!d.contains(&"mango".to_string()));
}
