use brain_wallet::{generator::index_from_bytes, validate_phrase, Dictionary};

fn dict(words: &[&str]) -> Dictionary {
    let owned: Vec<String> = words.iter().map(|w| w.to_string()).collect();
    Dictionary::new(owned).expect("word list should be a valid dictionary")
}

fn sample_dictionary() -> Dictionary {
    dict(&[
        "alpha", "bravo", "charlie", "delta", "echo", "foxtrot", "golf", "hotel", "india",
        "juliett", "kilo", "lima", "mike", "november", "oscar", "papa",
    ])
}

#[test]
fn should_produce_right_number_of_words() {
    let d = sample_dictionary();
    let p = brain_wallet::random_phrase(&d, 10);
    assert_eq!(p.split(" ").count(), 10);
}

#[test]
fn should_not_include_carriage_return() {
    let d = sample_dictionary();
    let p = brain_wallet::random_phrase(&d, 10);
    assert!(!p.contains('\r'), "Carriage return should be trimmed.");
}

#[test]
fn zero_words_yield_the_empty_string() {
    let d = sample_dictionary();
    assert_eq!(brain_wallet::random_phrase(&d, 0), "");
}

#[test]
fn single_word_dictionary_pins_the_phrase() {
    let d = dict(&["word"]);
    assert_eq!(brain_wallet::random_phrase(&d, 3), "word word word");
}

#[test]
fn generated_words_come_from_the_dictionary() {
    let words = [
        "alpha", "bravo", "charlie", "delta", "echo", "foxtrot", "golf", "hotel",
    ];
    let d = dict(&words);
    let p = brain_wallet::random_phrase(&d, 24);
    for w in p.split_whitespace() {
        assert!(words.contains(&w), "generated word outside dictionary: {w}");
    }
}

#[test]
fn generate_then_validate_round_trip() {
    let d = sample_dictionary();
    let p = brain_wallet::random_phrase(&d, 8);
    assert_eq!(validate_phrase(&d, &p, 8), Ok(()));
    assert_eq!(validate_phrase(&d, &p, 3), Ok(()));
    assert_eq!(validate_phrase(&d, &p, 0), Ok(()));
}

#[test]
fn one_more_expected_word_fails_with_the_actual_count() {
    let d = sample_dictionary();
    let p = brain_wallet::random_phrase(&d, 8);
    assert_eq!(
        validate_phrase(&d, &p, 9),
        Err(brain_wallet::Error::PhraseTooShort(8))
    );
}

#[test]
fn index_reduction_is_little_endian_modulo() {
    assert_eq!(index_from_bytes(0, 0, 1000), 0);
    assert_eq!(index_from_bytes(1, 1, 1000), 257);
    assert_eq!(index_from_bytes(255, 255, 7530), 5295);
    assert_eq!(index_from_bytes(16, 39, 1), 0);
}
