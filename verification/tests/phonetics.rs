use vehicle_index::phonetic::{is_encodable, phonetic_codes};

#[test]
fn series_has_codes() {
    let codes = phonetic_codes("series");
    assert_eq!(codes, Some(("SRS".to_string(), "SRS".to_string())));
}

#[test]
fn short_words_have_no_codes() {
    assert_eq!(phonetic_codes("bmw"), None);
    assert_eq!(phonetic_codes("golf"), None);
    assert_eq!(phonetic_codes("3"), None);
}

#[test]
fn digits_are_filed_under_the_empty_code() {
    assert_eq!(phonetic_codes("12345"), Some((String::new(), String::new())));
}

#[test]
fn x_in_second_place_is_left_out() {
    assert!(!is_encodable("explorer"));
    assert_eq!(phonetic_codes("explorer"), None);
}

#[test]
fn upper_case_is_left_out() {
    assert!(!is_encodable("Series"));
}

#[test]
fn encoder_takes_every_encodable_word() {
    let letters: Vec<char> = ('a'..='z').collect();
    let endings = [
        "aa", "as", "os", "la", "lo", "ie", "er", "ey", "gh", "ch", "cz", "ia", "hu", "ll", "xx",
        "wr", "sc", "th", "dg", "mb", "zz", "jj", "ow", "ki", "tz", "au", "ou", "ne", "ss", "et",
    ];
    let mut tried: u64 = 0;
    for a in &letters {
        for b in &letters {
            for c in &letters {
                for e in endings.iter() {
                    let word: String = [*a, *b, *c].iter().collect::<String>() + e;
                    if is_encodable(&word) {
                        assert!(phonetic_codes(&word).is_some());
                        tried += 1;
                    }
                }
            }
        }
    }
    assert!(tried > 400_000);
}
