use vehicle_index::error::IngestError;
use vehicle_index::slug::slugify;

#[test]
fn slug_of_one_name_is_lower_case() {
    assert_eq!(slugify(&["BMW"]), Ok("bmw".to_string()));
}

#[test]
fn slug_joins_names_with_underscore() {
    assert_eq!(slugify(&["BMW", "3 Series"]), Ok("bmw_3_series".to_string()));
}

#[test]
fn slug_turns_slash_into_underscore() {
    assert_eq!(slugify(&["Land Rover", "Range/Rover"]), Ok("land_rover_range_rover".to_string()));
}

#[test]
fn slug_rejects_non_ascii() {
    let r = slugify(&["Citro\u{eb}n", "C3"]);
    assert_eq!(
        r,
        Err(IngestError::InvalidCharacter(vec!["Citro\u{eb}n".to_string(), "C3".to_string()]))
    );
}

#[test]
fn slug_of_no_name_is_empty() {
    assert_eq!(slugify(&[]), Ok(String::new()));
}

#[test]
fn names_that_differ_by_case_or_separator_share_a_slug() {
    assert_eq!(slugify(&["Alfa Romeo"]), slugify(&["ALFA/ROMEO"]));
    assert_eq!(slugify(&["Alfa Romeo"]), slugify(&["alfa_romeo"]));
    assert_eq!(slugify(&["Alfa Romeo"]), Ok("alfa_romeo".to_string()));
}

#[test]
fn plain_names_that_differ_have_different_slugs() {
    let names = ["Golf", "Polo", "Gol", "Golf2", "G0lf", "Go-lf"];
    for a in names {
        for b in names {
            if a != b {
                assert_ne!(slugify(&["VW", a]), slugify(&["VW", b]));
                assert_ne!(slugify(&[a, "GTI"]), slugify(&[b, "GTI"]));
                assert_ne!(slugify(&[a]), slugify(&[b]));
            }
        }
    }
}

#[test]
fn slug_is_the_same_every_time() {
    let first = slugify(&["Mercedes-Benz", "C 220/CDI"]);
    for _ in 0..3 {
        assert_eq!(slugify(&["Mercedes-Benz", "C 220/CDI"]), first);
    }
    assert_eq!(first, Ok("mercedes-benz_c_220_cdi".to_string()));
}

#[test]
fn names_with_separators_can_share_a_slug() {
    assert_eq!(slugify(&["a", "b c"]), slugify(&["a b", "c"]));
    assert_eq!(slugify(&["a_b"]), slugify(&["a", "b"]));
}

#[test]
fn slug_keeps_other_ascii_characters() {
    assert_eq!(slugify(&["9-3 (2.0T)"]), Ok("9-3_(2.0t)".to_string()));
    assert_eq!(slugify(&["~\u{7f}"]), Ok("~\u{7f}".to_string()));
    assert!(slugify(&["\u{80}"]).is_err());
}
