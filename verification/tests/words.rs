use regex::Regex;
use std::collections::BTreeSet;
use vehicle_index::entity::{GenericModel, Make, Model};
use vehicle_index::link::{Link, LinkSet};
use vehicle_index::search::{KeywordIndex, PhoneticIndex};
use vehicle_index::text::Order;
use vehicle_index::words::{keywords_of, WordSet};

fn listed(words: &WordSet) -> Vec<String> {
    (0..words.len()).map(|i| words.get(i).unwrap().to_string()).collect()
}

#[test]
fn tokens_of_bmw_3_series() {
    let words = keywords_of("BMW 3 Series");
    assert_eq!(listed(&words), vec!["3", "bmw", "series"]);
}

#[test]
fn letters_and_digits_do_not_mix() {
    assert_eq!(listed(&keywords_of("320d xDrive4")), vec!["320", "4", "d", "xdrive"]);
    assert_eq!(listed(&keywords_of("a1b22c")), vec!["1", "22", "a", "b", "c"]);
}

#[test]
fn other_characters_part_tokens() {
    assert_eq!(listed(&keywords_of("Land-Rover/Range_Rover (4x4)")), vec!["4", "land", "range", "rover", "x"]);
    assert_eq!(listed(&keywords_of("")), Vec::<String>::new());
    assert_eq!(listed(&keywords_of(" - ")), Vec::<String>::new());
    assert_eq!(listed(&keywords_of("Citro\u{eb}n \u{c9}clair")), vec!["citro", "clair", "n"]);
}

#[test]
fn tokens_are_the_matches_of_the_pattern() {
    let pattern = Regex::new(r"[a-z]+|[0-9]+").unwrap();
    let names = [
        "BMW 3 Series",
        "FORD FOCUS ZETEC 1.6 TDCI",
        "mercedes-benz c220 cdi blueefficiency",
        "VOLKSWAGEN GOLF GTI 16V",
        "9-3 2.0T",
        "",
        "   ",
        "a",
        "7",
        "ab12cd34",
        "x1y2z3",
        "Th\u{e9} 2CV",
        "AUDI A4 AVANT S LINE TDI QUATTRO 170",
    ];
    for name in names {
        let lowered = name.to_ascii_lowercase();
        let expected: BTreeSet<String> = pattern.find_iter(&lowered).map(|m| m.as_str().to_string()).collect();
        let got: BTreeSet<String> = listed(&keywords_of(name)).into_iter().collect();
        assert_eq!(got, expected, "{}", name);
    }
}

#[test]
fn word_set_holds_each_word_once_in_order() {
    let mut set = WordSet::new();
    assert!(set.insert("series".to_string()));
    assert!(set.insert("bmw".to_string()));
    assert!(!set.insert("series".to_string()));
    assert!(set.insert("3".to_string()));
    assert_eq!(set.len(), 3);
    assert_eq!(listed(&set), vec!["3", "bmw", "series"]);
    assert!(set.contains("bmw"));
    assert!(!set.contains("audi"));
    assert_eq!(set.get(3), None);
    assert_eq!(set.joined('|'), "3|bmw|series");
    assert_eq!(WordSet::new().joined('|'), "");
}

#[test]
fn links_are_ordered_by_slug_then_name() {
    let link = |slug: &str, name: &str| Link { slug: slug.to_string(), name: name.to_string() };
    assert_eq!(link("a", "z").order(&link("b", "a")), Order::Less);
    assert_eq!(link("a", "z").order(&link("a", "a")), Order::Greater);
    assert_eq!(link("a", "z").order(&link("a", "z")), Order::Equal);
    assert_eq!(link("a", "a").order(&link("a", "b")), Order::Less);
    assert!(link("a", "z") < link("b", "a"));
    let mut set = LinkSet::new();
    assert!(set.insert(link("b", "B")));
    assert!(set.insert(link("a", "Z")));
    assert!(set.insert(link("a", "A")));
    assert!(!set.insert(link("b", "B")));
    assert_eq!(set.len(), 3);
    assert_eq!(set.get(0), Some(&link("a", "A")));
    assert_eq!(set.get(1), Some(&link("a", "Z")));
    assert_eq!(set.get(2), Some(&link("b", "B")));
    assert_eq!(set.get(3), None);
}

#[test]
fn entities_start_empty_and_link_back() {
    let make = Make::new("BMW", "bmw");
    assert_eq!(make.name, "BMW");
    assert_eq!(make.slug, "bmw");
    assert_eq!(make.generic_models.len(), 0);
    assert_eq!(make.stats.new_reg.len(), 0);
    assert_eq!(make.link(), Link { slug: "bmw".to_string(), name: "BMW".to_string() });
    let generic = GenericModel::new(&make, "3 Series", "bmw_3_series");
    assert_eq!(generic.make, make.link());
    assert_eq!(generic.models.len(), 0);
    assert_eq!(generic.link(), Link { slug: "bmw_3_series".to_string(), name: "3 Series".to_string() });
    let model = Model::new(&make, &generic, "320d", "bmw_320d", 17);
    assert_eq!(model.index, 17);
    assert_eq!(model.make, make.link());
    assert_eq!(model.generic_model, generic.link());
    assert_eq!(model.link(), Link { slug: "bmw_320d".to_string(), name: "320d".to_string() });
    assert_eq!(model.full_name(), "BMW 320d");
    assert_eq!(listed(&model.keywords()), vec!["320", "bmw", "d"]);
}

#[test]
fn keyword_index_files_ids_under_words() {
    let mut index = KeywordIndex::new();
    index.register("focus", 3);
    index.register("ford", 3);
    index.register("focus", 1);
    index.register("focus", 300);
    index.register("focus", 3);
    assert_eq!(index.len(), 2);
    let ids: Vec<usize> = index.get("focus").unwrap().iter().copied().collect();
    assert_eq!(ids, vec![1, 3, 300]);
    assert!(index.get("fiesta").is_none());
    let (word, ids) = index.entry(1).unwrap();
    assert_eq!(word, "ford");
    assert_eq!(ids.len(), 1);
    assert!(index.entry(2).is_none());
    assert_eq!(
        index.rows(),
        vec![
            ("focus".to_string(), vec![1, 0, 0, 0, 3, 0, 0, 0, 44, 1, 0, 0]),
            ("ford".to_string(), vec![3, 0, 0, 0]),
        ]
    );
}

#[test]
fn phonetic_index_files_words_under_both_codes() {
    let mut index = PhoneticIndex::new();
    index.register("smith", &Some(("SM0".to_string(), "XMT".to_string())));
    index.register("smyth", &Some(("SM0".to_string(), "XMT".to_string())));
    index.register("series", &Some(("SRS".to_string(), "SRS".to_string())));
    index.register("bmw", &None);
    index.register("smith", &Some(("SM0".to_string(), "XMT".to_string())));
    assert_eq!(index.len(), 3);
    assert_eq!(
        index.rows(),
        vec![
            ("SM0".to_string(), "smith|smyth".to_string()),
            ("SRS".to_string(), "series".to_string()),
            ("XMT".to_string(), "smith|smyth".to_string()),
        ]
    );
    assert!(index.get("SRS").unwrap().contains("series"));
    assert!(index.get("BM").is_none());
    assert_eq!(index.entry(0).unwrap().0, "SM0");
    assert!(index.entry(3).is_none());
}
