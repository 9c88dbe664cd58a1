use std::collections::BTreeSet;
use vehicle_index::blob::to_blob;
use vehicle_index::dft::{
    BodyType, FuelType, HasIdentity, LicenceStatus, Veh0120, Veh0124, Veh0160, Veh0220,
    OptionalNumber, FlagType,
};
use vehicle_index::error::IngestError;
use vehicle_index::index::{parse, Index, Tables};
use vehicle_index::rules::{Veh0120Gb, Veh0120Uk, Veh0124Years, Veh0160Gb, Veh0220Engines};

fn quarterly(make: &str, generic: &str, model: &str, status: LicenceStatus, cells: &[(&str, i32)]) -> Veh0120 {
    Veh0120 {
        body_type: BodyType::Cars,
        make: make.to_string(),
        generic_model: generic.to_string(),
        model: model.to_string(),
        fuel: FuelType::Petrol,
        licence_status: status,
        extra: cells.iter().map(|(k, v)| (k.to_string(), *v)).collect(),
    }
}

fn decode(blob: &[u8]) -> Vec<usize> {
    assert_eq!(blob.len() % 4, 0);
    blob.chunks(4)
        .map(|c| u32::from_le_bytes([c[0], c[1], c[2], c[3]]) as usize)
        .collect()
}

fn no_tables() -> Tables {
    Tables {
        veh0120_gb: vec![],
        veh0120_uk: vec![],
        veh0124_am: vec![],
        veh0124_nz: vec![],
        veh0160_gb: vec![],
        veh0160_uk: vec![],
        veh0220: vec![],
    }
}

#[test]
fn new_index_is_empty() {
    let index = Index::new();
    assert!(index.makes().is_empty());
    assert!(index.generic_models().is_empty());
    assert!(index.models().is_empty());
    assert_eq!(index.keywords().len(), 0);
    assert_eq!(index.metaphones().len(), 0);
}

#[test]
fn identity_of_a_row_is_its_three_names() {
    let row = quarterly("BMW", "3 Series", "320d", LicenceStatus::Licensed, &[]);
    let id = row.identity();
    assert_eq!(id.make, "BMW");
    assert_eq!(id.generic_model, "3 Series");
    assert_eq!(id.model, "320d");
}

#[test]
fn one_row_creates_three_linked_entities() {
    let mut index = Index::new();
    let row = quarterly("BMW", "3 Series", "320d", LicenceStatus::Licensed, &[("2013Q1", 7)]);
    assert_eq!(index.insert(row, &Veh0120Uk), Ok(()));
    let make = index.make("bmw").unwrap();
    assert_eq!(make.name, "BMW");
    assert_eq!(make.slug, "bmw");
    assert_eq!(make.generic_models.len(), 1);
    let link = make.generic_models.get(0).unwrap();
    assert_eq!(link.slug, "bmw_3_series");
    assert_eq!(link.name, "3 Series");
    let generic = index.generic_model("bmw_3_series").unwrap();
    assert_eq!(generic.make.slug, "bmw");
    assert_eq!(generic.make.name, "BMW");
    assert_eq!(generic.models.get(0).unwrap().slug, "bmw_320d");
    let model = index.model("bmw_320d").unwrap();
    assert_eq!(model.index, 0);
    assert_eq!(model.make.slug, "bmw");
    assert_eq!(model.generic_model.slug, "bmw_3_series");
    assert_eq!(model.full_name(), "BMW 320d");
    assert_eq!(make.stats.quarterly_licensed.get("2013 q1"), Some(7));
    assert_eq!(generic.stats.quarterly_licensed.get("2013 q1"), Some(7));
    assert_eq!(model.stats.quarterly_licensed.get("2013 q1"), Some(7));
}

#[test]
fn same_identity_keeps_one_entity_and_doubles_the_counts() {
    let mut index = Index::new();
    let cells = [("2013Q1", 5), ("2013Q2", 9), ("2013Q3", 0)];
    for _ in 0..2 {
        let row = quarterly("Ford", "Focus", "Focus Zetec", LicenceStatus::SORN, &cells);
        assert_eq!(index.insert(row, &Veh0120Gb), Ok(()));
    }
    assert_eq!(index.makes().len(), 1);
    assert_eq!(index.generic_models().len(), 1);
    assert_eq!(index.models().len(), 1);
    let model = index.model("ford_focus_zetec").unwrap();
    assert_eq!(model.stats.quarterly_sorn.get("2013 q1"), Some(10));
    assert_eq!(model.stats.quarterly_sorn.get("2013 q2"), Some(18));
    assert_eq!(model.stats.quarterly_sorn.get("2013 q3"), None);
    assert_eq!(model.stats.quarterly_sorn.len(), 2);
    assert_eq!(model.stats.quarterly_licensed.len(), 0);
    let make = index.make("ford").unwrap();
    assert_eq!(make.stats.quarterly_sorn.get("2013 q1"), Some(10));
    assert_eq!(make.generic_models.len(), 1);
}

#[test]
fn names_that_differ_by_case_share_an_entity() {
    let mut index = Index::new();
    let a = quarterly("FORD", "FOCUS", "FOCUS ZETEC", LicenceStatus::Licensed, &[("2013Q1", 1)]);
    let b = quarterly("Ford", "Focus", "Focus/Zetec", LicenceStatus::Licensed, &[("2013Q1", 2)]);
    assert_eq!(index.insert(a, &Veh0120Uk), Ok(()));
    assert_eq!(index.insert(b, &Veh0120Uk), Ok(()));
    assert_eq!(index.models().len(), 1);
    let model = index.model("ford_focus_zetec").unwrap();
    assert_eq!(model.name, "FOCUS ZETEC");
    assert_eq!(model.stats.quarterly_licensed.get("2013 q1"), Some(3));
}

#[test]
fn model_indices_count_up_in_first_seen_order() {
    let mut index = Index::new();
    let names = ["Zafira", "Astra", "Corsa", "Astra", "Meriva", "Zafira"];
    for name in names.iter() {
        let row = quarterly("Vauxhall", name, name, LicenceStatus::Licensed, &[("2013Q1", 1)]);
        assert_eq!(index.insert(row, &Veh0120Uk), Ok(()));
    }
    assert_eq!(index.models().len(), 4);
    assert_eq!(index.model("vauxhall_zafira").unwrap().index, 0);
    assert_eq!(index.model("vauxhall_astra").unwrap().index, 1);
    assert_eq!(index.model("vauxhall_corsa").unwrap().index, 2);
    assert_eq!(index.model("vauxhall_meriva").unwrap().index, 3);
    let mut seen: Vec<usize> = index.models().iter().map(|m| m.index).collect();
    seen.sort();
    assert_eq!(seen, vec![0, 1, 2, 3]);
    let slugs: Vec<&str> = index.models().iter().map(|m| m.slug.as_str()).collect();
    assert_eq!(slugs, vec!["vauxhall_astra", "vauxhall_corsa", "vauxhall_meriva", "vauxhall_zafira"]);
}

#[test]
fn golf_under_two_makes_gives_two_generic_models() {
    let mut index = Index::new();
    let a = quarterly("Volkswagen", "Golf", "Golf GTI", LicenceStatus::Licensed, &[("2013Q1", 1)]);
    let b = quarterly("VW-Classics", "Golf", "Golf GTI", LicenceStatus::Licensed, &[("2013Q1", 1)]);
    assert_eq!(index.insert(a, &Veh0120Uk), Ok(()));
    assert_eq!(index.insert(b, &Veh0120Uk), Ok(()));
    assert_eq!(index.generic_models().len(), 2);
    let one = index.generic_model("volkswagen_golf").unwrap();
    let two = index.generic_model("vw-classics_golf").unwrap();
    assert_ne!(one.slug, two.slug);
    assert_eq!(one.name, "Golf");
    assert_eq!(two.name, "Golf");
    assert_eq!(one.make.slug, "volkswagen");
    assert_eq!(two.make.slug, "vw-classics");
    assert_eq!(index.models().len(), 2);
}

#[test]
fn non_ascii_name_is_rejected_and_changes_nothing() {
    let mut index = Index::new();
    let row = quarterly("Citro\u{eb}n", "C3", "C3 VTR", LicenceStatus::Licensed, &[("2013Q1", 1)]);
    assert_eq!(
        index.insert(row, &Veh0120Uk),
        Err(IngestError::InvalidCharacter(vec!["Citro\u{eb}n".to_string()]))
    );
    let row = quarterly("Skoda", "Fabia", "Fabia \u{2014} vRS", LicenceStatus::Licensed, &[("2013Q1", 1)]);
    assert_eq!(
        index.insert(row, &Veh0120Uk),
        Err(IngestError::InvalidCharacter(vec![
            "Skoda".to_string(),
            "Fabia \u{2014} vRS".to_string()
        ]))
    );
    assert!(index.makes().is_empty());
    assert!(index.models().is_empty());
    assert_eq!(index.keywords().len(), 0);
}

#[test]
fn count_past_the_limit_is_an_error() {
    let mut index = Index::new();
    let a = quarterly("Ford", "Focus", "Focus", LicenceStatus::Licensed, &[("2013Q1", i32::MAX)]);
    let b = quarterly("Ford", "Focus", "Focus", LicenceStatus::Licensed, &[("2013Q1", 1)]);
    assert_eq!(index.insert(a, &Veh0120Uk), Ok(()));
    assert_eq!(index.insert(b, &Veh0120Uk), Err(IngestError::CountOverflow));
    let make = index.make("ford").unwrap();
    assert_eq!(make.stats.quarterly_licensed.get("2013 q1"), Some(i32::MAX));
}

#[test]
fn keywords_of_bmw_3_series() {
    let mut index = Index::new();
    let row = quarterly("BMW", "3 Series", "3 Series", LicenceStatus::Licensed, &[("2013Q1", 1)]);
    assert_eq!(index.insert(row, &Veh0120Uk), Ok(()));
    let model = index.model("bmw_3_series").unwrap();
    let words = model.keywords();
    assert_eq!(words.len(), 3);
    assert!(words.contains("bmw"));
    assert!(words.contains("3"));
    assert!(words.contains("series"));
    assert_eq!(index.keywords().len(), 3);
    for word in ["bmw", "3", "series"] {
        let ids = index.keywords().get(word).unwrap();
        assert_eq!(ids.iter().copied().collect::<Vec<usize>>(), vec![0]);
    }
    let rows = index.metaphones().rows();
    assert_eq!(rows, vec![("SRS".to_string(), "series".to_string())]);
}

#[test]
fn keyword_lists_every_model_that_holds_it() {
    let mut index = Index::new();
    for name in ["Focus", "Fiesta", "Focus Estate"] {
        let row = quarterly("Ford", "x", name, LicenceStatus::Licensed, &[("2013Q1", 1)]);
        assert_eq!(index.insert(row, &Veh0120Uk), Ok(()));
    }
    let ford: Vec<usize> = index.keywords().get("ford").unwrap().iter().copied().collect();
    assert_eq!(ford, vec![0, 1, 2]);
    let focus: Vec<usize> = index.keywords().get("focus").unwrap().iter().copied().collect();
    assert_eq!(focus, vec![0, 2]);
    assert!(index.keywords().get("x").is_none());
    let estate = index.metaphones().get("ASTT").unwrap();
    assert!(estate.contains("estate"));
}

#[test]
fn blob_of_1_3_300_reads_back() {
    let ids: BTreeSet<usize> = [300, 1, 3].into_iter().collect();
    let blob = to_blob(&ids);
    assert_eq!(blob, vec![1, 0, 0, 0, 3, 0, 0, 0, 44, 1, 0, 0]);
    assert_eq!(decode(&blob), vec![1, 3, 300]);
}

#[test]
fn blob_of_no_id_is_empty() {
    assert_eq!(to_blob(&BTreeSet::new()), Vec::<u8>::new());
}

#[test]
fn blob_uses_all_four_bytes() {
    let ids: BTreeSet<usize> = [0x0403_0201].into_iter().collect();
    assert_eq!(to_blob(&ids), vec![1, 2, 3, 4]);
}

#[test]
fn ford_focus_end_to_end() {
    let mut tables = no_tables();
    tables.veh0120_gb.push(quarterly("Ford", "Focus", "Focus", LicenceStatus::Licensed, &[("2013Q1", 5)]));
    let index = parse(&tables).unwrap();
    assert_eq!(index.models().len(), 1);
    let model = &index.models()[0];
    assert_eq!(model.slug, "ford_focus");
    assert_eq!(model.stats.quarterly_licensed.get("2013 q1"), Some(5));
    let rows = index.keywords().rows();
    let focus = rows.iter().find(|(word, _)| word == "focus").unwrap();
    assert!(decode(&focus.1).contains(&model.index));
    let words: Vec<&str> = rows.iter().map(|(w, _)| w.as_str()).collect();
    assert_eq!(words, vec!["focus", "ford"]);
}

#[test]
fn parse_takes_the_tables_in_order() {
    let mut tables = no_tables();
    tables.veh0120_uk.push(quarterly("Ford", "Focus", "Focus", LicenceStatus::Licensed, &[("2015Q1", 4)]));
    tables.veh0120_gb.push(quarterly("Audi", "A4", "A4", LicenceStatus::Licensed, &[("2013Q1", 5), ("2015Q1", 6)]));
    tables.veh0124_am.push(Veh0124 {
        body_type: BodyType::Cars,
        make: "Audi".to_string(),
        generic_model: "A4".to_string(),
        model: "A4".to_string(),
        first_used: OptionalNumber::Count(2020),
        manufactured: OptionalNumber::Flag(FlagType::NotAvailable),
        licence_status: LicenceStatus::Licensed,
        extra: vec![("2024".to_string(), OptionalNumber::Count(11))],
    });
    tables.veh0160_gb.push(Veh0160 {
        body_type: BodyType::Cars,
        make: "Audi".to_string(),
        generic_model: "A4".to_string(),
        model: "A4".to_string(),
        fuel: FuelType::Diesel,
        extra: vec![("2012Q4".to_string(), 3)],
    });
    tables.veh0220.push(Veh0220 {
        body_type: BodyType::Cars,
        make: "Audi".to_string(),
        generic_model: "A4".to_string(),
        model: "A4".to_string(),
        fuel: FuelType::Diesel,
        engine_size_simple: OptionalNumber::Count(2000),
        engine_size_desc: "1901cc to 2000cc".to_string(),
        licence_status: LicenceStatus::SORN,
        extra: vec![("2024".to_string(), 2)],
    });
    let index = parse(&tables).unwrap();
    assert_eq!(index.model("audi_a4").unwrap().index, 0);
    assert_eq!(index.model("ford_focus").unwrap().index, 1);
    let audi = index.make("audi").unwrap();
    assert_eq!(audi.stats.quarterly_licensed.get("2013 q1"), Some(5));
    assert_eq!(audi.stats.quarterly_licensed.get("2015 q1"), None);
    assert_eq!(audi.stats.manufacture_licensed.get("Unknown"), Some(11));
    assert_eq!(audi.stats.first_reg_licensed.get("2020"), Some(11));
    assert_eq!(audi.stats.new_reg.get("2012 q4"), Some(3));
    assert_eq!(audi.stats.diesel_sorn.get("1901cc to 2000cc"), Some(2));
}

#[test]
fn parse_stops_at_the_first_row_that_fails() {
    let mut tables = no_tables();
    tables.veh0120_gb.push(quarterly("Ford", "Focus", "Focus", LicenceStatus::Licensed, &[("2013Q1", 5)]));
    tables.veh0120_uk.push(quarterly("Se\u{e4}t", "Ibiza", "Ibiza", LicenceStatus::Licensed, &[("2013Q1", 5)]));
    let r = parse(&tables);
    assert!(matches!(r, Err(IngestError::InvalidCharacter(_))));
}

#[test]
fn first_registrations_ignore_the_licence_status() {
    let mut index = Index::new();
    let row = Veh0160 {
        body_type: BodyType::Cars,
        make: "Kia".to_string(),
        generic_model: "Ceed".to_string(),
        model: "Ceed".to_string(),
        fuel: FuelType::Petrol,
        extra: vec![("2014Q2".to_string(), 3), ("2014Q3".to_string(), 4), ("2014Q4".to_string(), -1)],
    };
    assert_eq!(index.insert(row, &Veh0160Gb), Ok(()));
    let make = index.make("kia").unwrap();
    assert_eq!(make.stats.new_reg.get("2014 q2"), Some(3));
    assert_eq!(make.stats.new_reg.get("2014 q3"), None);
    assert_eq!(make.stats.new_reg.len(), 1);
}

#[test]
fn year_and_engine_rows_reach_all_three_levels() {
    let mut index = Index::new();
    let years = Veh0124 {
        body_type: BodyType::Motorcycles,
        make: "Honda".to_string(),
        generic_model: "CB".to_string(),
        model: "CB500".to_string(),
        first_used: OptionalNumber::Flag(FlagType::NotApplicable),
        manufactured: OptionalNumber::Count(2019),
        licence_status: LicenceStatus::SORN,
        extra: vec![("2023".to_string(), OptionalNumber::Count(9)), ("2024".to_string(), OptionalNumber::Count(4))],
    };
    assert_eq!(index.insert(years, &Veh0124Years), Ok(()));
    let engines = Veh0220 {
        body_type: BodyType::Motorcycles,
        make: "Honda".to_string(),
        generic_model: "CB".to_string(),
        model: "CB500".to_string(),
        fuel: FuelType::BEV,
        engine_size_simple: OptionalNumber::Flag(FlagType::NotApplicable),
        engine_size_desc: "[z]".to_string(),
        licence_status: LicenceStatus::Licensed,
        extra: vec![("2024".to_string(), 6)],
    };
    assert_eq!(index.insert(engines, &Veh0220Engines), Ok(()));
    for stats in [
        &index.make("honda").unwrap().stats,
        &index.generic_model("honda_cb").unwrap().stats,
        &index.model("honda_cb500").unwrap().stats,
    ] {
        assert_eq!(stats.manufacture_sorn.get("2019"), Some(4));
        assert_eq!(stats.first_reg_sorn.get("Unknown"), Some(4));
        assert_eq!(stats.manufacture_licensed.len(), 0);
        assert_eq!(stats.other_licensed.get("Unknown"), Some(6));
    }
}
