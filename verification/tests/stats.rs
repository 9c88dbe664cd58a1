use vehicle_index::dft::{
    BodyType, FlagType, FuelType, LicenceStatus, OptionalNumber, Veh0120, Veh0124, Veh0160,
    Veh0220,
};
use vehicle_index::dft::cell_named;
use vehicle_index::error::IngestError;
use vehicle_index::series::Series;
use vehicle_index::stats::{engine_bucket, is_quarter, to_quarter_label, year_bucket, Stats};
use vehicle_index::text::{comes_before, decimal_text, order_of, same_text, Order};

fn veh0120(status: LicenceStatus, cells: &[(&str, i32)]) -> Veh0120 {
    Veh0120 {
        body_type: BodyType::Cars,
        make: "Ford".to_string(),
        generic_model: "Focus".to_string(),
        model: "Focus".to_string(),
        fuel: FuelType::Petrol,
        licence_status: status,
        extra: cells.iter().map(|(k, v)| (k.to_string(), *v)).collect(),
    }
}

fn veh0220(status: LicenceStatus, fuel: FuelType, desc: &str, cells: &[(&str, i32)]) -> Veh0220 {
    Veh0220 {
        body_type: BodyType::Cars,
        make: "Ford".to_string(),
        generic_model: "Focus".to_string(),
        model: "Focus".to_string(),
        fuel,
        engine_size_simple: OptionalNumber::Count(1600),
        engine_size_desc: desc.to_string(),
        licence_status: status,
        extra: cells.iter().map(|(k, v)| (k.to_string(), *v)).collect(),
    }
}

fn veh0124(status: LicenceStatus, made: OptionalNumber, used: OptionalNumber, cells: &[(&str, OptionalNumber)]) -> Veh0124 {
    Veh0124 {
        body_type: BodyType::Cars,
        make: "Ford".to_string(),
        generic_model: "Focus".to_string(),
        model: "Focus".to_string(),
        first_used: used,
        manufactured: made,
        licence_status: status,
        extra: cells.iter().map(|(k, v)| (k.to_string(), *v)).collect(),
    }
}

#[test]
fn new_stats_hold_no_count() {
    let s = Stats::new();
    assert_eq!(s.quarterly_licensed.len(), 0);
    assert_eq!(s.quarterly_sorn.len(), 0);
    assert_eq!(s.first_reg_licensed.len(), 0);
    assert_eq!(s.first_reg_sorn.len(), 0);
    assert_eq!(s.manufacture_licensed.len(), 0);
    assert_eq!(s.manufacture_sorn.len(), 0);
    assert_eq!(s.new_reg.len(), 0);
    assert_eq!(s.petrol_licensed.len(), 0);
    assert_eq!(s.petrol_sorn.len(), 0);
    assert_eq!(s.diesel_licensed.len(), 0);
    assert_eq!(s.diesel_sorn.len(), 0);
    assert_eq!(s.other_licensed.len(), 0);
    assert_eq!(s.other_sorn.len(), 0);
}

#[test]
fn quarter_label_of_2013q4() {
    assert_eq!(to_quarter_label("2013Q4"), "2013 q4");
    assert_eq!(to_quarter_label("2013Q4"), "2013Q4".replace("Q", " q"));
    assert_eq!(to_quarter_label("QQ"), " q q");
    assert_eq!(to_quarter_label(""), "");
    assert_eq!(to_quarter_label("2013q4"), "2013q4");
}

#[test]
fn gb_rows_stop_at_the_cutoff() {
    let mut s = Stats::new();
    let row = veh0120(
        LicenceStatus::Licensed,
        &[("2013Q4", 2), ("2014Q2", 3), ("2014Q3", 5), ("2014Q4", 7), ("2020Q1", 11), ("1994Q4", 13)],
    );
    assert_eq!(s.merge_veh0120_gb(&row), Ok(()));
    assert_eq!(s.quarterly_licensed.get("2013 q4"), Some(2));
    assert_eq!(s.quarterly_licensed.get("2014 q2"), Some(3));
    assert_eq!(s.quarterly_licensed.get("2014 q3"), None);
    assert_eq!(s.quarterly_licensed.get("2014 q4"), None);
    assert_eq!(s.quarterly_licensed.get("2020 q1"), None);
    assert_eq!(s.quarterly_licensed.get("1994 q4"), Some(13));
    assert_eq!(s.quarterly_licensed.len(), 3);
    assert_eq!(s.quarterly_sorn.len(), 0);
}

#[test]
fn uk_rows_have_no_cutoff() {
    let mut s = Stats::new();
    let row = veh0120(LicenceStatus::SORN, &[("2013Q4", 2), ("2014Q3", 5), ("2020Q1", 11)]);
    assert_eq!(s.merge_veh0120_uk(&row), Ok(()));
    assert_eq!(s.quarterly_sorn.get("2013 q4"), Some(2));
    assert_eq!(s.quarterly_sorn.get("2014 q3"), Some(5));
    assert_eq!(s.quarterly_sorn.get("2020 q1"), Some(11));
    assert_eq!(s.quarterly_licensed.len(), 0);
}

#[test]
fn counts_that_are_not_positive_are_skipped() {
    let mut s = Stats::new();
    let row = veh0120(LicenceStatus::Licensed, &[("2013Q1", 0), ("2013Q2", -4), ("2013Q3", 1)]);
    assert_eq!(s.merge_veh0120_uk(&row), Ok(()));
    assert_eq!(s.quarterly_licensed.len(), 1);
    assert_eq!(s.quarterly_licensed.get("2013 q3"), Some(1));
}

#[test]
fn merging_twice_doubles() {
    let mut s = Stats::new();
    let row = veh0120(LicenceStatus::Licensed, &[("2013Q1", 5), ("2013Q2", 8)]);
    assert_eq!(s.merge_veh0120_gb(&row), Ok(()));
    assert_eq!(s.merge_veh0120_gb(&row), Ok(()));
    assert_eq!(s.quarterly_licensed.get("2013 q1"), Some(10));
    assert_eq!(s.quarterly_licensed.get("2013 q2"), Some(16));
}

#[test]
fn columns_with_one_label_add_up() {
    let mut s = Stats::new();
    let row = veh0120(LicenceStatus::Licensed, &[("2013Q1", 5), ("2013Q2", 1), ("2013Q1", 8)]);
    assert_eq!(s.merge_veh0120_uk(&row), Ok(()));
    assert_eq!(s.quarterly_licensed.get("2013 q1"), Some(13));
    assert_eq!(s.quarterly_licensed.get("2013 q2"), Some(1));
    assert_eq!(s.quarterly_licensed.len(), 2);
}

#[test]
fn column_total_is_no_period() {
    let mut s = Stats::new();
    let row = veh0120(LicenceStatus::Licensed, &[("Total", 12)]);
    assert_eq!(s.merge_veh0120_uk(&row), Ok(()));
    assert_eq!(s.quarterly_licensed.get("Total"), None);
    assert_eq!(s.quarterly_licensed.len(), 0);
    assert_eq!(s.merge_veh0120_gb(&row), Ok(()));
    assert_eq!(s.quarterly_licensed.len(), 0);
}

#[test]
fn only_quarter_codes_are_periods() {
    let names = [
        "Total", "2013 q1", "2013q1", "1999", "2013Q", "2013Q10", "a013Q1", "2013Qx", "",
        "2013-Q1", " 2013Q1", "2013Q1 ", "20131Q", "Q20131", "\u{662}013Q1", "2013Q\u{663}",
    ];
    for name in names {
        assert!(!is_quarter(name), "{}", name);
        let mut s = Stats::new();
        let row = veh0120(LicenceStatus::SORN, &[(name, 7), ("2013Q1", 2)]);
        assert_eq!(s.merge_veh0120_uk(&row), Ok(()));
        assert_eq!(s.merge_veh0120_gb(&row), Ok(()));
        assert_eq!(s.quarterly_sorn.len(), 1);
        assert_eq!(s.quarterly_sorn.get("2013 q1"), Some(4));
        let mut s = Stats::new();
        let row = Veh0160 {
            body_type: BodyType::Cars,
            make: "Ford".to_string(),
            generic_model: "Focus".to_string(),
            model: "Focus".to_string(),
            fuel: FuelType::Petrol,
            extra: vec![(name.to_string(), 7), ("2013Q1".to_string(), 2)],
        };
        assert_eq!(s.merge_veh0160_uk(&row), Ok(()));
        assert_eq!(s.merge_veh0160_gb(&row), Ok(()));
        assert_eq!(s.new_reg.len(), 1);
        assert_eq!(s.new_reg.get("2013 q1"), Some(4));
    }
    for name in ["2013Q1", "0000Q0", "9999Q9", "2014Q3", "1994Q4"] {
        assert!(is_quarter(name), "{}", name);
    }
}

#[test]
fn unrecognised_column_does_not_overflow() {
    let mut s = Stats::new();
    let row = veh0120(LicenceStatus::Licensed, &[("Total", i32::MAX), ("Total", i32::MAX)]);
    assert_eq!(s.merge_veh0120_uk(&row), Ok(()));
    assert_eq!(s.quarterly_licensed.len(), 0);
}

#[test]
fn overflow_ends_the_merge_where_it_happens() {
    let mut s = Stats::new();
    let row = veh0120(LicenceStatus::Licensed, &[("2013Q1", i32::MAX), ("2013Q2", 1)]);
    assert_eq!(s.merge_veh0120_uk(&row), Ok(()));
    let row = veh0120(LicenceStatus::Licensed, &[("2013Q2", 1), ("2013Q1", 1), ("2013Q3", 1)]);
    assert_eq!(s.merge_veh0120_uk(&row), Err(IngestError::CountOverflow));
    assert_eq!(s.quarterly_licensed.get("2013 q1"), Some(i32::MAX));
    assert_eq!(s.quarterly_licensed.get("2013 q2"), Some(2));
    assert_eq!(s.quarterly_licensed.get("2013 q3"), None);
}

#[test]
fn new_registrations_go_to_one_series() {
    let mut s = Stats::new();
    let row = Veh0160 {
        body_type: BodyType::Cars,
        make: "Ford".to_string(),
        generic_model: "Focus".to_string(),
        model: "Focus".to_string(),
        fuel: FuelType::Petrol,
        extra: vec![("2014Q1".to_string(), 4), ("2014Q3".to_string(), 6)],
    };
    assert_eq!(s.merge_veh0160_gb(&row), Ok(()));
    assert_eq!(s.new_reg.get("2014 q1"), Some(4));
    assert_eq!(s.new_reg.get("2014 q3"), None);
    assert_eq!(s.merge_veh0160_uk(&row), Ok(()));
    assert_eq!(s.new_reg.get("2014 q1"), Some(8));
    assert_eq!(s.new_reg.get("2014 q3"), Some(6));
}

#[test]
fn year_buckets() {
    assert_eq!(year_bucket(OptionalNumber::Count(2019)), "2019");
    assert_eq!(year_bucket(OptionalNumber::Flag(FlagType::NotAvailable)), "Unknown");
    assert_eq!(year_bucket(OptionalNumber::Flag(FlagType::NotApplicable)), "Unknown");
    assert_eq!(year_bucket(OptionalNumber::Count(0)), "0");
    assert_eq!(year_bucket(OptionalNumber::Count(-7)), "-7");
}

#[test]
fn decimal_text_is_what_std_prints() {
    for n in [0, 1, 9, 10, 11, 99, 100, 2019, 2024, -1, -10, 123456789, i32::MAX, i32::MIN] {
        assert_eq!(decimal_text(n), n.to_string());
    }
}

#[test]
fn year_rows_read_the_current_year_only() {
    let mut s = Stats::new();
    let row = veh0124(
        LicenceStatus::Licensed,
        OptionalNumber::Count(2019),
        OptionalNumber::Flag(FlagType::NotAvailable),
        &[("2023", OptionalNumber::Count(50)), ("2024", OptionalNumber::Count(7))],
    );
    assert_eq!(s.merge_veh0124(&row), Ok(()));
    assert_eq!(s.manufacture_licensed.get("2019"), Some(7));
    assert_eq!(s.first_reg_licensed.get("Unknown"), Some(7));
    assert_eq!(s.manufacture_licensed.len(), 1);
    assert_eq!(s.first_reg_licensed.len(), 1);
    assert_eq!(s.manufacture_sorn.len(), 0);
    assert_eq!(s.first_reg_sorn.len(), 0);
}

#[test]
fn year_rows_without_a_count_change_nothing() {
    let mut s = Stats::new();
    let made = OptionalNumber::Count(2019);
    let used = OptionalNumber::Count(2020);
    let flagged = veh0124(LicenceStatus::SORN, made, used, &[("2024", OptionalNumber::Flag(FlagType::NotAvailable))]);
    let zero = veh0124(LicenceStatus::SORN, made, used, &[("2024", OptionalNumber::Count(0))]);
    let absent = veh0124(LicenceStatus::SORN, made, used, &[("2023", OptionalNumber::Count(5))]);
    assert_eq!(s.merge_veh0124(&flagged), Ok(()));
    assert_eq!(s.merge_veh0124(&zero), Ok(()));
    assert_eq!(s.merge_veh0124(&absent), Ok(()));
    assert_eq!(s.manufacture_sorn.len(), 0);
    assert_eq!(s.first_reg_sorn.len(), 0);
    let counted = veh0124(LicenceStatus::SORN, made, used, &[("2024", OptionalNumber::Count(3))]);
    assert_eq!(s.merge_veh0124(&counted), Ok(()));
    assert_eq!(s.manufacture_sorn.get("2019"), Some(3));
    assert_eq!(s.first_reg_sorn.get("2020"), Some(3));
}

#[test]
fn engine_buckets() {
    assert_eq!(engine_bucket("[z]"), "Unknown");
    assert_eq!(engine_bucket("[x]"), "Unknown");
    assert_eq!(engine_bucket("1001cc to 1200cc"), "1001cc to 1200cc");
    assert_eq!(engine_bucket("[y]"), "[y]");
    assert_eq!(engine_bucket(""), "");
    assert_eq!(engine_bucket("Unknown"), "Unknown");
}

#[test]
fn engine_rows_go_to_one_of_six_series() {
    let cases = [
        (LicenceStatus::Licensed, FuelType::Petrol, 0),
        (LicenceStatus::SORN, FuelType::Petrol, 1),
        (LicenceStatus::Licensed, FuelType::Diesel, 2),
        (LicenceStatus::SORN, FuelType::Diesel, 3),
        (LicenceStatus::Licensed, FuelType::Gas, 4),
        (LicenceStatus::SORN, FuelType::BEV, 5),
        (LicenceStatus::Licensed, FuelType::PetrolHybrid, 4),
        (LicenceStatus::SORN, FuelType::DieselPluginHybrid, 5),
        (LicenceStatus::Licensed, FuelType::Other, 4),
        (LicenceStatus::SORN, FuelType::FuelCell, 5),
        (LicenceStatus::Licensed, FuelType::RangeExtender, 4),
        (LicenceStatus::SORN, FuelType::DieselHybrid, 5),
        (LicenceStatus::SORN, FuelType::PetrolPluginHybrid, 5),
    ];
    for (status, fuel, which) in cases {
        let mut s = Stats::new();
        let row = veh0220(status, fuel, "1401cc to 1600cc", &[("2024", 9), ("2023", 100)]);
        assert_eq!(s.merge_veh0220(&row), Ok(()));
        let all = [
            &s.petrol_licensed,
            &s.petrol_sorn,
            &s.diesel_licensed,
            &s.diesel_sorn,
            &s.other_licensed,
            &s.other_sorn,
        ];
        for (k, series) in all.iter().enumerate() {
            if k == which {
                assert_eq!(series.get("1401cc to 1600cc"), Some(9));
                assert_eq!(series.len(), 1);
            } else {
                assert_eq!(series.len(), 0);
            }
        }
    }
}

#[test]
fn engine_rows_without_a_positive_count_change_nothing() {
    let mut s = Stats::new();
    assert_eq!(s.merge_veh0220(&veh0220(LicenceStatus::Licensed, FuelType::Petrol, "[x]", &[("2024", 0)])), Ok(()));
    assert_eq!(s.merge_veh0220(&veh0220(LicenceStatus::Licensed, FuelType::Petrol, "[x]", &[("2023", 4)])), Ok(()));
    assert_eq!(s.petrol_licensed.len(), 0);
    assert_eq!(s.merge_veh0220(&veh0220(LicenceStatus::Licensed, FuelType::Petrol, "[x]", &[("2024", 4)])), Ok(()));
    assert_eq!(s.petrol_licensed.get("Unknown"), Some(4));
}

#[test]
fn series_keeps_its_keys_in_order() {
    let mut s = Series::new();
    assert!(s.add("b".to_string(), 2));
    assert!(s.add("a".to_string(), 1));
    assert!(s.add("c".to_string(), 3));
    assert!(s.add("a".to_string(), 10));
    assert!(s.add("d".to_string(), 0));
    assert!(s.add("e".to_string(), -5));
    assert_eq!(s.len(), 3);
    assert_eq!(s.entry(0), Some(("a", 11)));
    assert_eq!(s.entry(1), Some(("b", 2)));
    assert_eq!(s.entry(2), Some(("c", 3)));
    assert_eq!(s.entry(3), None);
    assert!(!s.add("a".to_string(), i32::MAX));
    assert_eq!(s.get("a"), Some(11));
    assert!(s.add("a".to_string(), i32::MAX - 11));
    assert_eq!(s.get("a"), Some(i32::MAX));
}

#[test]
fn order_of_strings_is_that_of_std() {
    let words = ["", "a", "A", "ab", "b", "2014Q3", "2014Q2", "2014Q30", "2013Q4", "\u{e9}", "z", "~", "2014"];
    for a in words {
        for b in words {
            let expected = match a.cmp(b) {
                std::cmp::Ordering::Less => Order::Less,
                std::cmp::Ordering::Equal => Order::Equal,
                std::cmp::Ordering::Greater => Order::Greater,
            };
            assert_eq!(order_of(a, b), expected);
            assert_eq!(same_text(a, b), a == b);
            assert_eq!(comes_before(a, b), a < b);
        }
    }
}

#[test]
fn cell_named_finds_the_first_of_a_name() {
    let cells = vec![("a".to_string(), 1), ("b".to_string(), 2), ("a".to_string(), 3)];
    assert_eq!(cell_named(&cells, "a"), Some(&1));
    assert_eq!(cell_named(&cells, "b"), Some(&2));
    assert_eq!(cell_named(&cells, "c"), None);
}
