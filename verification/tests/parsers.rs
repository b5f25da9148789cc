use docker_stats_exporter::decimal::Decimal;
use docker_stats_exporter::error::Error;
use docker_stats_exporter::labels::parse_labels;
use docker_stats_exporter::parse::{
    parse_blockio_str, parse_io_str, parse_mem_usage_str, parse_netio_str, parse_pair,
    parse_percent,
};
use docker_stats_exporter::units::{convert_to_bytes, UnitTable};

fn dec(mantissa: u128, scale: usize) -> Decimal {
    Decimal { mantissa, scale }
}

#[test]
fn convert_scales_by_every_table_multiplier() {
    let t = UnitTable::standard();
    let cases: Vec<(&str, u128)> = vec![
        ("B", 1),
        ("kB", 1000),
        ("MB", 1000000),
        ("GB", 1000000000),
        ("TB", 1000000000000),
        ("KiB", 1024),
        ("MiB", 1048576),
        ("GiB", 1073741824),
        ("TiB", 1099511627776),
    ];
    for (unit, mult) in cases {
        let r = convert_to_bytes(dec(7, 0), unit, &t).unwrap();
        assert_eq!(r, dec(7 * mult, 0));
    }
}

#[test]
fn convert_zero_is_zero_for_every_unit() {
    let t = UnitTable::standard();
    for unit in ["B", "kB", "MB", "GB", "TB", "KiB", "MiB", "GiB", "TiB"] {
        assert_eq!(convert_to_bytes(dec(0, 0), unit, &t).unwrap(), dec(0, 0));
    }
}

#[test]
fn convert_unknown_unit_fails_and_keeps_the_symbol() {
    let t = UnitTable::standard();
    let e = convert_to_bytes(dec(1, 0), "unknown", &t).unwrap_err();
    match e {
        Error::UnknownUnit(u) => assert_eq!(u, "unknown"),
        other => panic!("wrong error: {:?}", other),
    }
}

#[test]
fn unit_symbols_are_case_and_form_sensitive() {
    let t = UnitTable::standard();
    assert!(matches!(
        convert_to_bytes(dec(1, 0), "KB", &t),
        Err(Error::UnknownUnit(_))
    ));
    assert!(matches!(
        convert_to_bytes(dec(1, 0), "kib", &t),
        Err(Error::UnknownUnit(_))
    ));
}

#[test]
fn single_size_round_trips_value_times_multiplier() {
    let t = UnitTable::standard();
    assert_eq!(parse_io_str("0B", &t).unwrap(), dec(0, 0));
    assert_eq!(parse_io_str("7kB", &t).unwrap(), dec(7000, 0));
    assert_eq!(parse_io_str("12.3MiB", &t).unwrap(), dec(123 * 1048576, 1));
    assert_eq!(parse_io_str("1.5GiB", &t).unwrap(), dec(15 * 1073741824, 1));
    assert_eq!(parse_io_str("999TB", &t).unwrap(), dec(999 * 1000000000000, 0));
    assert_eq!(parse_io_str("0.5B", &t).unwrap(), dec(5, 1));
}

#[test]
fn single_size_round_trips_every_supported_unit() {
    let t = UnitTable::standard();
    let units: Vec<(&str, u128)> = vec![
        ("B", 1),
        ("kB", 1000),
        ("MB", 1000000),
        ("GB", 1000000000),
        ("TB", 1000000000000),
        ("KiB", 1024),
        ("MiB", 1048576),
        ("GiB", 1073741824),
        ("TiB", 1099511627776),
    ];
    for (unit, mult) in units {
        assert_eq!(
            parse_io_str(&format!("7.25{}", unit), &t).unwrap(),
            dec(725 * mult, 2)
        );
        assert_eq!(parse_io_str(&format!("0{}", unit), &t).unwrap(), dec(0, 0));
        assert_eq!(
            parse_io_str(&format!("90000{}", unit), &t).unwrap(),
            dec(90000 * mult, 0)
        );
    }
}

#[test]
fn single_size_rejects_missing_or_bad_number() {
    let t = UnitTable::standard();
    assert!(matches!(parse_io_str("MiB", &t), Err(Error::MalformedSize(_))));
    assert!(matches!(parse_io_str("", &t), Err(Error::MalformedSize(_))));
    assert!(matches!(parse_io_str("1.2.3kB", &t), Err(Error::MalformedSize(_))));
    assert!(matches!(parse_io_str(".5kB", &t), Err(Error::MalformedSize(_))));
    assert!(matches!(parse_io_str("12.", &t), Err(Error::MalformedSize(_))));
    assert!(matches!(parse_io_str("12", &t), Err(Error::MalformedSize(_))));
}

#[test]
fn single_size_rejects_unknown_unit_with_symbol() {
    let t = UnitTable::standard();
    match parse_io_str("3xB", &t).unwrap_err() {
        Error::UnknownUnit(u) => assert_eq!(u, "xB"),
        other => panic!("wrong error: {:?}", other),
    }
}

#[test]
fn percent_parses_zero_and_fractions() {
    assert_eq!(parse_percent("0%").unwrap(), dec(0, 0));
    let d = parse_percent("100.00%").unwrap();
    assert_eq!(d, dec(10000, 2));
    assert_eq!(d.format(), "100");
    assert_eq!(parse_percent("12.5%").unwrap(), dec(125, 1));
}

#[test]
fn percent_rejects_garbage_and_missing_sign() {
    assert!(matches!(parse_percent("abc%"), Err(Error::MalformedPercent(_))));
    assert!(matches!(parse_percent("5"), Err(Error::MalformedPercent(_))));
    assert!(matches!(parse_percent(""), Err(Error::MalformedPercent(_))));
    assert!(matches!(parse_percent("%"), Err(Error::MalformedPercent(_))));
    assert!(matches!(parse_percent("-5%"), Err(Error::MalformedPercent(_))));
}

#[test]
fn net_io_pair_is_returned_reversed() {
    let t = UnitTable::standard();
    let (input, output) = parse_netio_str("1.2kB / 3MiB", &t).unwrap();
    assert_eq!(input, dec(3 * 1048576, 0));
    assert_eq!(output.format(), "1200");
}

#[test]
fn block_io_pair_uses_the_same_reversed_convention() {
    let t = UnitTable::standard();
    let (first, second) = parse_blockio_str("5MB / 7MB", &t).unwrap();
    assert_eq!(first, dec(7000000, 0));
    assert_eq!(second, dec(5000000, 0));
}

#[test]
fn mem_usage_pair_keeps_textual_order() {
    let t = UnitTable::standard();
    let (usage, limit) = parse_mem_usage_str("1.2kB / 3MiB", &t).unwrap();
    assert_eq!(usage.format(), "1200");
    assert_eq!(limit, dec(3 * 1048576, 0));
}

#[test]
fn pair_without_separator_is_malformed() {
    let t = UnitTable::standard();
    assert!(matches!(parse_pair("bad", &t), Err(Error::MalformedPair(_))));
    assert!(matches!(parse_netio_str("bad", &t), Err(Error::MalformedPair(_))));
}

#[test]
fn pair_with_two_separators_is_malformed() {
    let t = UnitTable::standard();
    assert!(matches!(
        parse_pair("1kB / 2kB / 3kB", &t),
        Err(Error::MalformedPair(_))
    ));
}

#[test]
fn pair_propagates_the_left_halves_error_first() {
    let t = UnitTable::standard();
    match parse_pair("1xB / 2kB", &t).unwrap_err() {
        Error::UnknownUnit(u) => assert_eq!(u, "xB"),
        other => panic!("wrong error: {:?}", other),
    }
}

#[test]
fn decimal_formats_without_trailing_zeros() {
    assert_eq!(dec(125, 1).format(), "12.5");
    assert_eq!(dec(10000, 2).format(), "100");
    assert_eq!(dec(0, 5).format(), "0");
    assert_eq!(dec(1, 9).format(), "0.000000001");
    assert_eq!(dec(104857600, 0).format(), "104857600");
    assert_eq!(dec(1205, 1).format(), "120.5");
}

#[test]
fn labels_parse_in_order_with_trimming() {
    let r = parse_labels(Some("env=prod, region = eu ".to_string())).unwrap();
    assert_eq!(
        r,
        vec![
            ("env".to_string(), "prod".to_string()),
            ("region".to_string(), "eu".to_string()),
        ]
    );
}

#[test]
fn labels_none_means_empty() {
    assert_eq!(parse_labels(None).unwrap(), Vec::new());
}

#[test]
fn labels_reject_missing_or_extra_equals() {
    let e = parse_labels(Some("justakey".to_string())).unwrap_err();
    assert_eq!(e, "justakey");
    let e = parse_labels(Some("a=1,b=2=3".to_string())).unwrap_err();
    assert_eq!(e, "b=2=3");
}

#[test]
fn labels_later_duplicate_key_overrides_in_place() {
    let r = parse_labels(Some("a=1,b=2,a=3".to_string())).unwrap();
    assert_eq!(
        r,
        vec![
            ("a".to_string(), "3".to_string()),
            ("b".to_string(), "2".to_string()),
        ]
    );
}
