use tickdb::parser::parse_line;
use tickdb::update::Update;

#[test]
fn should_parse_string_not_okay() {
    let string = "1505177459.658, 139010,,, f, t, 0.0703629, 7.65064249;";
    assert!(parse_line(&string).is_none());
    let string = "150517;";
    assert!(parse_line(&string).is_none());
    let string = "something;";
    assert!(parse_line(&string).is_none());
}

#[test]
fn should_parse_string_okay() {
    let string = "1505177459.658, 139010, f, t, 0.0703629, 7.65064249;";
    let target = Update {
        ts: 1505177459658,
        seq: 139010,
        is_trade: false,
        is_bid: true,
        price: "0.0703629".to_string(),
        size: "7.65064249".to_string(),
    };
    assert_eq!(target, parse_line(&string).unwrap());

    let string1 = "1505177459.650, 139010, t, f, 0.0703620, 7.65064240;";
    let target1 = Update {
        ts: 1505177459650,
        seq: 139010,
        is_trade: true,
        is_bid: false,
        price: "0.0703620".to_string(),
        size: "7.65064240".to_string(),
    };
    assert_eq!(target1, parse_line(&string1).unwrap());

    let parsed = parse_line(&string).unwrap();
    assert_eq!(parsed.price.parse::<f32>().unwrap(), 0.0703629f32);
    assert_eq!(parsed.size.parse::<f32>().unwrap(), 7.65064249f32);
}

#[test]
fn timestamp_drops_every_decimal_point() {
    let parsed = parse_line("12.34.5, 7, t, f, 1.5, 2.5;").unwrap();
    assert_eq!(parsed.ts, 12345);
    let bare = parse_line("1505177459658, 1, t, t, 1.0, 2.0;").unwrap();
    assert_eq!(bare.ts, 1505177459658);
}

#[test]
fn negative_price_is_rejected() {
    assert!(parse_line("1.0, 1, t, t, -1.0, 2.0;").is_none());
    assert!(parse_line("1.0, 1, t, t, 1.0, -2.0;").is_none());
    assert!(parse_line("1.0, 1, t, t, -0.0, 2.0;").is_some());
}

#[test]
fn field_count_must_be_six() {
    assert!(parse_line("1, 2, t, t, 1.0;").is_none());
    assert!(parse_line("1, 2, t, t, 1.0, 2.0, 3.0;").is_none());
    assert!(parse_line("1, 2, t, t, 1.0, 2.0").is_none());
}

#[test]
fn numeric_overflow_is_rejected() {
    assert!(parse_line("18446744073709551615, 1, t, t, 1.0, 2.0;").is_some());
    assert!(parse_line("18446744073709551616, 1, t, t, 1.0, 2.0;").is_none());
    assert!(parse_line("1, 4294967295, t, t, 1.0, 2.0;").is_some());
    assert!(parse_line("1, 4294967296, t, t, 1.0, 2.0;").is_none());
}
