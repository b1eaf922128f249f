use freemarker::time_zone::{java_time_zone_id, parse_i32_of, trim_text, TzSetting};

fn fixed(s: &str) -> Option<i32> {
    match TzSetting::from_str(s) {
        Ok(TzSetting::Fixed(x)) => Some(x),
        _ => None,
    }
}

#[test]
fn java_zone_ids() {
    assert_eq!(java_time_zone_id("utc"), "UTC");
    assert_eq!(java_time_zone_id(" z "), "UTC");
    assert_eq!(java_time_zone_id("gmt"), "GMT");
    assert_eq!(java_time_zone_id("GMT+2"), "GMT+02:00");
    assert_eq!(java_time_zone_id("gmt-0530"), "GMT-05:30");
    assert_eq!(java_time_zone_id("GMT+5:3"), "GMT+05:03");
    assert_eq!(java_time_zone_id("GMT++5"), "GMT+05:00");
    assert_eq!(java_time_zone_id("GMT+x"), "GMT+x");
    assert_eq!(java_time_zone_id("GMTx"), "GMTx");
    assert_eq!(java_time_zone_id("  Europe/Paris\n"), "Europe/Paris");
}

#[test]
fn zone_settings() {
    assert_eq!(fixed("utc"), Some(0));
    assert_eq!(fixed("GMT"), Some(0));
    assert_eq!(fixed("GMT+02:00"), Some(7200));
    assert_eq!(fixed("GMT-0530"), Some(-19800));
    assert_eq!(fixed("gmt+1"), Some(3600));
    assert!(TzSetting::from_str("GMT+24").is_err());
    assert!(TzSetting::from_str("GMT+10:60").is_err());
    assert!(TzSetting::from_str("GMTx").is_err());
    assert!(TzSetting::from_str("GMT+ab").is_err());
    assert!(matches!(TzSetting::from_str("Europe/Paris"), Ok(TzSetting::Named(n)) if n == "Europe/Paris"));
    assert!(TzSetting::from_str("europe/paris").is_err());
    assert!(matches!(TzSetting::from_str(" Asia/Tokyo\t"), Ok(TzSetting::Named(n)) if n == "Asia/Tokyo"));
    assert!(TzSetting::from_str("Nowhere/City").is_err());
}

#[test]
fn integer_parsing_follows_the_standard_library() {
    let cs = |s: &str| s.chars().collect::<Vec<char>>();
    let p = |s: &str| parse_i32_of(&cs(s), 0, s.chars().count());
    assert_eq!(p("42"), Some(42));
    assert_eq!(p("+7"), Some(7));
    assert_eq!(p("-2147483648"), Some(i32::MIN));
    assert_eq!(p("2147483648"), None);
    assert_eq!(p(""), None);
    assert_eq!(p("-"), None);
    assert_eq!(p("1_0"), None);
    for s in ["0", "-0", "+12", "99999999999", "12a"] {
        assert_eq!(p(s), s.parse::<i32>().ok(), "{s}");
    }
}

#[test]
fn trimming_follows_the_standard_library() {
    for s in ["  a b ", "\u{3000}x\u{2029}", "", "   ", "\u{85}y"] {
        let t: String = trim_text(s).into_iter().collect();
        assert_eq!(t, s.trim(), "{s:?}");
    }
}

#[test]
fn offsets_at_an_instant() {
    assert_eq!(TzSetting::Fixed(3600).offset_at(0), Some(3600));
    let paris = TzSetting::from_str("Europe/Paris").unwrap();
    // 2021-01-15 and 2021-07-15, noon UTC.
    assert_eq!(paris.offset_at(1_610_712_000_000), Some(3600));
    assert_eq!(paris.offset_at(1_626_350_400_000), Some(7200));
    assert_eq!(TzSetting::Named("Nowhere/City".to_string()).offset_at(0), None);
    assert_eq!(paris.offset_at(i64::MAX), None);
}
