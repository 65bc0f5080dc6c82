use memory_orchestrator::calendar::{date_text_of, iso8601_utc, jd_to_ymd, utc_ymd_from_unix_ms};
use memory_orchestrator::clock::ms_of_reading;
use memory_orchestrator::score::{clamp_unit, reaches};
use memory_orchestrator::table::Table;
use memory_orchestrator::text::{
    cut_first, cut_last, decimal_of, has, joined, lines_of, pieces_of, precedes, replaced, trimmed,
    wide_decimal_of,
};

#[test]
fn dates_are_gregorian() {
    assert_eq!(utc_ymd_from_unix_ms(0), (1970, 1, 1));
    assert_eq!(utc_ymd_from_unix_ms(951_782_400_000), (2000, 2, 29));
    assert_eq!(utc_ymd_from_unix_ms(4_107_542_400_000), (2100, 3, 1));
    assert_eq!(jd_to_ymd(2_440_588), (1970, 1, 1));
    assert_eq!(date_text_of(1_767_225_600_000), "2026-01-01");
    assert_eq!(iso8601_utc(1_767_225_600_000 + 3_723_999), "2026-01-01T01:02:03Z");
}

#[test]
fn scores_compare_as_numbers() {
    let b = |x: f64| x.to_bits();
    assert!(reaches(b(0.7), b(0.7)));
    assert!(reaches(b(0.1), b(-0.1)));
    assert!(!reaches(b(-0.2), b(-0.1)));
    assert!(reaches(b(0.0), b(-0.0)));
    assert!(reaches(b(-0.0), b(0.0)));
    assert!(!reaches(b(f64::NAN), b(0.0)));
    assert_eq!(clamp_unit(b(7.0)), b(1.0));
    assert_eq!(clamp_unit(b(-7.0)), b(0.0));
    assert_eq!(clamp_unit(b(0.25)), b(0.25));
}

#[test]
fn tables_keep_the_last_value() {
    let mut t: Table<u32> = Table::new();
    t.put("a".to_string(), 1);
    t.put("b".to_string(), 2);
    t.put("a".to_string(), 3);
    assert_eq!(t.get("a"), Some(&3));
    assert_eq!(t.take("a"), Some(3));
    assert_eq!(t.take("a"), None);
    assert_eq!(t.get("b"), Some(&2));
}

#[test]
fn text_functions_agree_with_std() {
    for s in ["", "a", "a\n", "a\r\nb", "\n\n", "a\r", "x\ny\r\n", "  \u{3000}z\u{85} "] {
        let expected: Vec<String> = s.lines().map(|l| l.to_string()).collect();
        assert_eq!(lines_of(s), expected, "{s:?}");
        assert_eq!(trimmed(s), s.trim());
    }
    assert_eq!(replaced("aaa", "aa", "b"), "aaa".replace("aa", "b"));
    let pieces: Vec<String> = "a//b".split('/').map(|p| p.to_string()).collect();
    assert_eq!(pieces_of("a//b", '/'), pieces);
    assert_eq!(joined(&pieces, "/"), "a//b");
    assert_eq!(cut_first("a.b.c", "."), Some(("a".to_string(), "b.c".to_string())));
    assert_eq!(cut_last("a.b.c", "."), Some(("a.b".to_string(), "c".to_string())));
    assert!(has("abc", "bc") && !has("abc", "cb"));
    assert!(precedes("a", "ab") && precedes("é", "中") && !precedes("b", "a"));
    assert_eq!(decimal_of(u64::MAX), u64::MAX.to_string());
    assert_eq!(wide_decimal_of(u128::MAX), u128::MAX.to_string());
    assert_eq!(decimal_of(0), "0");
}

#[test]
fn clock_readings_become_milliseconds() {
    assert_eq!(ms_of_reading(Some(1_700_000_000_123)), 1_700_000_000_123);
    assert_eq!(ms_of_reading(Some(u64::MAX as u128)), u64::MAX);
    assert_eq!(ms_of_reading(Some(u64::MAX as u128 + 6)), 5);
    assert_eq!(ms_of_reading(None), 0);
}
