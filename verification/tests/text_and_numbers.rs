use ridi_router::numbers::{is_float_text, parse_u64};
use ridi_router::rmdf::{direction_code, direction_of_code, TileId};
use ridi_router::generation::LineDirection;
use ridi_router::sorted::insert_sorted;
use ridi_router::text::{contains, ends_with, remove_occurrences, starts_with, str_eq, u64_to_decimal};

#[test]
fn parse_u64_reads_like_std() {
    for s in ["0", "007", "+12", "18446744073709551615", "18446744073709551616", "", "+", "-1", "1 ", "1_000", "12a"] {
        assert_eq!(parse_u64(s), s.parse::<u64>().ok(), "{s}");
    }
}

#[test]
fn float_text_accepts_what_std_parses() {
    for s in [
        "1", "1.5", "-2.25", "+.5", "5.", "1e10", "1E-3", "-7.5e+2", "inf", "-Infinity", "NaN", "nan", ".", "", "e5",
        "1e", "1.2.3", " 1", "0x10", "infinit", "--1", "57.153232",
    ] {
        assert_eq!(is_float_text(s), s.parse::<f64>().is_ok(), "{s}");
    }
}

#[test]
fn string_helpers() {
    assert!(str_eq("abc", "abc"));
    assert!(!str_eq("abc", "abd"));
    assert!(starts_with("restriction:hgv", "restriction"));
    assert!(!starts_with("rest", "restriction"));
    assert!(ends_with("primary_link", "_link"));
    assert!(!ends_with("link", "_link"));
    assert!(contains("a/b", "/"));
    assert!(!contains("ab", "/"));
    assert_eq!(remove_occurrences("primary_link_link", "_link"), "primary");
    assert_eq!(remove_occurrences("a_linkb_link", "_link"), "ab");
    assert_eq!(u64_to_decimal(0), "0");
    assert_eq!(u64_to_decimal(18446744073709551615), "18446744073709551615");
}

#[test]
fn tile_file_names_and_direction_codes() {
    assert_eq!(TileId::new(0, 0).to_filename(), "tile_0_0.rmdf");
    assert_eq!(TileId::new(180, 90).to_filename(), "tile_180_90.rmdf");
    assert_eq!(TileId::new(65535, 7).to_filename(), "tile_65535_7.rmdf");
    for d in [LineDirection::BothWays, LineDirection::OneWay, LineDirection::Roundabout] {
        assert_eq!(direction_of_code(direction_code(d)), d);
    }
    assert_eq!(direction_code(LineDirection::Roundabout), 2);
    assert_eq!(direction_of_code(9), LineDirection::BothWays);
}

#[test]
fn insert_sorted_keeps_strict_order() {
    let mut v = Vec::new();
    for x in [5u32, 1, 9, 5, 3, 1] {
        insert_sorted(&mut v, x);
    }
    assert_eq!(v, vec![1, 3, 5, 9]);
}
