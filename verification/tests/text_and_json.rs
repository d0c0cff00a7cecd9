//! Text helpers, JSON text and the event log.
use moqtail_apps::event_log::EventLog;
use moqtail_apps::json;
use moqtail_apps::text;

#[test]
fn trimming_takes_unicode_white_space_off_both_ends() {
    assert_eq!(text::trim("  a b\t\n"), "a b");
    assert_eq!(text::trim("\u{a0}\u{2003}x\u{3000}"), "x");
    assert_eq!(text::trim(" \t "), "");
    assert_eq!(text::trim("\u{200b}x"), "\u{200b}x");
    for c in (0..=0xffffu32).filter_map(char::from_u32) {
        let s = format!("{c}x{c}");
        assert_eq!(text::trim(&s), s.trim(), "{:x}", c as u32);
    }
}

#[test]
fn splitting_keeps_empty_pieces_and_is_undone_by_joining() {
    assert_eq!(text::split_all("a,,b,", ','), vec!["a", "", "b", ""]);
    assert_eq!(text::split_all("", ','), vec![""]);
    for s in ["", ",", "a", "a,b", ",a,,b,"] {
        assert_eq!(text::split_all(s, ',').join(","), s);
    }
    assert_eq!(text::split_into("a:b:c:d:e", ':', 4), vec!["a", "b", "c", "d:e"]);
    assert_eq!(text::split_into("a:b", ':', 4), vec!["a", "b"]);
    assert_eq!(text::split_into("a:b", ':', 1), vec!["a:b"]);
}

#[test]
fn splitting_at_the_last_separator() {
    assert_eq!(text::split_last("a:b:3", ':'), Some(("a:b".to_string(), "3".to_string())));
    assert_eq!(text::split_last(":", ':'), Some((String::new(), String::new())));
    assert_eq!(text::split_last("ab", ':'), None);
}

#[test]
fn prefixes_and_replacement() {
    assert_eq!(text::after_prefix("pt,A,1", "pt,"), Some("A,1".to_string()));
    assert_eq!(text::after_prefix("object,A", "pt,"), None);
    assert!(text::stands_at("abcabc", "abc", 3));
    assert!(!text::stands_at("abcab", "abc", 3));
    assert_eq!(text::replace("x.json.json", ".json", "_e"), "x_e_e");
    assert_eq!(text::replace("aaa", "aa", "b"), "ba");
    assert_eq!(text::replace("plain", ".json", "_e"), "plain");
}

#[test]
fn decimal_numbers_read_back() {
    assert_eq!(text::decimal(0), "0");
    assert_eq!(text::decimal(u128::MAX), u128::MAX.to_string());
    assert_eq!(text::decimal_signed(-1203), "-1203");
    assert_eq!(text::decimal_signed(0), "0");
    for n in [0u64, 7, 10, 255, 1_000_000, u64::MAX] {
        assert_eq!(text::parse_number(&text::decimal(n as u128), u64::MAX), Some(n));
    }
    assert_eq!(text::parse_number("+12", 255), Some(12));
    assert_eq!(text::parse_number("007", 255), Some(7));
    assert_eq!(text::parse_number("256", 255), None);
    assert_eq!(text::parse_number("18446744073709551616", u64::MAX), None);
    for bad in ["", "+", "-1", "1 ", " 1", "1.0", "++1", "x"] {
        assert_eq!(text::parse_number(bad, u64::MAX), None, "{bad}");
    }
}

#[test]
fn json_objects_and_lists() {
    let mut fields = Vec::new();
    json::add_field(&mut fields, "a", json::write_string("x"));
    json::add_field(&mut fields, "b", json::write_optional_u64(None));
    json::add_field(&mut fields, "c", json::write_optional_millis(Some(-5)));
    json::add_field(&mut fields, "d", json::write_optional_bool(Some(true)));
    assert_eq!(
        json::write_object(&fields, "  ", ""),
        "{\n  \"a\": \"x\",\n  \"b\": null,\n  \"c\": -5.000,\n  \"d\": true\n}"
    );
    assert_eq!(json::write_list(&vec![]), "[]");
    assert_eq!(json::write_list(&vec!["1".to_string(), "2".to_string()]), "[\n  1,\n  2\n]");
    assert_eq!(json::write_optional_i128(Some(-3)), "-3");
}

const MS: u64 = 1_000_000;

#[test]
fn log_is_sorted_and_timed_from_its_origin() {
    let mut log = EventLog::new();
    assert_eq!(log.content(), "");
    log.register_alias(7, "A");
    log.record(30 * MS, "switch_decision");
    log.record_object(7, 1, 0, 10 * MS);
    log.record_object(9, 2, 3, 20 * MS);
    log.record_pt(10 * MS, "A", 1, 0, 200);
    log.set_t0(20 * MS);
    log.set_t0(99 * MS);
    assert_eq!(
        log.content(),
        "object,A,1,0,-10,200.0\nobject,9,2,3,0\nswitch_decision,10\n"
    );
}

#[test]
fn log_without_origin_counts_from_its_first_entry() {
    let mut log = EventLog::new();
    log.record(5 * MS, "b");
    log.record(5 * MS, "c");
    log.record(2 * MS, "a");
    // Entries of one instant keep their order.
    assert_eq!(log.content(), "a,-3\nb,0\nc,0\n");
    assert_eq!(log.content(), "a,-3\nb,0\nc,0\n");
}

#[test]
fn log_has_one_row_for_each_entry_but_those_of_presentation_times() {
    let mut log = EventLog::new();
    log.record_pt(4 * MS, "A", 1, 0, 200);
    log.record_object(7, 1, 1, 4 * MS);
    log.record(3 * MS, "pt,odd");
    log.record_object(7, 1, 0, 2 * MS);
    log.record(4 * MS, "pt,7,1,1,240.0");
    log.record(4 * MS, "subscribe_ok_b");
    log.record_object(7, 1, 1, 4 * MS);
    assert_eq!(
        log.content(),
        "object,7,1,0,-2\nobject,7,1,1,0,240.0\nsubscribe_ok_b,0\nobject,7,1,1,0,240.0\n"
    );
}
