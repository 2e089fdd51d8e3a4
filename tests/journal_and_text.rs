use sysmon::journal::{lines_of, scroll, LogCache, ScrollMove};
use sysmon::schedule::{next_view, work_due, work_on_switch};
use sysmon::text::{chars_of, parse_int, parse_milli, parse_uint, trim_bounds};

#[test]
fn lines_split_like_str_lines() {
    assert_eq!(lines_of("a\r\nb\n\nc\r"), vec!["a", "b", "", "c\r"]);
    assert_eq!(lines_of("one\ntwo\n"), vec!["one", "two"]);
    assert_eq!(lines_of("\n"), vec![""]);
    assert!(lines_of("").is_empty());
}

#[test]
fn log_cache_keeps_old_lines_on_failed_or_empty_fetch() {
    let mut c = LogCache::new();
    c.apply_fetch(Some("boot\nlogin\n"));
    assert_eq!(c.lines, vec!["boot", "login"]);
    c.scroll = 1;
    c.apply_fetch(None);
    assert_eq!(c.lines, vec!["boot", "login"]);
    c.apply_fetch(Some(""));
    assert_eq!(c.lines, vec!["boot", "login"]);
    c.apply_fetch(Some("newer\n"));
    assert_eq!(c.lines, vec!["newer"]);
    assert_eq!(c.scroll, 1);
}

#[test]
fn scroll_moves_stay_in_list() {
    assert_eq!(scroll(0, 5, ScrollMove::Up), 0);
    assert_eq!(scroll(3, 5, ScrollMove::Up), 2);
    assert_eq!(scroll(4, 5, ScrollMove::Down), 4);
    assert_eq!(scroll(1, 5, ScrollMove::Down), 2);
    assert_eq!(scroll(7, 50, ScrollMove::PageUp), 0);
    assert_eq!(scroll(17, 50, ScrollMove::PageUp), 7);
    assert_eq!(scroll(1, 50, ScrollMove::PageDown), 11);
    assert_eq!(scroll(45, 50, ScrollMove::PageDown), 49);
    assert_eq!(scroll(3, 0, ScrollMove::PageDown), 3);
}

#[test]
fn integers_parse_with_optional_sign() {
    let cs = chars_of("  -42 +17 x9 99999999999");
    assert_eq!(trim_bounds(&cs, 0, 6), (2, 5));
    assert_eq!(parse_int(&cs, 2, 5, i32::MIN as i64, i32::MAX as i64), Some(-42));
    assert_eq!(parse_int(&cs, 6, 9, i32::MIN as i64, i32::MAX as i64), Some(17));
    assert_eq!(parse_int(&cs, 10, 12, i32::MIN as i64, i32::MAX as i64), None);
    assert_eq!(parse_int(&cs, 13, 24, i32::MIN as i64, i32::MAX as i64), None);
    assert_eq!(parse_uint(&cs, 2, 5, 100), None);
    assert_eq!(parse_uint(&cs, 6, 9, 100), Some(17));
}

#[test]
fn decimals_parse_to_thousandths() {
    let cs = chars_of("120.50|7|.25|3.|1.23456|-1|.|");
    assert_eq!(parse_milli(&cs, 0, 6), Some(120_500));
    assert_eq!(parse_milli(&cs, 7, 8), Some(7_000));
    assert_eq!(parse_milli(&cs, 9, 12), Some(250));
    assert_eq!(parse_milli(&cs, 13, 15), Some(3_000));
    assert_eq!(parse_milli(&cs, 16, 23), Some(1_234));
    assert_eq!(parse_milli(&cs, 24, 26), None);
    assert_eq!(parse_milli(&cs, 27, 28), None);
    assert_eq!(parse_milli(&cs, 29, 29), None);
}

#[test]
fn refreshes_are_due_by_view_and_interval() {
    let w = work_due(0, 1000, 1000, 9000, 9000);
    assert!(w.metrics && !w.processes && !w.log);
    let w = work_due(1, 999, 1000, 2000, 9000);
    assert!(!w.metrics && w.processes && !w.log);
    let w = work_due(2, 0, 1000, 9000, 4999);
    assert!(!w.metrics && !w.processes && !w.log);
    assert_eq!(next_view(0), 1);
    assert_eq!(next_view(2), 0);
    let s = work_on_switch(1, true, 0, false, 0);
    assert!(s.processes && !s.log && !s.metrics);
    let s = work_on_switch(2, false, 0, false, 100);
    assert!(!s.processes && !s.log);
}
