use gtd::date::{parse_date, Date};
use gtd::markdown::TaskMeta;
use gtd::text::{chars_of, join_words_text, split_lines, str_eq, trim_str};

#[test]
fn lines_split_as_std_does() {
    for s in ["", "a", "a\n", "a\nb", "a\r\nb\r\n", "\n", "\n\n", "a\r", "x\ry\n", "a\n\nb\n\n"] {
        let ours: Vec<String> =
            split_lines(&chars_of(s)).iter().map(|l| l.iter().collect()).collect();
        let std: Vec<String> = s.lines().map(|l| l.to_string()).collect();
        assert_eq!(ours, std, "lines of {s:?}");
    }
}

#[test]
fn trim_as_std_does() {
    for s in ["", "  ", " a ", "\u{a0}b\u{3000}", "\t\nc\r", "d\u{85}", "x y"] {
        assert_eq!(trim_str(s), s.trim(), "trim of {s:?}");
    }
}

#[test]
fn words_join_with_spaces() {
    let words = vec!["buy".to_string(), "more".to_string(), "milk".to_string()];
    assert_eq!(join_words_text(&words), "buy more milk");
    assert_eq!(join_words_text(&[]), "");
    assert!(str_eq("abc", "abc"));
    assert!(!str_eq("abc", "abd"));
}

#[test]
fn dates_read_and_write_as_chrono_does() {
    let d = parse_date("2026-03-01").unwrap();
    assert_eq!(d, Date { year: 2026, month: 3, day: 1 });
    assert_eq!(d.text(), "2026-03-01");
    assert!(parse_date("2026-13-01").is_none());
    assert!(parse_date("tomorrow").is_none());
    assert!(parse_date("2026-02-30").is_none());
    for (y, m, dd) in [(5, 1, 2), (2024, 12, 31), (-44, 3, 15), (12345, 6, 7)] {
        let date = Date { year: y, month: m, day: dd };
        let chrono = chrono::NaiveDate::from_ymd_opt(y, m, dd).unwrap();
        assert_eq!(date.text(), chrono.to_string());
    }
}

#[test]
fn dates_order() {
    let a = Date { year: 2026, month: 1, day: 31 };
    let b = Date { year: 2026, month: 2, day: 1 };
    assert!(a.before(&b));
    assert!(!b.before(&a));
    assert!(!a.before(&a));
    let t = TaskMeta::new().created;
    assert!((1..=12).contains(&t.month) && (1..=31).contains(&t.day));
    assert!(t.year >= 2024);
}
