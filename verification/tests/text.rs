//! Text helpers against the standard library, and the clock.

use unisonfs::clock::{now_ms, reading_of, since_epoch, to_millis, Monotonic};
use unisonfs::pattern::{contains, replace, split_first, until};
use unisonfs::text::{
    is_whitespace, letter_or_number, parse_i64, parse_u32, print_int, print_nat, split_lines,
    split_on, to_ascii_lower, trim,
};

#[test]
fn characters_agree_with_the_standard_library() {
    for c in (0..=0x10ffffu32).filter_map(char::from_u32) {
        assert_eq!(is_whitespace(c), c.is_whitespace(), "{c:?}");
        assert_eq!(letter_or_number(c), c.is_alphanumeric(), "{c:?}");
        assert_eq!(to_ascii_lower(c), c.to_ascii_lowercase(), "{c:?}");
    }
}

#[test]
fn cutting_agrees_with_the_standard_library() {
    let texts = ["", "a", "a/b", "/a//b/", "aXbXc", "x\ny\r\nz", "\n", "  t \u{a0}", "=\"=", "aaa"];
    for t in texts {
        assert_eq!(trim(t), t.trim());
        assert_eq!(split_lines(t), t.lines().map(String::from).collect::<Vec<_>>());
        assert_eq!(split_on(t, '/'), t.split('/').map(String::from).collect::<Vec<_>>());
        for p in ["a", "/", "aa", "\"", "=", "X", "//"] {
            assert_eq!(contains(t, p), t.contains(p));
            assert_eq!(replace(t, p, "<>"), t.replace(p, "<>"));
            assert_eq!(until(t, p), t.split(p).next().unwrap());
            let cut = t.split_once(p).map(|(a, b)| (a.to_string(), b.to_string()));
            assert_eq!(split_first(t, p), cut);
        }
    }
}

#[test]
fn numbers_agree_with_the_standard_library() {
    for i in [0, 1, -1, 42, i64::MAX, i64::MIN, 1_000_000] {
        assert_eq!(print_int(i), i.to_string());
        assert_eq!(parse_i64(&i.to_string()), Some(i));
    }
    assert_eq!(print_nat(u64::MAX), u64::MAX.to_string());
    for s in ["", "+", "-", "+5", "-0", "007", "9223372036854775808", "1 ", "x", "4294967295", "4294967296"] {
        assert_eq!(parse_i64(s), s.parse::<i64>().ok(), "{s:?}");
        assert_eq!(parse_u32(s), s.parse::<u32>().ok(), "{s:?}");
    }
}

#[test]
fn clocks_move_on() {
    let (secs, nanos) = since_epoch().unwrap();
    assert!(secs > 1_600_000_000 && nanos < 1_000_000_000);
    assert_eq!(to_millis(Some((5, 7_999_999))), 5_007);
    assert_eq!(to_millis(None), 0);
    let now = now_ms();
    assert!(now >= secs as i64 * 1_000);
    let m = Monotonic::new();
    let a = m.nanos();
    assert!(m.nanos() >= a);
}

#[test]
fn clock_measurements_are_read() {
    let epoch = std::time::SystemTime::UNIX_EPOCH;
    let later = epoch + std::time::Duration::new(7, 5);
    assert_eq!(reading_of(later.duration_since(epoch)), Some((7, 5)));
    assert_eq!(reading_of(epoch.duration_since(epoch)), Some((0, 0)));
    assert_eq!(reading_of(epoch.duration_since(later)), None);
}
