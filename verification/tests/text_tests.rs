use cli_menu::parse::{parse_i32, parse_usize};
use cli_menu::text::{render_usize, trim};

#[test]
fn trim_strips_both_ends() {
    assert_eq!(trim("  8\n"), "8");
    assert_eq!(trim("\t a b \r\n"), "a b");
    assert_eq!(trim("plain"), "plain");
    assert_eq!(trim("   \n"), "");
    assert_eq!(trim(""), "");
}

#[test]
fn render_usize_writes_decimal() {
    assert_eq!(render_usize(0), "0");
    assert_eq!(render_usize(7), "7");
    assert_eq!(render_usize(10), "10");
    assert_eq!(render_usize(907), "907");
}

#[test]
fn parse_usize_accepts_digits_only() {
    assert_eq!(parse_usize("8"), Some(8));
    assert_eq!(parse_usize("+8"), Some(8));
    assert_eq!(parse_usize("007"), Some(7));
    assert_eq!(parse_usize(""), None);
    assert_eq!(parse_usize("+"), None);
    assert_eq!(parse_usize("-1"), None);
    assert_eq!(parse_usize("abc"), None);
    assert_eq!(parse_usize("1x"), None);
    assert_eq!(parse_usize("99999999999999999999999999"), None);
}

#[test]
fn parse_i32_handles_signs_and_range() {
    assert_eq!(parse_i32("3"), Some(3));
    assert_eq!(parse_i32("+3"), Some(3));
    assert_eq!(parse_i32("-5"), Some(-5));
    assert_eq!(parse_i32("2147483647"), Some(i32::MAX));
    assert_eq!(parse_i32("2147483648"), None);
    assert_eq!(parse_i32("-2147483648"), Some(i32::MIN));
    assert_eq!(parse_i32("-2147483649"), None);
    assert_eq!(parse_i32("-"), None);
    assert_eq!(parse_i32(""), None);
    assert_eq!(parse_i32("sup"), None);
}

#[test]
fn parsing_agrees_with_the_standard_library() {
    for line in ["0", "8", "+8", "007", "-1", "", "abc", "4294967296"] {
        assert_eq!(parse_i32(line), line.parse::<i32>().ok());
    }
}
