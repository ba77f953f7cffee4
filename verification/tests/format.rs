use ccstatusline_rs::render::format::{
    abbreviate_tokens, clock_text, format_bar, format_bar_wrapped, format_clock, format_cost_cents,
    format_percent_paren, format_weekly_reset, weekly_reset_text,
};

fn kst() -> jiff::tz::TimeZone {
    jiff::tz::TimeZone::get("Asia/Seoul").unwrap()
}

#[test]
fn bar_zero_is_all_empty() {
    assert_eq!(format_bar(0.0f64 as u8, 10, '#', '.'), "..........");
}

#[test]
fn bar_eight_percent_floors_to_zero() {
    assert_eq!(format_bar(8.0f64 as u8, 10, '#', '.'), "..........");
}

#[test]
fn bar_twenty_one_percent_fills_two() {
    assert_eq!(format_bar(21.0f64 as u8, 10, '#', '.'), "##........");
}

#[test]
fn bar_one_hundred_fills_all() {
    assert_eq!(format_bar(100.0f64 as u8, 10, '#', '.'), "##########");
}

#[test]
fn bar_wrapped_includes_brackets() {
    assert_eq!(format_bar_wrapped(21.0f64 as u8, 10, '#', '.'), "[##........]");
}

#[test]
fn bar_above_one_hundred_is_full_and_keeps_width() {
    assert_eq!(format_bar(250, 10, '#', '.'), "##########");
    for p in 0..=100u8 {
        assert_eq!(format_bar(p, 10, '#', '.').chars().count(), 10);
    }
    assert_eq!(format_bar(55, 4, '#', '.'), "##..");
}

#[test]
fn percent_paren_truncates() {
    assert_eq!(format_percent_paren(8.9f64 as u8), "(8%)");
    assert_eq!(format_percent_paren(21.4f64 as u8), "(21%)");
}

#[test]
fn percent_paren_clamps() {
    assert_eq!(format_percent_paren(120.0f64 as u8), "(100%)");
    assert_eq!(format_percent_paren(-5.0f64 as u8), "(0%)");
}

#[test]
fn abbreviate_85_3k() {
    assert_eq!(abbreviate_tokens(85_300), "85.3K");
}

#[test]
fn abbreviate_80_0k() {
    assert_eq!(abbreviate_tokens(80_000), "80.0K");
}

#[test]
fn abbreviate_one_million_keeps_decimal() {
    assert_eq!(abbreviate_tokens(1_000_000), "1.0M");
}

#[test]
fn abbreviate_below_1k() {
    assert_eq!(abbreviate_tokens(742), "742");
}

#[test]
fn abbreviate_boundaries() {
    assert_eq!(abbreviate_tokens(0), "0");
    assert_eq!(abbreviate_tokens(999), "999");
    assert_eq!(abbreviate_tokens(1_000), "1.0K");
    assert_eq!(abbreviate_tokens(999_999), "999.9K");
    assert_eq!(abbreviate_tokens(12_345_678), "12.3M");
}

#[test]
fn cost_two_decimals() {
    assert_eq!(format_cost_cents((2.55f64 * 100.0).round() as i64), "$2.55");
    assert_eq!(format_cost_cents((0.0f64 * 100.0).round() as i64), "$0.00");
}

#[test]
fn cost_negative_and_small_amounts() {
    assert_eq!(format_cost_cents(5), "$0.05");
    assert_eq!(format_cost_cents(-255), "$-2.55");
    assert_eq!(format_cost_cents(123456), "$1234.56");
}

#[test]
fn clock_kst_renders_12_00() {
    let ts = jiff::civil::date(2026, 5, 14).at(12, 0, 0, 0).to_zoned(kst()).unwrap().timestamp();
    assert_eq!(format_clock(ts, &kst()), "12:00");
}

#[test]
fn weekly_reset_no_zero_padding_on_month_day() {
    let ts = jiff::civil::date(2026, 5, 19).at(6, 0, 0, 0).to_zoned(kst()).unwrap().timestamp();
    assert_eq!(format_weekly_reset(ts, &kst()), "5/19 06:00");
}

#[test]
fn clock_texts_pad_hours_and_minutes() {
    assert_eq!(clock_text(7, 5), "07:05");
    assert_eq!(weekly_reset_text(12, 1, 23, 59), "12/1 23:59");
}
