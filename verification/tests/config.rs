use discord_image_downloader::config::{
    DateChoice, DateError, interpret_quantity, interpret_settings_choice, is_default_choice,
    parse_date_choice,
};
use discord_image_downloader::dates::{is_valid_date, start_boundary};
use discord_image_downloader::snowflake_from_millis;

#[test]
fn settings_choice_default_forms() {
    assert_eq!(interpret_settings_choice("default"), Some(false));
    assert_eq!(interpret_settings_choice("d"), Some(false));
    assert_eq!(interpret_settings_choice(""), Some(false));
}

#[test]
fn settings_choice_custom_forms() {
    assert_eq!(interpret_settings_choice("custom"), Some(true));
    assert_eq!(interpret_settings_choice("c"), Some(true));
}

#[test]
fn settings_choice_rejects_other_answers() {
    assert_eq!(interpret_settings_choice("yes"), None);
    assert_eq!(interpret_settings_choice("defaults"), None);
}

#[test]
fn quantity_accepts_numbers() {
    assert_eq!(interpret_quantity("15"), Some(15));
    assert_eq!(interpret_quantity("0"), Some(0));
    assert_eq!(interpret_quantity("007"), Some(7));
    assert_eq!(interpret_quantity("+3"), Some(3));
    assert_eq!(interpret_quantity("4294967295"), Some(u32::MAX));
}

#[test]
fn quantity_default_and_empty_mean_unbounded() {
    assert_eq!(interpret_quantity("default"), Some(0));
    assert_eq!(interpret_quantity(""), Some(0));
}

#[test]
fn quantity_rejects_garbage_and_overflow() {
    assert_eq!(interpret_quantity("many"), None);
    assert_eq!(interpret_quantity("-1"), None);
    assert_eq!(interpret_quantity("4294967296"), None);
    assert_eq!(interpret_quantity("+"), None);
}

#[test]
fn default_choice_recognized() {
    assert!(is_default_choice("default"));
    assert!(is_default_choice(""));
    assert!(!is_default_choice("custom"));
}

#[test]
fn date_default_means_no_bound() {
    assert_eq!(parse_date_choice("default"), Ok(DateChoice::NoBound));
    assert_eq!(parse_date_choice(""), Ok(DateChoice::NoBound));
}

#[test]
fn date_two_digit_year_counts_from_2000() {
    assert_eq!(
        parse_date_choice("01/02/21"),
        Ok(DateChoice::Day { year: 2021, month: 2, day: 1 })
    );
}

#[test]
fn date_four_digit_year_taken_as_is() {
    assert_eq!(
        parse_date_choice("15/06/2019"),
        Ok(DateChoice::Day { year: 2019, month: 6, day: 15 })
    );
    assert_eq!(
        parse_date_choice("7/3/2016"),
        Ok(DateChoice::Day { year: 2016, month: 3, day: 7 })
    );
}

#[test]
fn date_structure_errors() {
    assert_eq!(parse_date_choice("1-2-2019"), Err(DateError::Format));
    assert_eq!(parse_date_choice("1/2"), Err(DateError::Format));
    assert_eq!(parse_date_choice("1/2/3/4"), Err(DateError::Format));
    assert_eq!(parse_date_choice("1/2/345"), Err(DateError::Format));
}

#[test]
fn date_field_errors() {
    assert_eq!(parse_date_choice("aa/02/21"), Err(DateError::DayNotNumeric));
    assert_eq!(parse_date_choice("32/02/21"), Err(DateError::DayOutOfRange));
    assert_eq!(parse_date_choice("00/02/21"), Err(DateError::DayOutOfRange));
    assert_eq!(parse_date_choice("01/x2/21"), Err(DateError::MonthNotNumeric));
    assert_eq!(parse_date_choice("01/13/21"), Err(DateError::MonthOutOfRange));
    assert_eq!(parse_date_choice("01/02/2x21"), Err(DateError::YearNotNumeric));
    assert_eq!(parse_date_choice("01/02/2014"), Err(DateError::TooEarly));
    assert_eq!(parse_date_choice("01/02/14"), Err(DateError::TooEarly));
}

#[test]
fn calendar_validity() {
    assert!(is_valid_date(2021, 1, 31));
    assert!(!is_valid_date(2021, 4, 31));
    assert!(is_valid_date(2020, 2, 29));
    assert!(!is_valid_date(2021, 2, 29));
    assert!(!is_valid_date(2100, 2, 29));
    assert!(is_valid_date(2400, 2, 29));
    assert!(!is_valid_date(2021, 0, 1));
    assert!(!is_valid_date(2021, 13, 1));
    assert!(!is_valid_date(2021, 6, 0));
}

/// The first day of 2015 is the Discord epoch itself, so its snowflake is
/// zero; this exercises the calendar library behind the conversion.
#[test]
fn start_boundary_at_epoch_is_zero() {
    let far_future_now = u64::MAX;
    assert_eq!(start_boundary(2015, 1, 1, far_future_now), Some(0));
}

/// One day after the epoch: 86,400,000 milliseconds, shifted into the
/// snowflake's timestamp bits.
#[test]
fn start_boundary_one_day_after_epoch() {
    let expected = 86_400_000u64 << 22;
    assert_eq!(start_boundary(2015, 1, 2, u64::MAX), Some(expected));
}

/// A day that starts after "now" cannot bound the search.
#[test]
fn start_boundary_rejects_future_day() {
    // "now" is the Discord epoch itself, so any later day is in the future.
    assert_eq!(start_boundary(2015, 1, 2, 1_420_070_400_000), None);
    // Midnight of the same day is not in the future.
    assert_eq!(start_boundary(2015, 1, 1, 1_420_070_400_000), Some(0));
}

#[test]
fn snowflake_conversion_is_exact() {
    assert_eq!(snowflake_from_millis(1_420_070_400_000), 0);
    assert_eq!(snowflake_from_millis(1_420_070_400_001), 1 << 22);
}
