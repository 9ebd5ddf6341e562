use timezones::convert::{convert, paris_to_pst_string, pst_to_paris_string, ConversionType};
use timezones::cors::CORS;
use timezones::pacific::{pst_time_string_to_time, time_to_pst_time_string};
use timezones::paris::{paris_time_string_to_time, time_to_paris_time_string};
use timezones::time::{add_delta, HourMinutePair, InvalidTimeString};

fn t(hour: i32, minute: i32) -> HourMinutePair {
    HourMinutePair { hour, minute }
}

fn s(text: &str) -> String {
    text.to_string()
}

#[test]
fn paris_parse_and_format() {
    assert_eq!(paris_time_string_to_time(&s("14h30")), Ok(t(14, 30)));
    assert_eq!(time_to_paris_time_string(&t(14, 30)), "14 h 30");
}

#[test]
fn paris_format_pads_minute() {
    assert_eq!(time_to_paris_time_string(&t(5, 9)), "5 h 09");
    assert_eq!(time_to_paris_time_string(&t(0, 0)), "0 h 00");
    assert_eq!(time_to_paris_time_string(&t(23, 10)), "23 h 10");
}

#[test]
fn paris_round_trip_without_spaces() {
    for hour in 0..24 {
        for minute in 0..60 {
            let text = time_to_paris_time_string(&t(hour, minute)).replace(' ', "");
            assert_eq!(paris_time_string_to_time(&text), Ok(t(hour, minute)));
        }
    }
}

#[test]
fn paris_formatted_text_with_spaces_is_not_read() {
    assert_eq!(paris_time_string_to_time(&s("14 h 30")), Err(InvalidTimeString));
}

#[test]
fn paris_parse_is_unanchored() {
    assert_eq!(paris_time_string_to_time(&s("meet at 7h05 sharp")), Ok(t(7, 5)));
    assert_eq!(paris_time_string_to_time(&s("h5 12h 1h2 3h4")), Ok(t(1, 2)));
    assert_eq!(paris_time_string_to_time(&s("x123h4567y")), Ok(t(123, 4567)));
}

#[test]
fn paris_parse_keeps_out_of_range_values() {
    assert_eq!(paris_time_string_to_time(&s("99h99")), Ok(t(99, 99)));
    assert_eq!(paris_time_string_to_time(&s("2147483647h0")), Ok(t(i32::MAX, 0)));
}

#[test]
fn paris_parse_refusals() {
    assert_eq!(paris_time_string_to_time(&s("")), Err(InvalidTimeString));
    assert_eq!(paris_time_string_to_time(&s("not a time")), Err(InvalidTimeString));
    assert_eq!(paris_time_string_to_time(&s("14h")), Err(InvalidTimeString));
    assert_eq!(paris_time_string_to_time(&s("h30")), Err(InvalidTimeString));
    assert_eq!(paris_time_string_to_time(&s("2147483648h0")), Err(InvalidTimeString));
    assert_eq!(paris_time_string_to_time(&s("1h99999999999")), Err(InvalidTimeString));
}

#[test]
fn pacific_parse_noon_and_midnight() {
    assert_eq!(pst_time_string_to_time(&s("12:00am")), Ok(t(0, 0)));
    assert_eq!(pst_time_string_to_time(&s("12:00pm")), Ok(t(12, 0)));
    assert_eq!(pst_time_string_to_time(&s("1:05PM")), Ok(t(13, 5)));
    assert_eq!(pst_time_string_to_time(&s("11:59pm")), Ok(t(23, 59)));
    assert_eq!(pst_time_string_to_time(&s("1:00am")), Ok(t(1, 0)));
}

#[test]
fn pacific_meridian_any_case() {
    for m in ["am", "AM", "aM", "Am"] {
        assert_eq!(pst_time_string_to_time(&format!("7:15{}", m)), Ok(t(7, 15)));
    }
    for m in ["pm", "PM", "pM", "Pm"] {
        assert_eq!(pst_time_string_to_time(&format!("7:15{}", m)), Ok(t(19, 15)));
    }
}

#[test]
fn pacific_parse_is_unanchored() {
    assert_eq!(pst_time_string_to_time(&s("at 10:45AM!")), Ok(t(10, 45)));
    assert_eq!(pst_time_string_to_time(&s("1:2am 3:456pm 4:05pm")), Ok(t(16, 5)));
    assert_eq!(pst_time_string_to_time(&s("99:99am")), Ok(t(99, 99)));
}

#[test]
fn pacific_parse_refusals() {
    assert_eq!(pst_time_string_to_time(&s("")), Err(InvalidTimeString));
    assert_eq!(pst_time_string_to_time(&s("25:99xx")), Err(InvalidTimeString));
    assert_eq!(pst_time_string_to_time(&s("5:3AM")), Err(InvalidTimeString));
    assert_eq!(pst_time_string_to_time(&s("5:30 AM")), Err(InvalidTimeString));
    assert_eq!(pst_time_string_to_time(&s(":30AM")), Err(InvalidTimeString));
    assert_eq!(pst_time_string_to_time(&s("2147483647:00pm")), Err(InvalidTimeString));
}

#[test]
fn pacific_parse_largest_hours() {
    assert_eq!(pst_time_string_to_time(&s("2147483647:00am")), Ok(t(i32::MAX, 0)));
    assert_eq!(pst_time_string_to_time(&s("2147483635:00pm")), Ok(t(i32::MAX, 0)));
}

#[test]
fn pacific_format() {
    assert_eq!(time_to_pst_time_string(&t(0, 5)), "0:5AM");
    assert_eq!(time_to_pst_time_string(&t(12, 30)), "12:30PM");
    assert_eq!(time_to_pst_time_string(&t(13, 0)), "1:0PM");
    assert_eq!(time_to_pst_time_string(&t(23, 59)), "11:59PM");
    assert_eq!(time_to_pst_time_string(&t(11, 7)), "11:7AM");
}

#[test]
fn format_negative_values() {
    assert_eq!(time_to_paris_time_string(&t(-3, -5)), "-3 h 0-5");
    assert_eq!(time_to_pst_time_string(&t(i32::MIN, 0)), "-2147483648:0AM");
}

#[test]
fn paris_to_pacific_end_to_end() {
    assert_eq!(paris_to_pst_string(&s("14h30")), "5:30AM");
    assert_eq!(paris_to_pst_string(&s("3h00")), "6:0PM");
    assert_eq!(paris_to_pst_string(&s("9h15")), "0:15AM");
    assert_eq!(paris_to_pst_string(&s("21h05")), "12:5PM");
}

#[test]
fn pacific_to_paris_end_to_end() {
    assert_eq!(pst_to_paris_string(&s("5:30AM")), "14 h 30");
    assert_eq!(pst_to_paris_string(&s("8:05pm")), "5 h 05");
    assert_eq!(pst_to_paris_string(&s("3:00pm")), "0 h 00");
}

#[test]
fn invalid_input_end_to_end() {
    assert_eq!(paris_to_pst_string(&s("not a time")), "InvalidTimeString");
    assert_eq!(pst_to_paris_string(&s("25:99xx")), "InvalidTimeString");
}

#[test]
fn convert_both_directions() {
    assert_eq!(convert(ConversionType::ParisToPst, &s("14h30")), "5:30AM");
    assert_eq!(convert(ConversionType::PstToParis, &s("5:30AM")), "14 h 30");
    assert_eq!(convert(ConversionType::PstToParis, &s("14h30")), "InvalidTimeString");
}

#[test]
fn delta_wraps_once() {
    assert_eq!(add_delta(&t(3, 10), -9), t(18, 10));
    assert_eq!(add_delta(&t(20, 45), 9), t(5, 45));
    assert_eq!(add_delta(&t(9, 0), -9), t(0, 0));
    assert_eq!(add_delta(&t(14, 0), 9), t(23, 0));
    assert_eq!(add_delta(&t(15, 0), 9), t(0, 0));
}

#[test]
fn delta_beyond_a_day_is_corrected_once() {
    assert_eq!(add_delta(&t(0, 0), -30), t(-6, 0));
    assert_eq!(add_delta(&t(23, 0), 30), t(29, 0));
}

#[test]
fn cors_allows_any_origin() {
    assert_eq!(CORS.name(), "Attaching CORS headers to responses");
    assert_eq!(CORS.header(), ("Access-Control-Allow-Origin", "*"));
}
