//! The run output encoding: exact JSON text, and that it parses back as
//! the JSON object it claims to be.

use widget_platform::widget::weather::{encode_output, WeatherWidgetState};

#[test]
fn encode_zero() {
    let s = encode_output(&WeatherWidgetState { temperature: 0 });
    assert_eq!(s, String::from("{\"temperature\":0}"));
}

#[test]
fn encode_small_value() {
    let s = encode_output(&WeatherWidgetState { temperature: 5 });
    assert_eq!(s, String::from("{\"temperature\":5}"));
}

#[test]
fn encode_multi_digit_value() {
    let s = encode_output(&WeatherWidgetState { temperature: 1048576 });
    assert_eq!(s, String::from("{\"temperature\":1048576}"));
}

#[test]
fn encode_largest_value() {
    let s = encode_output(&WeatherWidgetState { temperature: u64::MAX });
    assert_eq!(s, String::from("{\"temperature\":18446744073709551615}"));
}

#[test]
fn encoding_round_trips_through_json() {
    let s = encode_output(&WeatherWidgetState { temperature: 42 });
    let v: serde_json::Value = serde_json::from_str(&s).expect("valid JSON");
    assert_eq!(v.get("temperature").and_then(|t| t.as_u64()), Some(42));
}
