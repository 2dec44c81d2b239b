use std::collections::HashMap;

use native_json::{decimal, Data};

#[test]
fn data_parts() {
    let mut h = HashMap::new();
    h.insert("content-type".to_string(), "text/plain".to_string());
    let d = Data::new(200, "{\"a\": 1}".to_string(), h.clone());
    assert_eq!(d.status(), 200);
    assert_eq!(d.text(), "{\"a\": 1}");
    assert_eq!(d.headers(), &h);
    assert_eq!(d.json()["a"], 1);
}

#[test]
fn data_not_json_is_null() {
    let d = Data::new(200, "not json".to_string(), HashMap::new());
    assert!(d.json().is_null());
}

#[test]
fn data_timed_out() {
    let d = Data::timed_out();
    assert_eq!(d.status(), 522);
    assert_eq!(d.text(), "");
    assert!(d.headers().is_empty());
}

#[test]
fn decimal_numerals() {
    assert_eq!(decimal(0), "0");
    assert_eq!(decimal(7), "7");
    assert_eq!(decimal(10), "10");
    assert_eq!(decimal(1234), "1234");
}
