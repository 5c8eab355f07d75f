use roblox_rs::attribute::{new_symbol_name, AttributeValue, ParsedAttributes};

fn s(v: &str) -> AttributeValue {
    AttributeValue::String(v.to_string())
}

#[test]
fn recognised_attributes_fill_their_slots() {
    let a = ParsedAttributes::parse(vec![
        ("namespace".to_string(), s("test")),
        ("name".to_string(), s("Vector3.new")),
        ("main".to_string(), AttributeValue::Boolean(true)),
    ])
    .unwrap();
    assert_eq!(a.namespace, Some("test".to_string()));
    assert_eq!(a.name, Some("Vector3.new".to_string()));
    assert_eq!(a.main, Some(true));
}

#[test]
fn missing_attributes_stay_empty() {
    let a = ParsedAttributes::parse(vec![]).unwrap();
    assert_eq!(a.namespace, None);
    assert_eq!(a.name, None);
    assert_eq!(a.main, None);
}

#[test]
fn later_values_overwrite_earlier_ones() {
    let a = ParsedAttributes::parse(vec![
        ("name".to_string(), s("first")),
        ("name".to_string(), s("second")),
    ])
    .unwrap();
    assert_eq!(a.name, Some("second".to_string()));
}

#[test]
fn unrecognised_names_are_refused() {
    let e = ParsedAttributes::parse(vec![("colour".to_string(), s("red"))]).unwrap_err();
    assert_eq!(e, "attribute name not recognized");
}

#[test]
fn wrong_value_kinds_are_refused() {
    let e = ParsedAttributes::parse(vec![(
        "name".to_string(),
        AttributeValue::Boolean(false),
    )])
    .unwrap_err();
    assert_eq!(e, "invalid value type, expected String");
    let e = ParsedAttributes::parse(vec![("main".to_string(), s("yes"))]).unwrap_err();
    assert_eq!(e, "invalid value type, expected Boolean");
}

#[test]
fn symbol_names_are_deterministic_and_distinct() {
    let a = new_symbol_name("greet", 0);
    let b = new_symbol_name("greet", 0);
    let c = new_symbol_name("greet", 1);
    let d = new_symbol_name("main", 0);
    assert_eq!(a, b);
    assert_ne!(a, c);
    assert_ne!(a, d);
    assert!(a.starts_with("greet_"));
    let digits = &a["greet_".len()..];
    assert!(!digits.is_empty());
    assert!(digits.chars().all(|ch| ch.is_ascii_hexdigit()));
}
