use nydus_dedup::Attributes;
use nydus_dedup::AttrError;
use nydus_dedup::Item;

fn load(content: &str) -> Attributes {
    Attributes::from(content.as_bytes()).unwrap()
}

fn value_of(attributes: &Attributes, path: &str, key: &str) -> Option<String> {
    attributes.get_value(path, key)
}

#[test]
fn test_attribute_parse() {
    let attributes = load(
        "/foo type=external crcs=0x1234,0x5678
            /bar type=external crcs=0x1234,0x5678
            /models/foo/bar type=external",
    );

    for path in ["/foo", "/bar"] {
        assert_eq!(value_of(&attributes, path, "type"), Some("external".to_string()));
        assert_eq!(value_of(&attributes, path, "crcs"), Some("0x1234,0x5678".to_string()));
    }
    for path in ["/models", "/models/foo", "/models/foo/bar"] {
        assert_eq!(value_of(&attributes, path, "type"), Some("external".to_string()));
        assert_eq!(value_of(&attributes, path, "crcs"), None);
    }
    assert!(attributes.get_values("/elsewhere").is_none());
    assert_eq!(attributes.get_crcs("/foo"), Some(&vec![0x1234, 0x5678]))
}

#[test]
fn test_is_external() {
    let attributes = load("/foo type=external\n/bar type=internal");
    assert!(attributes.is_external("/foo"));
    assert!(!attributes.is_external("/bar"));
    assert!(!attributes.is_external("/nonexistent"));
}

#[test]
fn test_is_prefix_external() {
    let attributes = load("/external/path type=external");
    assert!(attributes.is_prefix_external("/external"));
    assert!(!attributes.is_prefix_external("/nonexistent"));
}

#[test]
fn test_get_value() {
    let attributes = load("/foo type=external crcs=0x1234");
    assert_eq!(
        attributes.get_value("/foo", "type"),
        Some("external".to_string())
    );
    assert_eq!(
        attributes.get_value("/foo", "crcs"),
        Some("0x1234".to_string())
    );
    assert_eq!(attributes.get_value("/foo", "nonexistent"), None);
    assert_eq!(attributes.get_value("/nonexistent", "type"), None);
}

#[test]
fn test_get_values() {
    let attributes = load("/foo type=external crcs=0x1234");
    let values = attributes.get_values("/foo");
    assert!(values.is_some());
    let values = values.unwrap();
    assert!(values
        .iter()
        .any(|(k, v)| k == "type" && v == "external"));
    assert!(attributes.get_values("/nonexistent").is_none());
}

#[test]
fn test_get_crcs() {
    let attributes = load("/foo crcs=0x1234,0xabcd\n/bar type=external");
    assert_eq!(attributes.get_crcs("/foo"), Some(&vec![0x1234, 0xabcd]));
    assert_eq!(attributes.get_crcs("/bar"), Some(&vec![]));
    assert_eq!(attributes.get_crcs("/nonexistent"), None);
}

#[test]
fn test_attribute_parse_relative_path() {
    let attributes = load("foo/bar type=external");
    assert!(attributes.is_external("/foo/bar"));
    assert!(attributes.is_external("/foo"));
}

#[test]
fn test_attribute_parse_hex_without_prefix() {
    let attributes = load("/foo crcs=1234,abcd");
    assert_eq!(attributes.get_crcs("/foo"), Some(&vec![0x1234, 0xabcd]));
}

#[test]
fn test_attribute_parse_with_whitespace() {
    let attributes = load("/foo crcs=0x1234,0xabcd");
    assert_eq!(attributes.get_crcs("/foo"), Some(&vec![0x1234, 0xabcd]));
}

#[test]
fn test_check_external() {
    let attributes = load("/foo type=external");
    let values = attributes.get_values("/foo").unwrap();
    assert!(attributes.check_external(values));

    let non_external = vec![("type".to_string(), "internal".to_string())];
    assert!(!attributes.check_external(&non_external));
}

#[test]
fn test_invalid_crc_value() {
    let r = Attributes::from("/foo crcs=0xzz".as_bytes());
    assert!(matches!(r, Err(AttrError::InvalidCrc)));

    let r = Attributes::from("/foo crcs=".as_bytes());
    assert!(matches!(r, Err(AttrError::InvalidCrc)));
}

#[test]
fn test_macro_lines_ignored() {
    let attributes = load("[attr]binary -diff -text\n/foo type=external");
    assert!(attributes.is_external("/foo"));
    assert!(attributes.get_values("binary").is_none());
    assert!(attributes.get_values("/binary").is_none());
}

#[test]
fn test_unparsable_attribute_name() {
    // Attribute names with the reserved prefix are rejected by the
    // syntax layer, which fails the whole load.
    let r = Attributes::from("/foo builtin_x".as_bytes());
    assert!(matches!(r, Err(AttrError::Parse)));
}

#[test]
fn test_default_item() {
    let item = Item::default();
    assert_eq!(item.pattern, String::new());
    assert!(item.attributes.is_empty());
}

#[test]
fn test_default_attributes() {
    let attributes = Attributes::default();
    assert!(attributes.get_values("/").is_none());
    assert!(attributes.get_crcs("/").is_none());
}
