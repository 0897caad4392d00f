use ppl::syntax::identifier::Identifier;
use ppl::syntax::ranged::Ranged;
use ppl::syntax::with_offset::StringWithOffset;

#[test]
fn string_with_offset_ranges() {
    let value = StringWithOffset::from("hello").at(10);
    assert_eq!(value.range(), 10..15);
    let value = StringWithOffset::from("hello");
    assert_eq!(value.range(), 0..5);
    let value = StringWithOffset::from_string("hello".to_string());
    assert_eq!(value.range(), 0..5);
    let value = StringWithOffset::from("héllo").at(1);
    assert_eq!(value.range(), 1..7);
    assert!(value.eq_str("héllo"));
    assert_eq!(value.into_string(), "héllo");
}

#[test]
fn identifiers_drop_backquotes() {
    let id = Identifier::from(StringWithOffset::from("`a b`").at(3));
    assert_eq!(id.as_str(), "a b");
    assert_eq!(id.range(), 3..8);
    assert!(id.eq_str("a b"));
    let id = Identifier::from(StringWithOffset::from("plain"));
    assert_eq!(id.as_str(), "plain");
    let id = Identifier::from(StringWithOffset::from("``"));
    assert_eq!(id.as_str(), "");
}

#[test]
fn ranges_of_sequences() {
    let items = vec![
        StringWithOffset::from("ab").at(2),
        StringWithOffset::from("cde").at(6),
    ];
    assert_eq!(items.range(), 2..9);
    let empty: Vec<StringWithOffset> = vec![];
    assert_eq!(empty.range(), 0..0);
}
