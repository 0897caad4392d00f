use ppl::source_file::SourceFile;
use ppl::source_location::{AddSourceLocation, SourceLocation, SourceSpan, WithSourceLocation};

#[derive(Clone, Debug, PartialEq)]
struct Name(String);

impl AddSourceLocation for Name {}

#[test]
fn spans_from_ranges() {
    assert_eq!(SourceSpan::from_range(3, 7), SourceSpan { offset: 3, length: 4 });
    assert_eq!(SourceSpan::from_range(7, 3), SourceSpan { offset: 7, length: 0 });
    assert_eq!(SourceSpan::at_offset(5), SourceSpan { offset: 5, length: 0 });
}

#[test]
fn values_at_locations() {
    let location = SourceLocation::from_span(SourceSpan::from_range(1, 4));
    assert!(location.source_file.is_none());
    let named = Name("x".to_string()).at(location);
    assert_eq!(named.value, Name("x".to_string()));
    assert_eq!(named.source_location.at, SourceSpan { offset: 1, length: 3 });

    let copy: WithSourceLocation<Name> = named.clone();
    assert_eq!(copy.value, named.value);
    assert_eq!(copy.source_location.at, named.source_location.at);
}

#[test]
fn locations_in_files() {
    let file = SourceFile::in_memory("test".to_string(), "x = 1".to_string());
    let location = SourceLocation { source_file: Some(file), at: SourceSpan::at_offset(0) };
    let copy = location.clone();
    let file = copy.source_file.unwrap();
    assert_eq!(file.name(), "test");
    assert_eq!(file.path(), "<memory>");
    assert_eq!(file.source(), "x = 1");
}
