use ppl::source_file::{ColumnNumber, LineNumber, SourceFile};

#[test]
fn line_number() {
    let content = "Hello\nworld!";
    let n = content.len();
    let source_file = SourceFile::in_memory("test".to_string(), content.to_string());
    assert_eq!(source_file.line_number(0).zero_based(), 0);
    assert_eq!(source_file.line_number(4).zero_based(), 0);
    // '\n' is included in the line
    assert_eq!(source_file.line_number(5).zero_based(), 0);
    assert_eq!(source_file.line_number(6).zero_based(), 1);
    assert_eq!(source_file.line_number(n - 1).zero_based(), 1);
    assert_eq!(source_file.line_number(n).zero_based(), 1);
    assert_eq!(source_file.line_number(n + 1).zero_based(), 1);

    assert_eq!(source_file.line_number(0).one_based(), 1);
    assert_eq!(source_file.line_number(4).one_based(), 1);
    // '\n' is included in the line
    assert_eq!(source_file.line_number(5).one_based(), 1);
    assert_eq!(source_file.line_number(6).one_based(), 2);
    assert_eq!(source_file.line_number(n - 1).one_based(), 2);
    assert_eq!(source_file.line_number(n).one_based(), 2);
    assert_eq!(source_file.line_number(n + 1).one_based(), 2);
}

#[test]
fn column_number() {
    let content = "Hello\nworld!";
    let n = content.len();
    let source_file = SourceFile::in_memory("test".to_string(), content.to_string());
    assert_eq!(source_file.column_number(0).zero_based(), 0);
    assert_eq!(source_file.column_number(4).zero_based(), 4);
    // '\n' is included in the line
    assert_eq!(source_file.column_number(5).zero_based(), 5);
    assert_eq!(source_file.column_number(6).zero_based(), 0);
    assert_eq!(source_file.column_number(n - 1).zero_based(), 5);
    assert_eq!(source_file.column_number(n).zero_based(), 6);
    assert_eq!(source_file.column_number(n + 1).zero_based(), 6);

    assert_eq!(source_file.column_number(0).one_based(), 1);
    assert_eq!(source_file.column_number(4).one_based(), 5);
    // '\n' is included in the line
    assert_eq!(source_file.column_number(5).one_based(), 6);
    assert_eq!(source_file.column_number(6).one_based(), 1);
    assert_eq!(source_file.column_number(n - 1).one_based(), 6);
    assert_eq!(source_file.column_number(n).one_based(), 7);
    assert_eq!(source_file.column_number(n + 1).one_based(), 7);
}

#[test]
fn one_based_numbers() {
    assert!(LineNumber::from_one_based(0).is_err());
    assert_eq!(LineNumber::from_one_based(3).unwrap().zero_based(), 2);
    assert_eq!(LineNumber::from_zero_based(3).one_based(), 4);
    assert!(ColumnNumber::from_one_based(0).is_err());
    assert_eq!(ColumnNumber::from_one_based(1).unwrap().zero_based(), 0);
}

#[test]
fn multibyte_offsets() {
    let source_file = SourceFile::in_memory("t".to_string(), "é\nab".to_string());
    assert_eq!(source_file.line_number(3).zero_based(), 1);
    assert_eq!(source_file.column_number(4).zero_based(), 1);
    assert_eq!(source_file.name(), "t");
    assert_eq!(source_file.path(), "<memory>");
}
