use report_engine::csv::{parse_rows, CSVAccessor};
use report_engine::decode::decode;
use report_engine::error::ReportError;

#[test]
fn decode_utf8_is_identity() {
    let bytes = "受渡日,商品\nabc,def".as_bytes();
    assert_eq!(decode(bytes).unwrap(), "受渡日,商品\nabc,def");
}

#[test]
fn decode_empty_is_identity() {
    assert_eq!(decode(b"").unwrap(), "");
}

#[test]
fn decode_falls_back_to_shift_jis() {
    // 特定 in Shift_JIS; not valid UTF-8.
    let bytes = [0x93u8, 0xC1, 0x92, 0xE8];
    assert_eq!(decode(&bytes).unwrap(), "特定");
}

#[test]
fn decode_rejects_garbage() {
    // 0xFF is invalid both as UTF-8 and as a Shift_JIS byte.
    let bytes = [0xFFu8];
    assert_eq!(decode(&bytes), Err(ReportError::DecodeError));
}

#[test]
fn parse_rows_splits_fields_and_rows() {
    let rows = parse_rows("a,b,c\nd,e,f").unwrap();
    assert_eq!(rows, vec![vec!["a", "b", "c"], vec!["d", "e", "f"]]);
}

#[test]
fn parse_rows_handles_crlf_and_trailing_newline() {
    let rows = parse_rows("a,b\r\nc,d\r\n").unwrap();
    assert_eq!(rows, vec![vec!["a", "b"], vec!["c", "d"]]);
}

#[test]
fn parse_rows_quoted_fields() {
    let rows = parse_rows("\"a,b\",\"x\"\"y\"\n\"\",z").unwrap();
    assert_eq!(rows, vec![vec!["a,b", "x\"y"], vec!["", "z"]]);
}

#[test]
fn parse_rows_empty_input() {
    let rows = parse_rows("").unwrap();
    assert!(rows.is_empty());
}

#[test]
fn parse_rows_rejects_unbalanced_quote() {
    assert_eq!(parse_rows("\"abc"), Err(ReportError::MalformedInput));
}

#[test]
fn parse_rows_rejects_quote_inside_unquoted_field() {
    assert_eq!(parse_rows("ab\"c,d"), Err(ReportError::MalformedInput));
}

#[test]
fn parse_rows_rejects_text_after_closing_quote() {
    assert_eq!(parse_rows("\"ab\"c,d"), Err(ReportError::MalformedInput));
}

#[test]
fn read_splits_header_and_remembers_width() {
    let table = CSVAccessor::read("h1,h2,h3\na,b,c\nd,e,f".as_bytes()).unwrap();
    assert_eq!(table.expected_width, 3);
    assert_eq!(table.rows, vec![vec!["a", "b", "c"], vec!["d", "e", "f"]]);
}

#[test]
fn read_of_empty_input_is_empty() {
    let table = CSVAccessor::read(b"").unwrap();
    assert_eq!(table.expected_width, 0);
    assert!(table.rows.is_empty());
}

#[test]
fn error_messages_describe_failures() {
    assert!(ReportError::DecodeError.message().contains("decode"));
    assert!(ReportError::MalformedInput.message().contains("tabular"));
}
