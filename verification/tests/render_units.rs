use report_engine::error::ReportError;
use report_engine::labels::{default_labels, lookup_label};
use report_engine::render::{
    escape_html, format_class, format_date, format_value, generate_table_header,
    generate_table_row, generate_table_row_with_class,
};

#[test]
fn format_date_swaps_separator() {
    assert_eq!(format_date("2024-01-15"), "2024/01/15");
    assert_eq!(format_date("2024/01/15"), "2024/01/15");
    assert_eq!(format_date(""), "");
}

#[test]
fn escape_html_escapes_markup() {
    assert_eq!(escape_html("<b>&\"x\"</b>"), "&lt;b&gt;&amp;&quot;x&quot;&lt;/b&gt;");
    assert_eq!(escape_html("plain"), "plain");
}

#[test]
fn format_value_dispatches_by_field_kind() {
    assert_eq!(format_value("settlement_date", "2024-01-15"), "2024/01/15");
    assert_eq!(format_value("taxes", "1234"), "1,234");
    assert_eq!(format_value("product", "<x>"), "&lt;x&gt;");
    // A numeric column's not-applicable marker passes through unchanged.
    assert_eq!(format_value("shares", "-"), "-");
}

#[test]
fn format_class_wraps_nonempty_lists() {
    assert_eq!(format_class(""), "");
    assert_eq!(format_class("group-total"), "class=\"group-total\"");
}

#[test]
fn table_row_tags_cells_with_field_names() {
    let values = vec![
        ("taxes".to_string(), Some("1234".to_string())),
        ("product".to_string(), None),
    ];
    assert_eq!(
        generate_table_row(&values),
        "<tr ><td class=\"taxes\">1,234</td><td class=\"product\"></td></tr>"
    );
    assert_eq!(
        generate_table_row_with_class("group-total", &values),
        "<tr class=\"group-total\"><td class=\"taxes\">1,234</td><td class=\"product\"></td></tr>"
    );
}

#[test]
fn table_row_marks_negative_values() {
    let values = vec![("taxes".to_string(), Some("-1234".to_string()))];
    assert_eq!(
        generate_table_row(&values),
        "<tr ><td class=\"taxes negative\">-1,234</td></tr>"
    );
}

#[test]
fn table_header_labels_each_field() {
    let labels = default_labels();
    let headers = vec![
        ("settlement_date".to_string(), None),
        ("taxes".to_string(), None),
    ];
    assert_eq!(
        generate_table_header(&headers, &labels).unwrap(),
        "<table><thead><tr><th class=\"settlement_date\">受渡日</th><th class=\"taxes\">税額</th></tr></thead>"
    );
}

#[test]
fn table_header_fails_on_missing_label() {
    let labels = vec![("taxes".to_string(), "税額".to_string())];
    let headers = vec![("unheard_of".to_string(), None)];
    assert_eq!(
        generate_table_header(&headers, &labels),
        Err(ReportError::MissingLabelConfiguration)
    );
}

#[test]
fn lookup_label_finds_first_match() {
    let labels = default_labels();
    assert_eq!(lookup_label(&labels, "withholding_tax").as_deref(), Some("源泉徴収税額"));
    assert_eq!(lookup_label(&labels, "unheard_of"), None);
}
