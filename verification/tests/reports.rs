use report_engine::dividend_list::DividendListManager;
use report_engine::error::ReportError;
use report_engine::factory::{create_factory, process, TemplateManager};
use report_engine::labels::default_labels;
use report_engine::render::TemplateStruct;

const DIVIDEND_HEADER: &str = "受渡日,商品,口座,銘柄コード,銘柄名,受取通貨,単価,数量[株],配当・分配金(税引前),税額,受取金額";

fn dividend_csv() -> String {
    format!(
        "{}\n{}\n{}\n",
        DIVIDEND_HEADER,
        "2024/01/15,株式,特定,1234,ﾃｽﾄ銘柄,円,100,10,1000,100,900",
        "2024/02/10,株式,特定,5678,ﾃｽﾄ銘柄2,円,200,10,2000,200,1800",
    )
}

#[test]
fn factory_rejects_unknown_kind() {
    match create_factory("bogus-kind") {
        Err(e) => assert_eq!(e, ReportError::UnknownReportKind),
        Ok(_) => panic!("an unrecognized kind must not default to a manager"),
    }
}

#[test]
fn factory_recognizes_both_kinds() {
    assert!(matches!(create_factory("dividend"), Ok(TemplateManager::Dividend(_))));
    assert!(matches!(create_factory("profit-loss"), Ok(TemplateManager::ProfitAndLoss(_))));
}

#[test]
fn process_surfaces_unknown_kind() {
    let labels = default_labels();
    assert_eq!(
        process(b"a,b\nc,d\n", "receipts", &labels),
        Err(ReportError::UnknownReportKind)
    );
}

#[test]
fn dividend_scenario_two_months() {
    let labels = default_labels();
    let html = process(dividend_csv().as_bytes(), "dividend", &labels).unwrap();

    // Two data rows (class-less), each month rendered once.
    assert_eq!(html.matches("<tr >").count(), 2);
    assert_eq!(html.matches("<tr class=\"group-total\">").count(), 2);

    // Data rows show the display date separator.
    assert!(html.contains("<td class=\"settlement_date\">2024/01/15</td>"));
    assert!(html.contains("<td class=\"settlement_date\">2024/02/10</td>"));

    // Group totals: most recent month first, thousands-grouped.
    let feb_total = html.find("<td class=\"total_dividends_before_tax\">2,000</td>").unwrap();
    let jan_total = html.find("<td class=\"total_dividends_before_tax\">1,000</td>").unwrap();
    assert!(feb_total < jan_total);
    let feb_tax = html.find("<td class=\"total_taxes\">200</td>").unwrap();
    let jan_tax = html.find("<td class=\"total_taxes\">100</td>").unwrap();
    assert!(feb_tax < jan_tax);
    let feb_net = html.find("<td class=\"total_net_amount_received\">1,800</td>").unwrap();
    let jan_net = html.find("<td class=\"total_net_amount_received\">900</td>").unwrap();
    assert!(feb_net < jan_net);

    // Data rows come before every total row.
    let first_total = html.find("<tr class=\"group-total\">").unwrap();
    let last_data = html.rfind("<tr >").unwrap();
    assert!(last_data < first_total);

    // The head carries the configured labels.
    assert!(html.starts_with("<table><thead><tr>"));
    assert!(html.contains("<th class=\"settlement_date\">受渡日</th>"));
    assert!(html.ends_with("</tbody></table>"));
}

#[test]
fn dividend_row_of_wrong_width_is_excluded() {
    let labels = default_labels();
    let csv = format!(
        "{}\n{}\n{}\n",
        DIVIDEND_HEADER,
        "2024/01/15,株式,特定,1234,KEEPME,円,100,10,1000,100,900",
        "2024/01/16,株式,特定,9999,DROPME",
    );
    let html = process(csv.as_bytes(), "dividend", &labels).unwrap();
    assert!(html.contains("KEEPME"));
    assert!(!html.contains("DROPME"));
    assert_eq!(html.matches("<tr >").count(), 1);
}

#[test]
fn dividend_group_total_sums_its_records() {
    let labels = default_labels();
    let csv = format!(
        "{}\n{}\n{}\n{}\n",
        DIVIDEND_HEADER,
        "2024/03/05,株式,特定,1111,A,円,10,1,300,30,270",
        "2024/03/20,株式,特定,2222,B,円,10,1,450,45,405",
        "2024/04/02,株式,特定,3333,C,円,10,1,100,10,90",
    );
    let html = process(csv.as_bytes(), "dividend", &labels).unwrap();
    // March: 300 + 450 = 750, taxes 75, net 675; April stands alone.
    assert!(html.contains("<td class=\"total_dividends_before_tax\">750</td>"));
    assert!(html.contains("<td class=\"total_taxes\">75</td>"));
    assert!(html.contains("<td class=\"total_net_amount_received\">675</td>"));
    assert!(html.contains("<td class=\"total_dividends_before_tax\">100</td>"));
}

#[test]
fn dividend_bad_cells_drop_fields_not_rows() {
    let labels = default_labels();
    let csv = format!(
        "{}\n{}\n",
        DIVIDEND_HEADER,
        "2024/05/01,株式,特定,4444,PARTIAL,円,100,ten,500,50,450",
    );
    let html = process(csv.as_bytes(), "dividend", &labels).unwrap();
    // The unparsable share count is absent; the rest of the row is kept.
    assert!(html.contains("PARTIAL"));
    assert!(html.contains("<td class=\"shares\"></td>"));
    assert!(html.contains("<td class=\"dividends_before_tax\">500</td>"));
}

#[test]
fn dividend_rows_without_date_are_dropped() {
    let labels = default_labels();
    let csv = format!(
        "{}\n{}\n",
        DIVIDEND_HEADER,
        ",株式,特定,5555,NODATE,円,100,1,500,50,450",
    );
    let html = process(csv.as_bytes(), "dividend", &labels).unwrap();
    assert!(!html.contains("NODATE"));
    assert_eq!(html.matches("<tr class=\"group-total\">").count(), 0);
}

#[test]
fn dividend_passthrough_fields_are_escaped() {
    let labels = default_labels();
    let csv = format!(
        "{}\n{}\n",
        DIVIDEND_HEADER,
        "2024/06/01,株式,特定,6666,\"<b>X&Y</b>\",円,100,1,500,50,450",
    );
    let html = process(csv.as_bytes(), "dividend", &labels).unwrap();
    assert!(html.contains("&lt;b&gt;X&amp;Y&lt;/b&gt;"));
    assert!(!html.contains("<b>X&Y</b>"));
}

#[test]
fn dividend_render_is_idempotent() {
    let labels = default_labels();
    let rows: Vec<Vec<String>> = vec![
        vec![
            "2024/01/15", "株式", "特定", "1234", "A", "円", "100", "10", "1000", "100", "900",
        ]
        .into_iter()
        .map(str::to_string)
        .collect(),
        vec![
            "2024/02/10", "株式", "特定", "5678", "B", "円", "200", "10", "2000", "200", "1800",
        ]
        .into_iter()
        .map(str::to_string)
        .collect(),
    ];
    let mut manager = DividendListManager::new();
    manager.process_records(&rows, 11);
    let first = manager.generate_html_table(&labels).unwrap();
    let second = manager.generate_html_table(&labels).unwrap();
    assert_eq!(first, second);
}

#[test]
fn missing_label_is_a_fatal_configuration_error() {
    let empty_labels: Vec<(String, String)> = Vec::new();
    assert_eq!(
        process(dividend_csv().as_bytes(), "dividend", &empty_labels),
        Err(ReportError::MissingLabelConfiguration)
    );
}

#[test]
fn malformed_csv_fails_the_whole_request() {
    let labels = default_labels();
    let bytes = "h1,h2\n\"unbalanced,x\n".as_bytes();
    assert_eq!(
        process(bytes, "dividend", &labels),
        Err(ReportError::MalformedInput)
    );
}

#[test]
fn undecodable_bytes_fail_the_whole_request() {
    let labels = default_labels();
    assert_eq!(
        process(&[0xFFu8, 0xFF], "dividend", &labels),
        Err(ReportError::DecodeError)
    );
}

#[test]
fn template_struct_builds() {
    let _renderer = TemplateStruct::new();
}
