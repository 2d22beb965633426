use report_engine::error::ReportError;
use report_engine::factory::process;
use report_engine::labels::default_labels;
use report_engine::profit_and_loss::{ProfitAndLoss, ProfitAndLossManager};

const PL_HEADER: &str = "約定日,受渡日,銘柄コード,銘柄名,口座,区分,通貨,数量[株],売却/決済単価[円],売却/決済額[円],平均取得価額[円],実現損益[円]";

#[test]
fn profit_loss_scenario_single_overall_total() {
    let labels = default_labels();
    let csv = format!(
        "{}\n{}\n{}\n{}\n",
        PL_HEADER,
        "2024/01/10,2024/01/12,1111,AAA,特定口座,現物,円,10,1500.5,15005,1200,6000",
        "2024/01/10,2024/01/12,2222,BBB,NISA口座,現物,円,5,800,4000,700,4000",
        "2024/02/15,2024/02/17,3333,CCC,特定口座,現物,円,20,200,4000,150,4000",
    );
    let html = process(csv.as_bytes(), "profit-loss", &labels).unwrap();

    // Three data rows, one single trailing overall total row.
    assert_eq!(html.matches("<tr >").count(), 3);
    assert_eq!(html.matches("<tr class=\"group-total\">").count(), 1);
    let total_at = html.find("<tr class=\"group-total\">").unwrap();
    assert!(html.rfind("<tr >").unwrap() < total_at);

    // Taxable class: 6000 + 4000 = 10000; tax-advantaged: 4000.
    // Withholding rounds 10000 * 20315 / 100000 to 2032.
    // Overall total 14000; net 14000 - 2032 = 11968.
    assert!(html.contains("<td class=\"total_realized_profit_and_loss\">14,000</td>"));
    assert!(html.contains("<td class=\"withholding_tax\">2,032</td>"));
    assert!(html.contains("<td class=\"profit_and_loss\">11,968</td>"));

    // Trade dates group the data rows in ascending order.
    let jan = html.find("<td class=\"trade_date\">2024/01/10</td>").unwrap();
    let feb = html.find("<td class=\"trade_date\">2024/02/15</td>").unwrap();
    assert!(jan < feb);

    // Decimal prices keep their fraction and gain thousands grouping.
    assert!(html.contains("<td class=\"asked_price\">1,500.5</td>"));
}

#[test]
fn profit_loss_negative_taxable_total_owes_no_tax() {
    let labels = default_labels();
    let csv = format!(
        "{}\n{}\n{}\n",
        PL_HEADER,
        "2024/03/01,2024/03/03,1111,AAA,特定口座,現物,円,10,100,1000,200,-7000",
        "2024/03/02,2024/03/04,2222,BBB,NISA口座,現物,円,10,100,1000,50,500",
    );
    let html = process(csv.as_bytes(), "profit-loss", &labels).unwrap();
    assert!(html.contains("<td class=\"withholding_tax\">0</td>"));
    // Overall total -6500, net also -6500.
    assert!(html.contains(
        "<td class=\"total_realized_profit_and_loss negative\">-6,500</td>"
    ));
    assert!(html.contains("<td class=\"profit_and_loss negative\">-6,500</td>"));
    // The losing data row carries the negative marker on its cell.
    assert!(html.contains("<td class=\"realized_profit_and_loss negative\">-7,000</td>"));
}

#[test]
fn profit_loss_total_record_constructor() {
    let rec = ProfitAndLoss::new_total_realized_profit_and_loss((10000, 4000));
    assert_eq!(rec.total_realized_profit_and_loss, Some(14000));
    assert_eq!(rec.withholding_tax, Some(2032));
    assert_eq!(rec.profit_and_loss, Some(11968));

    let loss = ProfitAndLoss::new_total_realized_profit_and_loss((-100, 250));
    assert_eq!(loss.withholding_tax, Some(0));
    assert_eq!(loss.total_realized_profit_and_loss, Some(150));
    assert_eq!(loss.profit_and_loss, Some(150));
}

#[test]
fn profit_loss_withholding_rounds_half_up() {
    // 1 * 20315 / 100000 rounds to 0; 3 * 20315 / 100000 rounds to 1.
    let tiny = ProfitAndLoss::new_total_realized_profit_and_loss((1, 0));
    assert_eq!(tiny.withholding_tax, Some(0));
    let three = ProfitAndLoss::new_total_realized_profit_and_loss((3, 0));
    assert_eq!(three.withholding_tax, Some(1));
}

#[test]
fn profit_loss_render_is_idempotent() {
    let labels = default_labels();
    let rows: Vec<Vec<String>> = vec![vec![
        "2024/01/10",
        "2024/01/12",
        "1111",
        "AAA",
        "特定口座",
        "現物",
        "円",
        "10",
        "1500.5",
        "15005",
        "1200",
        "6000",
    ]
    .into_iter()
    .map(str::to_string)
    .collect()];
    let mut manager = ProfitAndLossManager::new();
    manager.process_records(&rows, 12);
    let first = manager.generate_html_table(&labels).unwrap();
    let second = manager.generate_html_table(&labels).unwrap();
    assert_eq!(first, second);
}

#[test]
fn profit_loss_unknown_account_class_is_tax_advantaged() {
    let labels = default_labels();
    let csv = format!(
        "{}\n{}\n",
        PL_HEADER,
        "2024/04/01,2024/04/03,1111,AAA,一般口座,現物,円,1,100,100,50,1000",
    );
    let html = process(csv.as_bytes(), "profit-loss", &labels).unwrap();
    // No taxable-class gain, so nothing is withheld.
    assert!(html.contains("<td class=\"withholding_tax\">0</td>"));
    assert!(html.contains("<td class=\"total_realized_profit_and_loss\">1,000</td>"));
}

#[test]
fn profit_loss_shift_jis_upload_decodes() {
    let labels = default_labels();
    let csv = format!(
        "{}\n{}\n",
        PL_HEADER,
        "2024/05/01,2024/05/03,1111,AAA,特定口座,現物,円,1,100,100,50,1000",
    );
    let (sjis, _, had_errors) = encoding_rs::SHIFT_JIS.encode(&csv);
    assert!(!had_errors);
    let html = process(&sjis, "profit-loss", &labels).unwrap();
    assert!(html.contains("<td class=\"withholding_tax\">203</td>"));
}

#[test]
fn profit_loss_missing_label_fails() {
    let one_label = vec![("trade_date".to_string(), "約定日".to_string())];
    let csv = format!("{}\n", PL_HEADER);
    assert_eq!(
        process(csv.as_bytes(), "profit-loss", &one_label),
        Err(ReportError::MissingLabelConfiguration)
    );
}

#[test]
fn dash_in_numeric_column_renders_as_dash() {
    let labels = default_labels();
    let csv = format!(
        "{}\n{}\n",
        PL_HEADER,
        "2024/06/01,2024/06/03,1111,AAA,特定口座,現物,円,1,-,100,50,1000",
    );
    let html = process(csv.as_bytes(), "profit-loss", &labels).unwrap();
    assert!(html.contains("<td class=\"asked_price negative\">-</td>"));
}
