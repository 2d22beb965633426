//! The dividend report: a record per statement row, grouped by settlement
//! month, rendered as data rows (months ascending) followed by one total
//! row per month (months descending, most recent first).
//!
//! Totals are always computed by the engine by summation over a group's
//! records; externally supplied summary rows are never trusted. A summary
//! row of a shorter width therefore simply fails the width policy and is
//! dropped like any other width-mismatched row.

use crate::common::{
    get_field, opt_date_string, opt_i128_string, opt_i32_string, opt_string_clone, parse_date,
    parse_int, parse_string, spec_coerce_date, spec_coerce_int, spec_coerce_string, spec_field,
    spec_opt_date_str, spec_opt_i128_str, spec_opt_i32_str,
};
use crate::csv::{spec_read, CSVAccessor};
use crate::date::Date;
use crate::error::ReportError;
use crate::grouping::{
    group_keys_wf, groups_count, groups_nonempty, groups_view, insert_grouped, lemma_spec_insert_wf,
    sorted_groups, spec_insert,
};
use crate::num::opt_str_view;
use crate::render::{
    generate_table_header, generate_table_row, generate_table_row_with_class, keys_of,
    spec_table_header, spec_table_row,
};
use vstd::prelude::*;
use vstd::string::StringExecFns;

verus! {

/// The largest record count a grouped mapping may reach; one parsed input
/// cannot exceed it, and the bound keeps every total within `i128`.
pub const COUNT_BOUND: u128 = 18446744073709551616;

/// The spec-level contents of a dividend record.
pub struct DividendListV {
    pub settlement_date: Option<Date>,
    pub product: Option<Seq<char>>,
    pub account: Option<Seq<char>>,
    pub security_code: Option<Seq<char>>,
    pub security_name: Option<Seq<char>>,
    pub currency: Option<Seq<char>>,
    pub unit_price: Option<Seq<char>>,
    pub shares: Option<i32>,
    pub dividends_before_tax: Option<i32>,
    pub taxes: Option<i32>,
    pub net_amount_received: Option<i32>,
    pub total_dividends_before_tax: Option<i128>,
    pub total_taxes: Option<i128>,
    pub total_net_amount_received: Option<i128>,
}

impl DividendListV {
    /// Validity: any present date is a real calendar day.
    pub open spec fn wf(self) -> bool {
        self.settlement_date matches Some(d) ==> d.wf()
    }
}

/// One row of a dividend statement; every field is independently optional.
#[derive(Clone, Debug)]
pub struct DividendList {
    pub settlement_date: Option<Date>,
    pub product: Option<String>,
    pub account: Option<String>,
    pub security_code: Option<String>,
    pub security_name: Option<String>,
    pub currency: Option<String>,
    pub unit_price: Option<String>,
    pub shares: Option<i32>,
    pub dividends_before_tax: Option<i32>,
    pub taxes: Option<i32>,
    pub net_amount_received: Option<i32>,
    pub total_dividends_before_tax: Option<i128>,
    pub total_taxes: Option<i128>,
    pub total_net_amount_received: Option<i128>,
}

impl View for DividendList {
    type V = DividendListV;

    open spec fn view(&self) -> DividendListV {
        DividendListV {
            settlement_date: self.settlement_date,
            product: opt_str_view(self.product),
            account: opt_str_view(self.account),
            security_code: opt_str_view(self.security_code),
            security_name: opt_str_view(self.security_name),
            currency: opt_str_view(self.currency),
            unit_price: opt_str_view(self.unit_price),
            shares: self.shares,
            dividends_before_tax: self.dividends_before_tax,
            taxes: self.taxes,
            net_amount_received: self.net_amount_received,
            total_dividends_before_tax: self.total_dividends_before_tax,
            total_taxes: self.total_taxes,
            total_net_amount_received: self.total_net_amount_received,
        }
    }
}

impl DeepView for DividendList {
    type V = DividendListV;

    open spec fn deep_view(&self) -> DividendListV {
        self.view()
    }
}

/// The record with every field absent.
pub open spec fn spec_dividend_empty() -> DividendListV {
    DividendListV {
        settlement_date: None,
        product: None,
        account: None,
        security_code: None,
        security_name: None,
        currency: None,
        unit_price: None,
        shares: None,
        dividends_before_tax: None,
        taxes: None,
        net_amount_received: None,
        total_dividends_before_tax: None,
        total_taxes: None,
        total_net_amount_received: None,
    }
}

/// The synthetic total record for the given aggregates.
pub open spec fn spec_dividend_total(d: i128, t: i128, n: i128) -> DividendListV {
    DividendListV {
        total_dividends_before_tax: Some(d),
        total_taxes: Some(t),
        total_net_amount_received: Some(n),
        ..spec_dividend_empty()
    }
}

/// What coercing a raw row yields: each field from its fixed column.
pub open spec fn spec_dividend_from_row(row: Seq<Seq<char>>) -> DividendListV {
    DividendListV {
        settlement_date: spec_coerce_date(spec_field(row, 0)),
        product: spec_coerce_string(spec_field(row, 1)),
        account: spec_coerce_string(spec_field(row, 2)),
        security_code: spec_coerce_string(spec_field(row, 3)),
        security_name: spec_coerce_string(spec_field(row, 4)),
        currency: spec_coerce_string(spec_field(row, 5)),
        unit_price: spec_coerce_string(spec_field(row, 6)),
        shares: spec_coerce_int(spec_field(row, 7)),
        dividends_before_tax: spec_coerce_int(spec_field(row, 8)),
        taxes: spec_coerce_int(spec_field(row, 9)),
        net_amount_received: spec_coerce_int(spec_field(row, 10)),
        total_dividends_before_tax: None,
        total_taxes: None,
        total_net_amount_received: None,
    }
}

/// The named field list of a record, in rendering order.
pub open spec fn spec_dividend_fields(v: DividendListV) -> Seq<(Seq<char>, Option<Seq<char>>)> {
    seq![
        ("settlement_date"@, spec_opt_date_str(v.settlement_date)),
        ("product"@, v.product),
        ("account"@, v.account),
        ("security_code"@, v.security_code),
        ("security_name"@, v.security_name),
        ("currency"@, v.currency),
        ("unit_price"@, v.unit_price),
        ("shares"@, spec_opt_i32_str(v.shares)),
        ("dividends_before_tax"@, spec_opt_i32_str(v.dividends_before_tax)),
        ("taxes"@, spec_opt_i32_str(v.taxes)),
        ("net_amount_received"@, spec_opt_i32_str(v.net_amount_received)),
        ("total_dividends_before_tax"@, spec_opt_i128_str(v.total_dividends_before_tax)),
        ("total_taxes"@, spec_opt_i128_str(v.total_taxes)),
        ("total_net_amount_received"@, spec_opt_i128_str(v.total_net_amount_received)),
    ]
}

impl DividendList {
    /// Builds the record with every field absent.
    pub fn new() -> (r: Self)
        ensures
            r@ == spec_dividend_empty(),
    {
        DividendList {
            settlement_date: None,
            product: None,
            account: None,
            security_code: None,
            security_name: None,
            currency: None,
            unit_price: None,
            shares: None,
            dividends_before_tax: None,
            taxes: None,
            net_amount_received: None,
            total_dividends_before_tax: None,
            total_taxes: None,
            total_net_amount_received: None,
        }
    }

    /// Builds the synthetic total record for a group's aggregates.
    pub fn new_total_dividend_list(totals: (i128, i128, i128)) -> (r: Self)
        ensures
            r@ == spec_dividend_total(totals.0, totals.1, totals.2),
    {
        let (total_dividends_before_tax, total_taxes, total_net_amount_received) = totals;
        DividendList {
            settlement_date: None,
            product: None,
            account: None,
            security_code: None,
            security_name: None,
            currency: None,
            unit_price: None,
            shares: None,
            dividends_before_tax: None,
            taxes: None,
            net_amount_received: None,
            total_dividends_before_tax: Some(total_dividends_before_tax),
            total_taxes: Some(total_taxes),
            total_net_amount_received: Some(total_net_amount_received),
        }
    }

    /// Coerces a raw row into a record, field by field; a field that fails
    /// to coerce is absent, and never aborts the row.
    pub fn from_record(record: &Vec<String>) -> (r: Self)
        ensures
            r@ == spec_dividend_from_row(record.deep_view()),
            r@.wf(),
    {
        DividendList {
            settlement_date: parse_date(get_field(record, 0)),
            product: parse_string(get_field(record, 1)),
            account: parse_string(get_field(record, 2)),
            security_code: parse_string(get_field(record, 3)),
            security_name: parse_string(get_field(record, 4)),
            currency: parse_string(get_field(record, 5)),
            unit_price: parse_string(get_field(record, 6)),
            shares: parse_int(get_field(record, 7)),
            dividends_before_tax: parse_int(get_field(record, 8)),
            taxes: parse_int(get_field(record, 9)),
            net_amount_received: parse_int(get_field(record, 10)),
            total_dividends_before_tax: None,
            total_taxes: None,
            total_net_amount_received: None,
        }
    }

    /// Enumerates the record's fields as name and optional rendering-ready
    /// text, in rendering order.
    pub fn get_all_fields(&self) -> (r: Vec<(String, Option<String>)>)
        requires
            self@.wf(),
        ensures
            r.deep_view() == spec_dividend_fields(self@),
    {
        let mut r: Vec<(String, Option<String>)> = Vec::new();
        r.push((String::from_str("settlement_date"), opt_date_string(&self.settlement_date)));
        r.push((String::from_str("product"), opt_string_clone(&self.product)));
        r.push((String::from_str("account"), opt_string_clone(&self.account)));
        r.push((String::from_str("security_code"), opt_string_clone(&self.security_code)));
        r.push((String::from_str("security_name"), opt_string_clone(&self.security_name)));
        r.push((String::from_str("currency"), opt_string_clone(&self.currency)));
        r.push((String::from_str("unit_price"), opt_string_clone(&self.unit_price)));
        r.push((String::from_str("shares"), opt_i32_string(&self.shares)));
        r.push((String::from_str("dividends_before_tax"), opt_i32_string(
            &self.dividends_before_tax,
        )));
        r.push((String::from_str("taxes"), opt_i32_string(&self.taxes)));
        r.push((String::from_str("net_amount_received"), opt_i32_string(
            &self.net_amount_received,
        )));
        r.push((String::from_str("total_dividends_before_tax"), opt_i128_string(
            &self.total_dividends_before_tax,
        )));
        r.push((String::from_str("total_taxes"), opt_i128_string(&self.total_taxes)));
        r.push((String::from_str("total_net_amount_received"), opt_i128_string(
            &self.total_net_amount_received,
        )));
        proof {
            assert(r.deep_view() =~= spec_dividend_fields(self@));
        }
        r
    }
}

/// Whether every record of every group is valid.
pub open spec fn dividend_records_wf(gs: Seq<(Date, Seq<DividendListV>)>) -> bool {
    forall|gi: int, ri: int|
        0 <= gi < gs.len() && 0 <= ri < gs[gi].1.len() ==> (#[trigger] gs[gi].1[ri]).wf()
}

/// What ingesting one raw row does to the grouped mapping: a row of the
/// expected width whose settlement date is present joins its month's
/// group; every other row is dropped.
pub open spec fn spec_dividend_step(
    gs: Seq<(Date, Seq<DividendListV>)>,
    row: Seq<Seq<char>>,
    w: int,
) -> Seq<(Date, Seq<DividendListV>)> {
    if row.len() == w {
        let rec = spec_dividend_from_row(row);
        match rec.settlement_date {
            Some(d) => spec_insert(gs, d.spec_month_start(), rec),
            None => gs,
        }
    } else {
        gs
    }
}

/// What ingesting a row sequence yields, row by row in order.
pub open spec fn spec_dividend_ingest(
    gs: Seq<(Date, Seq<DividendListV>)>,
    rows: Seq<Seq<Seq<char>>>,
    w: int,
) -> Seq<(Date, Seq<DividendListV>)>
    decreases rows.len(),
{
    if rows.len() == 0 {
        gs
    } else {
        spec_dividend_ingest(spec_dividend_step(gs, rows[0], w), rows.drop_first(), w)
    }
}

/// The dividend report manager: the grouped mapping, keyed by the first
/// day of each settlement month, built fresh per report-processing call.
pub struct DividendListManager {
    groups: Vec<(Date, Vec<DividendList>)>,
}

impl View for DividendListManager {
    type V = Seq<(Date, Seq<DividendListV>)>;

    closed spec fn view(&self) -> Seq<(Date, Seq<DividendListV>)> {
        groups_view(self.groups@)
    }
}

impl DividendListManager {
    /// Well-formedness: keys sorted, unique and valid, groups non-empty,
    /// records valid, and the record count within bound.
    pub open spec fn wf(self) -> bool {
        &&& sorted_groups(self@)
        &&& group_keys_wf(self@)
        &&& groups_nonempty(self@)
        &&& dividend_records_wf(self@)
        &&& groups_count(self@) <= COUNT_BOUND
    }

    /// Builds a manager with an empty grouped mapping.
    pub fn new() -> (r: Self)
        ensures
            r.wf(),
            r@.len() == 0,
    {
        let r = DividendListManager { groups: Vec::new() };
        proof {
            assert(r@ =~= Seq::<(Date, Seq<DividendListV>)>::empty());
        }
        r
    }

    /// Ingests raw rows into the grouped mapping: a row joins its month's
    /// group exactly when its field count equals `expected_width` and its
    /// settlement date is present; every other row is dropped without
    /// error.
    pub fn process_records(&mut self, records: &Vec<Vec<String>>, expected_width: usize)
        requires
            old(self).wf(),
            groups_count(old(self)@) + records@.len() <= COUNT_BOUND,
        ensures
            final(self).wf(),
            final(self)@ == spec_dividend_ingest(
                old(self)@,
                records.deep_view(),
                expected_width as int,
            ),
            groups_count(final(self)@) <= groups_count(old(self)@) + records@.len(),
    {
        let ghost rows = records.deep_view();
        let ghost gs0 = self@;
        let ghost w = expected_width as int;
        let n = records.len();
        let mut i: usize = 0;
        proof {
            assert(rows.skip(0) =~= rows);
        }
        while i < n
            invariant
                rows == records.deep_view(),
                gs0 == old(self)@,
                w == expected_width as int,
                n == rows.len(),
                i <= n,
                sorted_groups(self@),
                group_keys_wf(self@),
                groups_nonempty(self@),
                dividend_records_wf(self@),
                groups_count(self@) <= groups_count(gs0) + i,
                groups_count(gs0) + rows.len() <= COUNT_BOUND,
                spec_dividend_ingest(self@, rows.skip(i as int), w) == spec_dividend_ingest(
                    gs0,
                    rows,
                    w,
                ),
            decreases n - i,
        {
            let ghost pre = self@;
            let ghost rem = rows.skip(i as int);
            proof {
                assert(rem[0] == rows[i as int]);
                assert(rem.drop_first() =~= rows.skip(i + 1));
                assert(records.deep_view()[i as int] == records@[i as int].deep_view());
            }
            let row = &records[i];
            if row.len() == expected_width {
                let rec = DividendList::from_record(row);
                if let Some(d) = rec.settlement_date {
                    let key = d.month_start();
                    proof {
                        lemma_spec_insert_wf(pre, key, rec@);
                    }
                    insert_grouped(&mut self.groups, key, rec);
                    proof {
                        let ins = spec_insert(pre, key, spec_dividend_from_row(rem[0]));
                        assert(self@ == ins);
                        assert forall|gi: int, ri: int|
                            0 <= gi < ins.len() && 0 <= ri < ins[gi].1.len() implies (
                        #[trigger] ins[gi].1[ri]).wf() by {
                            assert(ins[gi].1.contains(ins[gi].1[ri]));
                            assert(crate::grouping::in_groups(ins, ins[gi].1[ri]));
                            let r0 = ins[gi].1[ri];
                            if crate::grouping::in_groups(pre, r0) {
                                let pg = choose|pg: int|
                                    0 <= pg < pre.len() && #[trigger] pre[pg].1.contains(r0);
                                let pk = choose|pk: int|
                                    0 <= pk < pre[pg].1.len() && pre[pg].1[pk] == r0;
                                assert(pre[pg].1[pk].wf());
                            }
                        };
                    }
                }
            }
            i = i + 1;
        }
        proof {
            assert(rows.skip(n as int).len() == 0);
        }
    }
}


/// The three numeric contributions of one record to its group's totals:
/// present only when dividend, tax and net-received are all present.
pub open spec fn spec_dividend_addend(r: DividendListV) -> (int, int, int) {
    if r.dividends_before_tax is Some && r.taxes is Some && r.net_amount_received is Some {
        (
            r.dividends_before_tax->0 as int,
            r.taxes->0 as int,
            r.net_amount_received->0 as int,
        )
    } else {
        (0, 0, 0)
    }
}

/// The sums of dividend, tax and net-received over a group's records.
pub open spec fn spec_dividend_sums(rs: Seq<DividendListV>) -> (int, int, int)
    decreases rs.len(),
{
    if rs.len() == 0 {
        (0int, 0int, 0int)
    } else {
        let p = spec_dividend_sums(rs.drop_last());
        let a = spec_dividend_addend(rs.last());
        (p.0 + a.0, p.1 + a.1, p.2 + a.2)
    }
}

/// The data rows of one group, in encounter order.
pub open spec fn spec_dividend_group_rows(rs: Seq<DividendListV>) -> Seq<char>
    decreases rs.len(),
{
    if rs.len() == 0 {
        Seq::empty()
    } else {
        spec_dividend_group_rows(rs.drop_last()) + spec_table_row(
            Seq::empty(),
            spec_dividend_fields(rs.last()),
        )
    }
}

/// The total row of one group: the group's sums rendered through the same
/// field pipeline as data rows, under the `group-total` row class.
pub open spec fn spec_dividend_total_row(rs: Seq<DividendListV>) -> Seq<char> {
    let s = spec_dividend_sums(rs);
    spec_table_row(
        "group-total"@,
        spec_dividend_fields(spec_dividend_total(s.0 as i128, s.1 as i128, s.2 as i128)),
    )
}

/// All data rows, groups in ascending key order.
pub open spec fn spec_dividend_data_rows(gs: Seq<(Date, Seq<DividendListV>)>) -> Seq<char>
    decreases gs.len(),
{
    if gs.len() == 0 {
        Seq::empty()
    } else {
        spec_dividend_data_rows(gs.drop_last()) + spec_dividend_group_rows(gs.last().1)
    }
}

/// All group-total rows, groups in descending key order (most recent
/// month first).
pub open spec fn spec_dividend_total_rows(gs: Seq<(Date, Seq<DividendListV>)>) -> Seq<char>
    decreases gs.len(),
{
    if gs.len() == 0 {
        Seq::empty()
    } else {
        spec_dividend_total_row(gs.last().1) + spec_dividend_total_rows(gs.drop_last())
    }
}

/// What rendering the dividend report yields: the labelled head, all data
/// rows ascending, then the per-month total rows descending; or nothing
/// when a label is missing.
pub open spec fn spec_render_dividend(
    gs: Seq<(Date, Seq<DividendListV>)>,
    labels: Seq<(Seq<char>, Seq<char>)>,
) -> Option<Seq<char>> {
    match spec_table_header(keys_of(spec_dividend_fields(spec_dividend_empty())), labels) {
        Some(h) => Some(
            h + "<tbody>"@ + spec_dividend_data_rows(gs) + spec_dividend_total_rows(gs)
                + "</tbody></table>"@,
        ),
        None => None,
    }
}

/// Sums dividend, tax and net-received over one group.
fn dividend_group_sums(list: &Vec<DividendList>) -> (r: (i128, i128, i128))
    requires
        list@.len() <= 0xffff_ffff_ffff_ffff,
    ensures
        ({
            let s = spec_dividend_sums(list.deep_view());
            r.0 == s.0 && r.1 == s.1 && r.2 == s.2
        }),
{
    let ghost dv = list.deep_view();
    let n = list.len();
    let mut acc_d: i128 = 0;
    let mut acc_t: i128 = 0;
    let mut acc_n: i128 = 0;
    let mut ri: usize = 0;
    proof {
        assert(dv.take(0) =~= Seq::<DividendListV>::empty());
    }
    while ri < n
        invariant
            dv == list.deep_view(),
            n == dv.len(),
            n <= 0xffff_ffff_ffff_ffff,
            ri <= n,
            acc_d == spec_dividend_sums(dv.take(ri as int)).0,
            acc_t == spec_dividend_sums(dv.take(ri as int)).1,
            acc_n == spec_dividend_sums(dv.take(ri as int)).2,
            -(ri as int) * 2147483648 <= acc_d <= (ri as int) * 2147483648,
            -(ri as int) * 2147483648 <= acc_t <= (ri as int) * 2147483648,
            -(ri as int) * 2147483648 <= acc_n <= (ri as int) * 2147483648,
        decreases n - ri,
    {
        let rec = &list[ri];
        proof {
            assert(dv[ri as int] == rec@);
            assert(dv.take(ri + 1).drop_last() =~= dv.take(ri as int));
            assert(dv.take(ri + 1).last() == dv[ri as int]);
            assert(((ri + 1) as int) * 2147483648 <= 18446744073709551616 * 2147483648)
                by (nonlinear_arith)
                requires
                    0 <= ri as int,
                    (ri + 1) as int <= 18446744073709551616,
            ;
            assert(-(((ri + 1) as int) * 2147483648) >= -(18446744073709551616 * 2147483648))
                by (nonlinear_arith)
                requires
                    0 <= ri as int,
                    (ri + 1) as int <= 18446744073709551616,
            ;
            assert((ri as int) * 2147483648 + 2147483648 == ((ri + 1) as int) * 2147483648)
                by (nonlinear_arith);
        }
        if let (Some(d), Some(t), Some(nr)) = (
            rec.dividends_before_tax,
            rec.taxes,
            rec.net_amount_received,
        ) {
            acc_d = acc_d + d as i128;
            acc_t = acc_t + t as i128;
            acc_n = acc_n + nr as i128;
        } else {
            proof {
                assert(spec_dividend_addend(dv[ri as int]) == (0int, 0int, 0int));
            }
        }
        ri = ri + 1;
    }
    proof {
        assert(dv.take(n as int) =~= dv);
    }
    (acc_d, acc_t, acc_n)
}

/// Renders one group's total row from its sums.
fn dividend_group_total_row(list: &Vec<DividendList>) -> (r: String)
    requires
        list@.len() <= 0xffff_ffff_ffff_ffff,
    ensures
        r@ == spec_dividend_total_row(list.deep_view()),
{
    let sums = dividend_group_sums(list);
    let rec = DividendList::new_total_dividend_list(sums);
    let fields = rec.get_all_fields();
    generate_table_row_with_class("group-total", &fields)
}

/// What a whole dividend request yields, from raw bytes and the label
/// table: decode, parse, ingest from an empty mapping, render.
pub open spec fn spec_execute_dividend(
    bytes: Seq<u8>,
    labels: Seq<(Seq<char>, Seq<char>)>,
) -> Result<Seq<char>, ReportError> {
    match spec_read(bytes) {
        Err(e) => Err(e),
        Ok(t) => {
            let gs = spec_dividend_ingest(Seq::empty(), t.1, t.0);
            match spec_render_dividend(gs, labels) {
                Some(h) => Ok(h),
                None => Err(ReportError::MissingLabelConfiguration),
            }
        },
    }
}

impl DividendListManager {
    /// Renders the accumulated state as the report's HTML table. The
    /// output is a function of the state alone, so rendering twice yields
    /// byte-identical output; the state is not changed. Fails with
    /// `MissingLabelConfiguration` exactly when a field label is absent.
    pub fn generate_html_table(&self, labels: &Vec<(String, String)>) -> (r: Result<
        String,
        ReportError,
    >)
        requires
            self.wf(),
        ensures
            match spec_render_dividend(self@, labels.deep_view()) {
                Some(h) => r matches Ok(s) && s@ == h,
                None => r matches Err(e) && e == ReportError::MissingLabelConfiguration,
            },
    {
        let ghost gv = self@;
        let ghost lv = labels.deep_view();
        let empty_rec = DividendList::new();
        let headers = empty_rec.get_all_fields();
        let mut table = match generate_table_header(&headers, labels) {
            Ok(h) => h,
            Err(e) => {
                return Err(e);
            },
        };
        table.append("<tbody>");
        let ghost base = table@;
        proof {
            assert(base == spec_table_header(
                keys_of(spec_dividend_fields(spec_dividend_empty())),
                lv,
            )->0 + "<tbody>"@);
            assert(gv.take(0) =~= Seq::<(Date, Seq<DividendListV>)>::empty());
            assert(base + spec_dividend_data_rows(gv.take(0)) =~= base);
        }
        let ng = self.groups.len();
        let mut gi: usize = 0;
        while gi < ng
            invariant
                gv == self@,
                lv == labels.deep_view(),
                self.wf(),
                ng == gv.len(),
                gi <= ng,
                table@ == base + spec_dividend_data_rows(gv.take(gi as int)),
            decreases ng - gi,
        {
            let group = &self.groups[gi];
            proof {
                assert(gv[gi as int] == (group.0, group.1.deep_view()));
            }
            let ghost gdv = group.1.deep_view();
            let glen = group.1.len();
            let ghost row_base = table@;
            let mut ri: usize = 0;
            proof {
                assert(gdv.take(0) =~= Seq::<DividendListV>::empty());
                assert(row_base + spec_dividend_group_rows(gdv.take(0)) =~= row_base);
            }
            while ri < glen
                invariant
                    gv == self@,
                    self.wf(),
                    gi < gv.len(),
                    gv[gi as int].1 == gdv,
                    gdv == self.groups@[gi as int].1.deep_view(),
                    glen == gdv.len(),
                    ri <= glen,
                    table@ == row_base + spec_dividend_group_rows(gdv.take(ri as int)),
                decreases glen - ri,
            {
                let group2 = &self.groups[gi];
                let rec = &group2.1[ri];
                proof {
                    assert(gdv[ri as int] == rec@);
                    assert(gv[gi as int].1[ri as int].wf());
                }
                let fields = rec.get_all_fields();
                let rowstr = generate_table_row(&fields);
                table.append(rowstr.as_str());
                proof {
                    assert(gdv.take(ri + 1).drop_last() =~= gdv.take(ri as int));
                    assert(gdv.take(ri + 1).last() == gdv[ri as int]);
                    assert(table@ =~= row_base + spec_dividend_group_rows(gdv.take(ri + 1)));
                }
                ri = ri + 1;
            }
            proof {
                assert(gdv.take(glen as int) =~= gdv);
                assert(gv.take(gi + 1).drop_last() =~= gv.take(gi as int));
                assert(gv.take(gi + 1).last() == gv[gi as int]);
                assert(table@ =~= base + spec_dividend_data_rows(gv.take(gi + 1)));
            }
            gi = gi + 1;
        }
        proof {
            assert(gv.take(ng as int) =~= gv);
        }
        let ghost data_base = table@;
        let ghost mut emitted: Seq<char> = Seq::empty();
        proof {
            assert(data_base + emitted =~= data_base);
            assert(gv.take(ng as int) =~= gv);
        }
        let mut gj: usize = ng;
        while gj > 0
            invariant
                gv == self@,
                self.wf(),
                ng == gv.len(),
                gj <= ng,
                table@ == data_base + emitted,
                spec_dividend_total_rows(gv) == emitted + spec_dividend_total_rows(
                    gv.take(gj as int),
                ),
            decreases gj,
        {
            let group = &self.groups[gj - 1];
            let gl = group.1.len();
            proof {
                assert(gv[gj - 1] == (group.0, group.1.deep_view()));
                assert(group.1@.len() == gl as int);
                assert(gl as int <= usize::MAX as int);
                assert(usize::MAX as int <= 0xffff_ffff_ffff_ffff);
            }
            let trow = dividend_group_total_row(&group.1);
            table.append(trow.as_str());
            proof {
                assert(gv.take(gj as int).drop_last() =~= gv.take(gj - 1));
                assert(gv.take(gj as int).last() == gv[gj - 1]);
                emitted = emitted + trow@;
                assert(table@ =~= data_base + emitted);
                assert(spec_dividend_total_rows(gv) =~= emitted + spec_dividend_total_rows(
                    gv.take(gj - 1),
                ));
            }
            gj = gj - 1;
        }
        proof {
            assert(gv.take(0) =~= Seq::<(Date, Seq<DividendListV>)>::empty());
        }
        table.append("</tbody></table>");
        proof {
            assert(table@ =~= spec_render_dividend(gv, lv)->0);
        }
        Ok(table)
    }

    /// Runs one whole report request: decodes the bytes, parses them,
    /// ingests the rows into this (freshly built) manager, and renders the
    /// table.
    pub fn execute(&mut self, bytes: &[u8], labels: &Vec<(String, String)>) -> (r: Result<
        String,
        ReportError,
    >)
        requires
            old(self).wf(),
            old(self)@.len() == 0,
        ensures
            final(self).wf(),
            match spec_execute_dividend(bytes@, labels.deep_view()) {
                Ok(h) => r matches Ok(s) && s@ == h,
                Err(e) => r matches Err(e2) && e2 == e,
            },
            match spec_read(bytes@) {
                Ok(t) => final(self)@ == spec_dividend_ingest(Seq::empty(), t.1, t.0),
                Err(_) => final(self)@ == old(self)@,
            },
    {
        let parsed = match CSVAccessor::read(bytes) {
            Ok(t) => t,
            Err(e) => {
                return Err(e);
            },
        };
        let nrows = parsed.rows.len();
        proof {
            assert(self@ =~= Seq::<(Date, Seq<DividendListV>)>::empty());
            assert(groups_count(self@) == 0);
            assert(parsed.rows@.len() == nrows as int);
            assert(nrows as int <= usize::MAX as int);
            assert(usize::MAX as int <= 0xffff_ffff_ffff_ffff);
            assert(groups_count(self@) + parsed.rows@.len() <= COUNT_BOUND);
        }
        self.process_records(&parsed.rows, parsed.expected_width);
        self.generate_html_table(labels)
    }
}


/// Whether some row of `rows` with exactly `w` fields and a present
/// settlement date coerces to the record `r`.
pub open spec fn dividend_row_origin(rows: Seq<Seq<Seq<char>>>, w: int, r: DividendListV) -> bool {
    exists|j: int|
        0 <= j < rows.len() && (#[trigger] rows[j]).len() == w && r == spec_dividend_from_row(
            rows[j],
        ) && spec_dividend_from_row(rows[j]).settlement_date is Some
}

/// The row-acceptance policy: every record in every group of the ingested
/// mapping was already there, or comes from a row whose field count
/// equals the expected width and whose settlement date is present. A row
/// of any other width is excluded from every group, with no partial
/// ingestion.
pub proof fn lemma_dividend_width_policy(
    gs0: Seq<(Date, Seq<DividendListV>)>,
    rows: Seq<Seq<Seq<char>>>,
    w: int,
)
    requires
        sorted_groups(gs0),
        group_keys_wf(gs0),
        groups_nonempty(gs0),
    ensures
        sorted_groups(spec_dividend_ingest(gs0, rows, w)),
        group_keys_wf(spec_dividend_ingest(gs0, rows, w)),
        groups_nonempty(spec_dividend_ingest(gs0, rows, w)),
        forall|r: DividendListV|
            #[trigger] crate::grouping::in_groups(spec_dividend_ingest(gs0, rows, w), r) ==> (
            crate::grouping::in_groups(gs0, r) || dividend_row_origin(rows, w, r)),
    decreases rows.len(),
{
    if rows.len() == 0 {
    } else {
        let st = spec_dividend_step(gs0, rows[0], w);
        let rec = spec_dividend_from_row(rows[0]);
        if rows[0].len() == w && rec.settlement_date is Some {
            let key = rec.settlement_date->0.spec_month_start();
            assert(key.wf());
            lemma_spec_insert_wf(gs0, key, rec);
        }
        lemma_dividend_width_policy(st, rows.drop_first(), w);
        assert(spec_dividend_ingest(gs0, rows, w) == spec_dividend_ingest(
            st,
            rows.drop_first(),
            w,
        ));
        assert forall|r: DividendListV|
            #[trigger] crate::grouping::in_groups(spec_dividend_ingest(gs0, rows, w), r) implies (
        crate::grouping::in_groups(gs0, r) || dividend_row_origin(rows, w, r)) by {
            if crate::grouping::in_groups(st, r) {
                if !crate::grouping::in_groups(gs0, r) {
                    assert(rows[0].len() == w && r == rec && rec.settlement_date is Some);
                    assert(dividend_row_origin(rows, w, r));
                }
            } else if dividend_row_origin(rows.drop_first(), w, r) {
                let j = choose|j: int|
                    0 <= j < rows.drop_first().len() && (#[trigger] rows.drop_first()[j]).len()
                        == w && r == spec_dividend_from_row(rows.drop_first()[j])
                        && spec_dividend_from_row(rows.drop_first()[j]).settlement_date is Some;
                assert(rows[j + 1] == rows.drop_first()[j]);
                assert(dividend_row_origin(rows, w, r));
            }
        };
    }
}

/// A group's sums are bounded by its size times the largest record
/// magnitude.
proof fn lemma_dividend_sums_count(rs: Seq<DividendListV>)
    ensures
        -(rs.len() as int) * 2147483648 <= spec_dividend_sums(rs).0 <= (rs.len() as int)
            * 2147483648,
        -(rs.len() as int) * 2147483648 <= spec_dividend_sums(rs).1 <= (rs.len() as int)
            * 2147483648,
        -(rs.len() as int) * 2147483648 <= spec_dividend_sums(rs).2 <= (rs.len() as int)
            * 2147483648,
    decreases rs.len(),
{
    if rs.len() > 0 {
        lemma_dividend_sums_count(rs.drop_last());
    }
}

/// The grouping total invariant: a group's rendered total row is the row
/// rendered, under the `group-total` class and through the same field
/// pipeline as data rows, from the synthetic record whose total fields
/// hold exactly the sums of dividend, tax and net-received over the
/// group's records.
pub proof fn lemma_dividend_group_total(rs: Seq<DividendListV>)
    requires
        rs.len() <= 0xffff_ffff_ffff_ffff,
    ensures
        ({
            let s = spec_dividend_sums(rs);
            let v = spec_dividend_total(s.0 as i128, s.1 as i128, s.2 as i128);
            &&& spec_dividend_total_row(rs) == spec_table_row(
                "group-total"@,
                spec_dividend_fields(v),
            )
            &&& v.total_dividends_before_tax == Some(s.0 as i128)
            &&& v.total_taxes == Some(s.1 as i128)
            &&& v.total_net_amount_received == Some(s.2 as i128)
            &&& s.0 as i128 as int == s.0
            &&& s.1 as i128 as int == s.1
            &&& s.2 as i128 as int == s.2
        }),
{
    lemma_dividend_sums_count(rs);
    assert((rs.len() as int) * 2147483648 <= 18446744073709551615 * 2147483648)
        by (nonlinear_arith)
        requires
            0 <= rs.len() as int,
            rs.len() as int <= 18446744073709551615,
    ;
}

/// Rendering is a function of the accumulated state alone: two renderings
/// of the same state are byte-identical.
pub proof fn lemma_dividend_render_idempotent(
    gs: Seq<(Date, Seq<DividendListV>)>,
    labels: Seq<(Seq<char>, Seq<char>)>,
    r1: Seq<char>,
    r2: Seq<char>,
)
    requires
        spec_render_dividend(gs, labels) == Some(r1),
        spec_render_dividend(gs, labels) == Some(r2),
    ensures
        r1 == r2,
{
}


/// With the shipped label table every dividend field renders: the report
/// head is always available.
pub proof fn lemma_default_labels_render_dividend(gs: Seq<(Date, Seq<DividendListV>)>)
    ensures
        spec_render_dividend(gs, crate::labels::spec_default_labels()) is Some,
{
    let keys = keys_of(spec_dividend_fields(spec_dividend_empty()));
    let lv = crate::labels::spec_default_labels();
    crate::labels::lemma_default_labels_complete();
    assert(keys.len() == 14);
    assert forall|j: int| 0 <= j < keys.len() implies crate::labels::spec_lookup(
        lv,
        #[trigger] keys[j],
    ) is Some by {
        assert(keys[j] == spec_dividend_fields(spec_dividend_empty())[j].0);
        assert(keys[j] == lv[j].0);
        assert(crate::labels::spec_lookup(lv, lv[j].0) is Some);
    };
    crate::render::lemma_header_cells_some(keys, lv);
}

/// With the shipped label table a dividend request never fails for want
/// of a display label: only decoding and tabular structure can fail it.
pub proof fn lemma_default_labels_dividend_never_missing(bytes: Seq<u8>)
    ensures
        spec_execute_dividend(bytes, crate::labels::spec_default_labels()) != Err::<
            Seq<char>,
            _,
        >(ReportError::MissingLabelConfiguration),
{
    match spec_read(bytes) {
        Err(e) => {
            assert(e == ReportError::DecodeError || e == ReportError::MalformedInput);
        },
        Ok(t) => {
            let gs = spec_dividend_ingest(Seq::empty(), t.1, t.0);
            lemma_default_labels_render_dividend(gs);
        },
    }
}

} // verus!
