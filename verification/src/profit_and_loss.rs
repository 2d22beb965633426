//! The realized profit-and-loss report: a record per statement row,
//! grouped by trade date, rendered as data rows (dates ascending) followed
//! by one overall total row that aggregates across all groups. The total
//! splits records into a taxable class (the account label contains the
//! taxable marker) and a tax-advantaged class, withholds tax only on a
//! non-negative taxable total, and nets the rest.
//!
//! Totals are always computed by the engine by summation over the
//! ingested records; externally supplied summary rows are never trusted.
//! A summary row of a shorter width therefore simply fails the width
//! policy and is dropped like any other width-mismatched row.

use crate::common::{
    get_field, opt_date_string, opt_i128_string, opt_i32_string, opt_string_clone, parse_date,
    parse_float, parse_int, parse_string, spec_coerce_date, spec_coerce_decimal, spec_coerce_int,
    spec_coerce_string, spec_field, spec_opt_date_str, spec_opt_i128_str, spec_opt_i32_str,
};
use crate::csv::{spec_read, CSVAccessor};
use crate::date::Date;
use crate::error::ReportError;
use crate::grouping::{
    group_keys_wf, groups_count, groups_nonempty, groups_view, insert_grouped,
    lemma_groups_count_take, lemma_spec_insert_wf, sorted_groups, spec_insert,
};
use crate::num::opt_str_view;
use crate::render::{
    generate_table_header, generate_table_row, generate_table_row_with_class, keys_of,
    spec_table_header, spec_table_row,
};
use crate::text::{spec_contains, str_contains};
use vstd::prelude::*;
use vstd::string::StringExecFns;

verus! {

/// The withholding rate, as the exact fraction
/// `TAX_RATE_NUMER / TAX_RATE_DENOM`.
pub const TAX_RATE_NUMER: i128 = 20315;

/// The denominator of the withholding rate.
pub const TAX_RATE_DENOM: i128 = 100000;

/// The magnitude bound within which totals may be handed to the total-row
/// constructor; every sum of a parsed report stays far inside it.
pub const TOTAL_BOUND: i128 = 1267650600228229401496703205376;

/// The spec-level contents of a profit-and-loss record.
pub struct ProfitAndLossV {
    pub trade_date: Option<Date>,
    pub settlement_date: Option<Date>,
    pub security_code: Option<Seq<char>>,
    pub security_name: Option<Seq<char>>,
    pub account: Option<Seq<char>>,
    pub shares: Option<i32>,
    pub asked_price: Option<Seq<char>>,
    pub proceeds: Option<i32>,
    pub purchase_price: Option<Seq<char>>,
    pub realized_profit_and_loss: Option<i32>,
    pub total_realized_profit_and_loss: Option<i128>,
    pub withholding_tax: Option<i128>,
    pub profit_and_loss: Option<i128>,
}

impl ProfitAndLossV {
    /// Validity: any present date is a real calendar day.
    pub open spec fn wf(self) -> bool {
        &&& (self.trade_date matches Some(d) ==> d.wf())
        &&& (self.settlement_date matches Some(d) ==> d.wf())
    }
}

/// One row of a realized profit-and-loss statement; every field is
/// independently optional.
#[derive(Clone, Debug)]
pub struct ProfitAndLoss {
    pub trade_date: Option<Date>,
    pub settlement_date: Option<Date>,
    pub security_code: Option<String>,
    pub security_name: Option<String>,
    pub account: Option<String>,
    pub shares: Option<i32>,
    pub asked_price: Option<String>,
    pub proceeds: Option<i32>,
    pub purchase_price: Option<String>,
    pub realized_profit_and_loss: Option<i32>,
    pub total_realized_profit_and_loss: Option<i128>,
    pub withholding_tax: Option<i128>,
    pub profit_and_loss: Option<i128>,
}

impl View for ProfitAndLoss {
    type V = ProfitAndLossV;

    open spec fn view(&self) -> ProfitAndLossV {
        ProfitAndLossV {
            trade_date: self.trade_date,
            settlement_date: self.settlement_date,
            security_code: opt_str_view(self.security_code),
            security_name: opt_str_view(self.security_name),
            account: opt_str_view(self.account),
            shares: self.shares,
            asked_price: opt_str_view(self.asked_price),
            proceeds: self.proceeds,
            purchase_price: opt_str_view(self.purchase_price),
            realized_profit_and_loss: self.realized_profit_and_loss,
            total_realized_profit_and_loss: self.total_realized_profit_and_loss,
            withholding_tax: self.withholding_tax,
            profit_and_loss: self.profit_and_loss,
        }
    }
}

impl DeepView for ProfitAndLoss {
    type V = ProfitAndLossV;

    open spec fn deep_view(&self) -> ProfitAndLossV {
        self.view()
    }
}

/// The record with every field absent.
pub open spec fn spec_pl_empty() -> ProfitAndLossV {
    ProfitAndLossV {
        trade_date: None,
        settlement_date: None,
        security_code: None,
        security_name: None,
        account: None,
        shares: None,
        asked_price: None,
        proceeds: None,
        purchase_price: None,
        realized_profit_and_loss: None,
        total_realized_profit_and_loss: None,
        withholding_tax: None,
        profit_and_loss: None,
    }
}

/// The withholding owed on a taxable-class total: nothing on a loss, and
/// the total times the tax rate, rounded half-up to the nearest integer,
/// on a gain.
pub open spec fn spec_withholding(t: int) -> int {
    if t < 0 {
        0
    } else {
        (t * (TAX_RATE_NUMER as int) + (TAX_RATE_DENOM as int) / 2) / (TAX_RATE_DENOM as int)
    }
}

/// The synthetic total record for a taxable-class total `specific` and a
/// tax-advantaged total `nisa`: the overall total, the withholding on the
/// taxable part, and the net after withholding.
pub open spec fn spec_pl_total(specific: int, nisa: int) -> ProfitAndLossV {
    ProfitAndLossV {
        total_realized_profit_and_loss: Some((specific + nisa) as i128),
        withholding_tax: Some(spec_withholding(specific) as i128),
        profit_and_loss: Some((specific + nisa - spec_withholding(specific)) as i128),
        ..spec_pl_empty()
    }
}

/// What coercing a raw row yields: each field from its fixed column.
pub open spec fn spec_pl_from_row(row: Seq<Seq<char>>) -> ProfitAndLossV {
    ProfitAndLossV {
        trade_date: spec_coerce_date(spec_field(row, 0)),
        settlement_date: spec_coerce_date(spec_field(row, 1)),
        security_code: spec_coerce_string(spec_field(row, 2)),
        security_name: spec_coerce_string(spec_field(row, 3)),
        account: spec_coerce_string(spec_field(row, 4)),
        shares: spec_coerce_int(spec_field(row, 7)),
        asked_price: spec_coerce_decimal(spec_field(row, 8)),
        proceeds: spec_coerce_int(spec_field(row, 9)),
        purchase_price: spec_coerce_decimal(spec_field(row, 10)),
        realized_profit_and_loss: spec_coerce_int(spec_field(row, 11)),
        total_realized_profit_and_loss: None,
        withholding_tax: None,
        profit_and_loss: None,
    }
}

/// The named field list of a record, in rendering order.
pub open spec fn spec_pl_fields(v: ProfitAndLossV) -> Seq<(Seq<char>, Option<Seq<char>>)> {
    seq![
        ("trade_date"@, spec_opt_date_str(v.trade_date)),
        ("settlement_date"@, spec_opt_date_str(v.settlement_date)),
        ("security_code"@, v.security_code),
        ("security_name"@, v.security_name),
        ("account"@, v.account),
        ("shares"@, spec_opt_i32_str(v.shares)),
        ("asked_price"@, v.asked_price),
        ("proceeds"@, spec_opt_i32_str(v.proceeds)),
        ("purchase_price"@, v.purchase_price),
        ("realized_profit_and_loss"@, spec_opt_i32_str(v.realized_profit_and_loss)),
        ("total_realized_profit_and_loss"@, spec_opt_i128_str(v.total_realized_profit_and_loss)),
        ("withholding_tax"@, spec_opt_i128_str(v.withholding_tax)),
        ("profit_and_loss"@, spec_opt_i128_str(v.profit_and_loss)),
    ]
}

impl ProfitAndLoss {
    /// Builds the record with every field absent.
    pub fn new() -> (r: Self)
        ensures
            r@ == spec_pl_empty(),
    {
        ProfitAndLoss {
            trade_date: None,
            settlement_date: None,
            security_code: None,
            security_name: None,
            account: None,
            shares: None,
            asked_price: None,
            proceeds: None,
            purchase_price: None,
            realized_profit_and_loss: None,
            total_realized_profit_and_loss: None,
            withholding_tax: None,
            profit_and_loss: None,
        }
    }

    /// Builds the synthetic overall-total record: the taxable-class total
    /// is taxed only when non-negative, with the rate rounded half-up; the
    /// tax-advantaged total always contributes in full.
    pub fn new_total_realized_profit_and_loss(totals: (i128, i128)) -> (r: Self)
        requires
            -TOTAL_BOUND <= totals.0 <= TOTAL_BOUND,
            -TOTAL_BOUND <= totals.1 <= TOTAL_BOUND,
        ensures
            r@ == spec_pl_total(totals.0 as int, totals.1 as int),
    {
        let (specific_account_total, nisa_account_total) = totals;
        let withholding_tax: i128 = if specific_account_total < 0 {
            0
        } else {
            (specific_account_total * TAX_RATE_NUMER + TAX_RATE_DENOM / 2) / TAX_RATE_DENOM
        };
        proof {
            if specific_account_total >= 0 {
                assert(withholding_tax >= 0);
            }
        }
        let total = specific_account_total + nisa_account_total;
        ProfitAndLoss {
            trade_date: None,
            settlement_date: None,
            security_code: None,
            security_name: None,
            account: None,
            shares: None,
            asked_price: None,
            proceeds: None,
            purchase_price: None,
            realized_profit_and_loss: None,
            total_realized_profit_and_loss: Some(total),
            withholding_tax: Some(withholding_tax),
            profit_and_loss: Some(total - withholding_tax),
        }
    }

    /// Coerces a raw row into a record, field by field; a field that fails
    /// to coerce is absent, and never aborts the row.
    pub fn from_record(record: &Vec<String>) -> (r: Self)
        ensures
            r@ == spec_pl_from_row(record.deep_view()),
            r@.wf(),
    {
        ProfitAndLoss {
            trade_date: parse_date(get_field(record, 0)),
            settlement_date: parse_date(get_field(record, 1)),
            security_code: parse_string(get_field(record, 2)),
            security_name: parse_string(get_field(record, 3)),
            account: parse_string(get_field(record, 4)),
            shares: parse_int(get_field(record, 7)),
            asked_price: parse_float(get_field(record, 8)),
            proceeds: parse_int(get_field(record, 9)),
            purchase_price: parse_float(get_field(record, 10)),
            realized_profit_and_loss: parse_int(get_field(record, 11)),
            total_realized_profit_and_loss: None,
            withholding_tax: None,
            profit_and_loss: None,
        }
    }

    /// Enumerates the record's fields as name and optional rendering-ready
    /// text, in rendering order.
    pub fn get_all_fields(&self) -> (r: Vec<(String, Option<String>)>)
        requires
            self@.wf(),
        ensures
            r.deep_view() == spec_pl_fields(self@),
    {
        let mut r: Vec<(String, Option<String>)> = Vec::new();
        r.push((String::from_str("trade_date"), opt_date_string(&self.trade_date)));
        r.push((String::from_str("settlement_date"), opt_date_string(&self.settlement_date)));
        r.push((String::from_str("security_code"), opt_string_clone(&self.security_code)));
        r.push((String::from_str("security_name"), opt_string_clone(&self.security_name)));
        r.push((String::from_str("account"), opt_string_clone(&self.account)));
        r.push((String::from_str("shares"), opt_i32_string(&self.shares)));
        r.push((String::from_str("asked_price"), opt_string_clone(&self.asked_price)));
        r.push((String::from_str("proceeds"), opt_i32_string(&self.proceeds)));
        r.push((String::from_str("purchase_price"), opt_string_clone(&self.purchase_price)));
        r.push((String::from_str("realized_profit_and_loss"), opt_i32_string(
            &self.realized_profit_and_loss,
        )));
        r.push((String::from_str("total_realized_profit_and_loss"), opt_i128_string(
            &self.total_realized_profit_and_loss,
        )));
        r.push((String::from_str("withholding_tax"), opt_i128_string(&self.withholding_tax)));
        r.push((String::from_str("profit_and_loss"), opt_i128_string(&self.profit_and_loss)));
        proof {
            assert(r.deep_view() =~= spec_pl_fields(self@));
        }
        r
    }
}

/// The marker substring whose presence in the account label makes a
/// record taxable-class.
pub open spec fn spec_taxable_marker() -> Seq<char> {
    "特定"@
}

/// Whether every record of every group is valid.
pub open spec fn pl_records_wf(gs: Seq<(Date, Seq<ProfitAndLossV>)>) -> bool {
    forall|gi: int, ri: int|
        0 <= gi < gs.len() && 0 <= ri < gs[gi].1.len() ==> (#[trigger] gs[gi].1[ri]).wf()
}

/// What ingesting one raw row does to the grouped mapping: a row of the
/// expected width whose trade date is present joins that date's group;
/// every other row is dropped.
pub open spec fn spec_pl_step(
    gs: Seq<(Date, Seq<ProfitAndLossV>)>,
    row: Seq<Seq<char>>,
    w: int,
) -> Seq<(Date, Seq<ProfitAndLossV>)> {
    if row.len() == w {
        let rec = spec_pl_from_row(row);
        match rec.trade_date {
            Some(d) => spec_insert(gs, d, rec),
            None => gs,
        }
    } else {
        gs
    }
}

/// What ingesting a row sequence yields, row by row in order.
pub open spec fn spec_pl_ingest(
    gs: Seq<(Date, Seq<ProfitAndLossV>)>,
    rows: Seq<Seq<Seq<char>>>,
    w: int,
) -> Seq<(Date, Seq<ProfitAndLossV>)>
    decreases rows.len(),
{
    if rows.len() == 0 {
        gs
    } else {
        spec_pl_ingest(spec_pl_step(gs, rows[0], w), rows.drop_first(), w)
    }
}

/// The two class contributions of one record: its realized amount goes to
/// the taxable class when the account label holds the taxable marker,
/// else to the tax-advantaged class; records lacking the account or the
/// amount contribute nothing.
pub open spec fn spec_pl_addend(r: ProfitAndLossV) -> (int, int) {
    if r.account is Some && r.realized_profit_and_loss is Some {
        if spec_contains(r.account->0, spec_taxable_marker()) {
            (r.realized_profit_and_loss->0 as int, 0)
        } else {
            (0, r.realized_profit_and_loss->0 as int)
        }
    } else {
        (0, 0)
    }
}

/// The class sums over one group's records.
pub open spec fn spec_pl_group_sums(rs: Seq<ProfitAndLossV>) -> (int, int)
    decreases rs.len(),
{
    if rs.len() == 0 {
        (0int, 0int)
    } else {
        let p = spec_pl_group_sums(rs.drop_last());
        let a = spec_pl_addend(rs.last());
        (p.0 + a.0, p.1 + a.1)
    }
}

/// The class sums over all groups.
pub open spec fn spec_pl_sums(gs: Seq<(Date, Seq<ProfitAndLossV>)>) -> (int, int)
    decreases gs.len(),
{
    if gs.len() == 0 {
        (0int, 0int)
    } else {
        let p = spec_pl_sums(gs.drop_last());
        let g = spec_pl_group_sums(gs.last().1);
        (p.0 + g.0, p.1 + g.1)
    }
}

/// The data rows of one group, in encounter order.
pub open spec fn spec_pl_group_rows(rs: Seq<ProfitAndLossV>) -> Seq<char>
    decreases rs.len(),
{
    if rs.len() == 0 {
        Seq::empty()
    } else {
        spec_pl_group_rows(rs.drop_last()) + spec_table_row(
            Seq::empty(),
            spec_pl_fields(rs.last()),
        )
    }
}

/// All data rows, groups in ascending key order.
pub open spec fn spec_pl_data_rows(gs: Seq<(Date, Seq<ProfitAndLossV>)>) -> Seq<char>
    decreases gs.len(),
{
    if gs.len() == 0 {
        Seq::empty()
    } else {
        spec_pl_data_rows(gs.drop_last()) + spec_pl_group_rows(gs.last().1)
    }
}

/// The single trailing overall-total row.
pub open spec fn spec_pl_total_row(gs: Seq<(Date, Seq<ProfitAndLossV>)>) -> Seq<char> {
    let s = spec_pl_sums(gs);
    spec_table_row("group-total"@, spec_pl_fields(spec_pl_total(s.0, s.1)))
}

/// What rendering the profit-and-loss report yields: the labelled head,
/// all data rows ascending, then one overall total row; or nothing when a
/// label is missing.
pub open spec fn spec_render_pl(
    gs: Seq<(Date, Seq<ProfitAndLossV>)>,
    labels: Seq<(Seq<char>, Seq<char>)>,
) -> Option<Seq<char>> {
    match spec_table_header(keys_of(spec_pl_fields(spec_pl_empty())), labels) {
        Some(h) => Some(
            h + "<tbody>"@ + spec_pl_data_rows(gs) + spec_pl_total_row(gs) + "</tbody></table>"@,
        ),
        None => None,
    }
}

/// What a whole profit-and-loss request yields, from raw bytes and the
/// label table: decode, parse, ingest from an empty mapping, render.
pub open spec fn spec_execute_pl(
    bytes: Seq<u8>,
    labels: Seq<(Seq<char>, Seq<char>)>,
) -> Result<Seq<char>, ReportError> {
    match spec_read(bytes) {
        Err(e) => Err(e),
        Ok(t) => {
            let gs = spec_pl_ingest(Seq::empty(), t.1, t.0);
            match spec_render_pl(gs, labels) {
                Some(h) => Ok(h),
                None => Err(ReportError::MissingLabelConfiguration),
            }
        },
    }
}

/// The profit-and-loss report manager: the grouped mapping, keyed by
/// trade date, built fresh per report-processing call.
pub struct ProfitAndLossManager {
    groups: Vec<(Date, Vec<ProfitAndLoss>)>,
}

impl View for ProfitAndLossManager {
    type V = Seq<(Date, Seq<ProfitAndLossV>)>;

    closed spec fn view(&self) -> Seq<(Date, Seq<ProfitAndLossV>)> {
        groups_view(self.groups@)
    }
}

impl ProfitAndLossManager {
    /// Well-formedness: keys sorted, unique and valid, groups non-empty,
    /// records valid, and the record count within bound.
    pub open spec fn wf(self) -> bool {
        &&& sorted_groups(self@)
        &&& group_keys_wf(self@)
        &&& groups_nonempty(self@)
        &&& pl_records_wf(self@)
        &&& groups_count(self@) <= crate::dividend_list::COUNT_BOUND
    }

    /// Builds a manager with an empty grouped mapping.
    pub fn new() -> (r: Self)
        ensures
            r.wf(),
            r@.len() == 0,
    {
        let r = ProfitAndLossManager { groups: Vec::new() };
        proof {
            assert(r@ =~= Seq::<(Date, Seq<ProfitAndLossV>)>::empty());
        }
        r
    }

    /// Ingests raw rows into the grouped mapping: a row joins its trade
    /// date's group exactly when its field count equals `expected_width`
    /// and its trade date is present; every other row is dropped without
    /// error.
    pub fn process_records(&mut self, records: &Vec<Vec<String>>, expected_width: usize)
        requires
            old(self).wf(),
            groups_count(old(self)@) + records@.len() <= crate::dividend_list::COUNT_BOUND,
        ensures
            final(self).wf(),
            final(self)@ == spec_pl_ingest(old(self)@, records.deep_view(), expected_width as int),
            groups_count(final(self)@) <= groups_count(old(self)@) + records@.len(),
    {
        let ghost rows = records.deep_view();
        let ghost gs0 = self@;
        let ghost w = expected_width as int;
        let n = records.len();
        let mut i: usize = 0;
        proof {
            assert(rows.skip(0) =~= rows);
        }
        while i < n
            invariant
                rows == records.deep_view(),
                gs0 == old(self)@,
                w == expected_width as int,
                n == rows.len(),
                i <= n,
                sorted_groups(self@),
                group_keys_wf(self@),
                groups_nonempty(self@),
                pl_records_wf(self@),
                groups_count(self@) <= groups_count(gs0) + i,
                groups_count(gs0) + rows.len() <= crate::dividend_list::COUNT_BOUND,
                spec_pl_ingest(self@, rows.skip(i as int), w) == spec_pl_ingest(gs0, rows, w),
            decreases n - i,
        {
            let ghost pre = self@;
            let ghost rem = rows.skip(i as int);
            proof {
                assert(rem[0] == rows[i as int]);
                assert(rem.drop_first() =~= rows.skip(i + 1));
                assert(records.deep_view()[i as int] == records@[i as int].deep_view());
            }
            let row = &records[i];
            if row.len() == expected_width {
                let rec = ProfitAndLoss::from_record(row);
                if let Some(d) = rec.trade_date {
                    proof {
                        lemma_spec_insert_wf(pre, d, rec@);
                    }
                    insert_grouped(&mut self.groups, d, rec);
                    proof {
                        let ins = spec_insert(pre, d, spec_pl_from_row(rem[0]));
                        assert(self@ == ins);
                        assert forall|gi: int, ri: int|
                            0 <= gi < ins.len() && 0 <= ri < ins[gi].1.len() implies (
                        #[trigger] ins[gi].1[ri]).wf() by {
                            assert(ins[gi].1.contains(ins[gi].1[ri]));
                            assert(crate::grouping::in_groups(ins, ins[gi].1[ri]));
                            let r0 = ins[gi].1[ri];
                            if crate::grouping::in_groups(pre, r0) {
                                let pg = choose|pg: int|
                                    0 <= pg < pre.len() && #[trigger] pre[pg].1.contains(r0);
                                let pk = choose|pk: int|
                                    0 <= pk < pre[pg].1.len() && pre[pg].1[pk] == r0;
                                assert(pre[pg].1[pk].wf());
                            }
                        };
                    }
                }
            }
            i = i + 1;
        }
        proof {
            assert(rows.skip(n as int).len() == 0);
        }
    }
}


impl ProfitAndLossManager {
    /// Sums the taxable and tax-advantaged classes over every record of
    /// every group.
    fn class_sums(&self) -> (r: (i128, i128))
        requires
            self.wf(),
        ensures
            ({
                let s = spec_pl_sums(self@);
                r.0 == s.0 && r.1 == s.1
            }),
    {
        let ghost gv = self@;
        let ng = self.groups.len();
        let mut acc_s: i128 = 0;
        let mut acc_n: i128 = 0;
        let mut gi: usize = 0;
        proof {
            assert(gv.take(0) =~= Seq::<(Date, Seq<ProfitAndLossV>)>::empty());
            assert(groups_count(Seq::<(Date, Seq<ProfitAndLossV>)>::empty()) == 0);
            crate::grouping::lemma_groups_count_nonneg(gv);
        }
        while gi < ng
            invariant
                gv == self@,
                self.wf(),
                ng == gv.len(),
                gi <= ng,
                acc_s == spec_pl_sums(gv.take(gi as int)).0,
                acc_n == spec_pl_sums(gv.take(gi as int)).1,
                -groups_count(gv.take(gi as int)) * 2147483648 <= acc_s <= groups_count(
                    gv.take(gi as int),
                ) * 2147483648,
                -groups_count(gv.take(gi as int)) * 2147483648 <= acc_n <= groups_count(
                    gv.take(gi as int),
                ) * 2147483648,
                0 <= groups_count(gv.take(gi as int)) <= groups_count(gv),
            decreases ng - gi,
        {
            let group = &self.groups[gi];
            proof {
                assert(gv[gi as int] == (group.0, group.1.deep_view()));
                lemma_groups_count_take(gv, gi as int);
            }
            let ghost gdv = group.1.deep_view();
            let ghost base_count = groups_count(gv.take(gi as int));
            let ghost base_s = acc_s as int;
            let ghost base_n = acc_n as int;
            let glen = group.1.len();
            let mut ri: usize = 0;
            proof {
                assert(gdv.take(0) =~= Seq::<ProfitAndLossV>::empty());
            }
            while ri < glen
                invariant
                    gv == self@,
                    self.wf(),
                    gi < gv.len(),
                    gv[gi as int].1 == gdv,
                    gdv == self.groups@[gi as int].1.deep_view(),
                    glen == gdv.len(),
                    ri <= glen,
                    base_count == groups_count(gv.take(gi as int)),
                    0 <= base_count,
                    base_count + gdv.len() <= groups_count(gv),
                    groups_count(gv) <= crate::dividend_list::COUNT_BOUND,
                    base_s == spec_pl_sums(gv.take(gi as int)).0,
                    base_n == spec_pl_sums(gv.take(gi as int)).1,
                    -base_count * 2147483648 <= base_s <= base_count * 2147483648,
                    -base_count * 2147483648 <= base_n <= base_count * 2147483648,
                    acc_s == base_s + spec_pl_group_sums(gdv.take(ri as int)).0,
                    acc_n == base_n + spec_pl_group_sums(gdv.take(ri as int)).1,
                    -(base_count + ri) * 2147483648 <= acc_s <= (base_count + ri) * 2147483648,
                    -(base_count + ri) * 2147483648 <= acc_n <= (base_count + ri) * 2147483648,
                decreases glen - ri,
            {
                let group2 = &self.groups[gi];
                let rec = &group2.1[ri];
                proof {
                    assert(gdv[ri as int] == rec@);
                    assert(gdv.take(ri + 1).drop_last() =~= gdv.take(ri as int));
                    assert(gdv.take(ri + 1).last() == gdv[ri as int]);
                    assert(base_count + ri + 1 <= groups_count(gv));
                    assert((base_count + ri + 1) * 2147483648 <= 18446744073709551616
                        * 2147483648) by (nonlinear_arith)
                        requires
                            0 <= base_count + ri + 1,
                            base_count + ri + 1 <= 18446744073709551616,
                    ;
                    assert((base_count + ri) * 2147483648 + 2147483648 == (base_count + ri + 1)
                        * 2147483648) by (nonlinear_arith);
                }
                match (&rec.account, rec.realized_profit_and_loss) {
                    (Some(acct), Some(rpl)) => {
                        if str_contains(acct.as_str(), "特定") {
                            acc_s = acc_s + rpl as i128;
                        } else {
                            acc_n = acc_n + rpl as i128;
                        }
                    },
                    _ => {
                        proof {
                            assert(spec_pl_addend(gdv[ri as int]) == (0int, 0int));
                        }
                    },
                }
                ri = ri + 1;
            }
            proof {
                assert(gdv.take(glen as int) =~= gdv);
                assert(gv.take(gi + 1).drop_last() =~= gv.take(gi as int));
                assert(gv.take(gi + 1).last() == gv[gi as int]);
            }
            gi = gi + 1;
        }
        proof {
            assert(gv.take(ng as int) =~= gv);
        }
        (acc_s, acc_n)
    }

    /// Renders the accumulated state as the report's HTML table. The
    /// output is a function of the state alone, so rendering twice yields
    /// byte-identical output; the state is not changed. Fails with
    /// `MissingLabelConfiguration` exactly when a field label is absent.
    pub fn generate_html_table(&self, labels: &Vec<(String, String)>) -> (r: Result<
        String,
        ReportError,
    >)
        requires
            self.wf(),
        ensures
            match spec_render_pl(self@, labels.deep_view()) {
                Some(h) => r matches Ok(s) && s@ == h,
                None => r matches Err(e) && e == ReportError::MissingLabelConfiguration,
            },
    {
        let ghost gv = self@;
        let ghost lv = labels.deep_view();
        let empty_rec = ProfitAndLoss::new();
        let headers = empty_rec.get_all_fields();
        let mut table = match generate_table_header(&headers, labels) {
            Ok(h) => h,
            Err(e) => {
                return Err(e);
            },
        };
        table.append("<tbody>");
        let ghost base = table@;
        proof {
            assert(base == spec_table_header(keys_of(spec_pl_fields(spec_pl_empty())), lv)->0
                + "<tbody>"@);
            assert(gv.take(0) =~= Seq::<(Date, Seq<ProfitAndLossV>)>::empty());
            assert(base + spec_pl_data_rows(gv.take(0)) =~= base);
        }
        let ng = self.groups.len();
        let mut gi: usize = 0;
        while gi < ng
            invariant
                gv == self@,
                lv == labels.deep_view(),
                self.wf(),
                ng == gv.len(),
                gi <= ng,
                table@ == base + spec_pl_data_rows(gv.take(gi as int)),
            decreases ng - gi,
        {
            let group = &self.groups[gi];
            proof {
                assert(gv[gi as int] == (group.0, group.1.deep_view()));
            }
            let ghost gdv = group.1.deep_view();
            let glen = group.1.len();
            let ghost row_base = table@;
            let mut ri: usize = 0;
            proof {
                assert(gdv.take(0) =~= Seq::<ProfitAndLossV>::empty());
                assert(row_base + spec_pl_group_rows(gdv.take(0)) =~= row_base);
            }
            while ri < glen
                invariant
                    gv == self@,
                    self.wf(),
                    gi < gv.len(),
                    gv[gi as int].1 == gdv,
                    gdv == self.groups@[gi as int].1.deep_view(),
                    glen == gdv.len(),
                    ri <= glen,
                    table@ == row_base + spec_pl_group_rows(gdv.take(ri as int)),
                decreases glen - ri,
            {
                let group2 = &self.groups[gi];
                let rec = &group2.1[ri];
                proof {
                    assert(gdv[ri as int] == rec@);
                    assert(gv[gi as int].1[ri as int].wf());
                }
                let fields = rec.get_all_fields();
                let rowstr = generate_table_row(&fields);
                table.append(rowstr.as_str());
                proof {
                    assert(gdv.take(ri + 1).drop_last() =~= gdv.take(ri as int));
                    assert(gdv.take(ri + 1).last() == gdv[ri as int]);
                    assert(table@ =~= row_base + spec_pl_group_rows(gdv.take(ri + 1)));
                }
                ri = ri + 1;
            }
            proof {
                assert(gdv.take(glen as int) =~= gdv);
                assert(gv.take(gi + 1).drop_last() =~= gv.take(gi as int));
                assert(gv.take(gi + 1).last() == gv[gi as int]);
                assert(table@ =~= base + spec_pl_data_rows(gv.take(gi + 1)));
            }
            gi = gi + 1;
        }
        proof {
            assert(gv.take(ng as int) =~= gv);
        }
        let sums = self.class_sums();
        proof {
            crate::grouping::lemma_groups_count_nonneg(gv);
            lemma_pl_sums_bound(gv);
        }
        let total_rec = ProfitAndLoss::new_total_realized_profit_and_loss(sums);
        let total_fields = total_rec.get_all_fields();
        let total_row = generate_table_row_with_class("group-total", &total_fields);
        table.append(total_row.as_str());
        table.append("</tbody></table>");
        proof {
            assert(table@ =~= spec_render_pl(gv, lv)->0);
        }
        Ok(table)
    }

    /// Runs one whole report request: decodes the bytes, parses them,
    /// ingests the rows into this (freshly built) manager, and renders the
    /// table.
    pub fn execute(&mut self, bytes: &[u8], labels: &Vec<(String, String)>) -> (r: Result<
        String,
        ReportError,
    >)
        requires
            old(self).wf(),
            old(self)@.len() == 0,
        ensures
            final(self).wf(),
            match spec_execute_pl(bytes@, labels.deep_view()) {
                Ok(h) => r matches Ok(s) && s@ == h,
                Err(e) => r matches Err(e2) && e2 == e,
            },
            match spec_read(bytes@) {
                Ok(t) => final(self)@ == spec_pl_ingest(Seq::empty(), t.1, t.0),
                Err(_) => final(self)@ == old(self)@,
            },
    {
        let parsed = match CSVAccessor::read(bytes) {
            Ok(t) => t,
            Err(e) => {
                return Err(e);
            },
        };
        let nrows = parsed.rows.len();
        proof {
            assert(self@ =~= Seq::<(Date, Seq<ProfitAndLossV>)>::empty());
            assert(groups_count(self@) == 0);
            assert(parsed.rows@.len() == nrows as int);
            assert(nrows as int <= usize::MAX as int);
            assert(usize::MAX as int <= 0xffff_ffff_ffff_ffff);
        }
        self.process_records(&parsed.rows, parsed.expected_width);
        self.generate_html_table(labels)
    }
}

/// The class sums of a bounded mapping stay far inside `TOTAL_BOUND`.
proof fn lemma_pl_sums_bound(gs: Seq<(Date, Seq<ProfitAndLossV>)>)
    requires
        groups_count(gs) <= crate::dividend_list::COUNT_BOUND,
    ensures
        -TOTAL_BOUND <= spec_pl_sums(gs).0 <= TOTAL_BOUND,
        -TOTAL_BOUND <= spec_pl_sums(gs).1 <= TOTAL_BOUND,
{
    lemma_pl_sums_count(gs);
    crate::grouping::lemma_groups_count_nonneg(gs);
    assert(groups_count(gs) * 2147483648 <= 18446744073709551616 * 2147483648)
        by (nonlinear_arith)
        requires
            0 <= groups_count(gs),
            groups_count(gs) <= 18446744073709551616,
    ;
}

/// The class sums are bounded by the record count times the largest
/// record magnitude.
proof fn lemma_pl_sums_count(gs: Seq<(Date, Seq<ProfitAndLossV>)>)
    ensures
        -groups_count(gs) * 2147483648 <= spec_pl_sums(gs).0 <= groups_count(gs) * 2147483648,
        -groups_count(gs) * 2147483648 <= spec_pl_sums(gs).1 <= groups_count(gs) * 2147483648,
    decreases gs.len(),
{
    if gs.len() == 0 {
    } else {
        lemma_pl_sums_count(gs.drop_last());
        lemma_pl_group_sums_count(gs.last().1);
        crate::grouping::lemma_groups_count_take(gs, gs.len() - 1);
        assert(gs.take(gs.len() as int) =~= gs);
        assert(gs.take(gs.len() - 1) =~= gs.drop_last());
    }
}

/// One group's class sums are bounded by its size times the largest
/// record magnitude.
proof fn lemma_pl_group_sums_count(rs: Seq<ProfitAndLossV>)
    ensures
        -(rs.len() as int) * 2147483648 <= spec_pl_group_sums(rs).0 <= (rs.len() as int)
            * 2147483648,
        -(rs.len() as int) * 2147483648 <= spec_pl_group_sums(rs).1 <= (rs.len() as int)
            * 2147483648,
    decreases rs.len(),
{
    if rs.len() > 0 {
        lemma_pl_group_sums_count(rs.drop_last());
    }
}


/// The tax invariant: for a non-negative taxable-class total the
/// withholding is the total times the rate, rounded half-up to the
/// nearest integer (its scaled value lies within half a denominator of
/// the exact product); for a negative total it is exactly zero.
pub proof fn lemma_withholding_rounds(t: int)
    ensures
        t < 0 ==> spec_withholding(t) == 0,
        t >= 0 ==> spec_withholding(t) >= 0,
        t >= 0 ==> t * (TAX_RATE_NUMER as int) - (TAX_RATE_DENOM as int) / 2 <= spec_withholding(
            t,
        ) * (TAX_RATE_DENOM as int) <= t * (TAX_RATE_NUMER as int) + (TAX_RATE_DENOM as int) / 2,
{
    if t >= 0 {
        let x = t * (TAX_RATE_NUMER as int) + 50000;
        assert(t * 20315 >= 0) by (nonlinear_arith)
            requires
                t >= 0,
        ;
        assert(x >= 50000);
        vstd::arithmetic::div_mod::lemma_fundamental_div_mod(x, 100000);
        vstd::arithmetic::div_mod::lemma_mod_division_less_than_divisor(x, 100000);
        vstd::arithmetic::div_mod::lemma_div_pos_is_pos(x, 100000);
        assert(spec_withholding(t) == x / 100000);
        assert(100000 * (x / 100000) == x - x % 100000);
    }
}

/// Whether some row of `rows` with exactly `w` fields and a present trade
/// date coerces to the record `r`.
pub open spec fn pl_row_origin(rows: Seq<Seq<Seq<char>>>, w: int, r: ProfitAndLossV) -> bool {
    exists|j: int|
        0 <= j < rows.len() && (#[trigger] rows[j]).len() == w && r == spec_pl_from_row(rows[j])
            && spec_pl_from_row(rows[j]).trade_date is Some
}

/// The row-acceptance policy: every record in every group of the ingested
/// mapping was already there, or comes from a row whose field count
/// equals the expected width and whose trade date is present. A row of
/// any other width is excluded from every group, with no partial
/// ingestion.
pub proof fn lemma_pl_width_policy(
    gs0: Seq<(Date, Seq<ProfitAndLossV>)>,
    rows: Seq<Seq<Seq<char>>>,
    w: int,
)
    requires
        sorted_groups(gs0),
        group_keys_wf(gs0),
        groups_nonempty(gs0),
    ensures
        sorted_groups(spec_pl_ingest(gs0, rows, w)),
        group_keys_wf(spec_pl_ingest(gs0, rows, w)),
        groups_nonempty(spec_pl_ingest(gs0, rows, w)),
        forall|r: ProfitAndLossV|
            #[trigger] crate::grouping::in_groups(spec_pl_ingest(gs0, rows, w), r) ==> (
            crate::grouping::in_groups(gs0, r) || pl_row_origin(rows, w, r)),
    decreases rows.len(),
{
    if rows.len() == 0 {
    } else {
        let st = spec_pl_step(gs0, rows[0], w);
        let rec = spec_pl_from_row(rows[0]);
        if rows[0].len() == w && rec.trade_date is Some {
            let key = rec.trade_date->0;
            assert(key.wf());
            lemma_spec_insert_wf(gs0, key, rec);
        }
        lemma_pl_width_policy(st, rows.drop_first(), w);
        assert(spec_pl_ingest(gs0, rows, w) == spec_pl_ingest(st, rows.drop_first(), w));
        assert forall|r: ProfitAndLossV|
            #[trigger] crate::grouping::in_groups(spec_pl_ingest(gs0, rows, w), r) implies (
        crate::grouping::in_groups(gs0, r) || pl_row_origin(rows, w, r)) by {
            if crate::grouping::in_groups(st, r) {
                if !crate::grouping::in_groups(gs0, r) {
                    assert(rows[0].len() == w && r == rec && rec.trade_date is Some);
                    assert(pl_row_origin(rows, w, r));
                }
            } else if pl_row_origin(rows.drop_first(), w, r) {
                let j = choose|j: int|
                    0 <= j < rows.drop_first().len() && (#[trigger] rows.drop_first()[j]).len()
                        == w && r == spec_pl_from_row(rows.drop_first()[j]) && spec_pl_from_row(
                        rows.drop_first()[j],
                    ).trade_date is Some;
                assert(rows[j + 1] == rows.drop_first()[j]);
                assert(pl_row_origin(rows, w, r));
            }
        };
    }
}

/// Rendering is a function of the accumulated state alone: two renderings
/// of the same state are byte-identical.
pub proof fn lemma_pl_render_idempotent(
    gs: Seq<(Date, Seq<ProfitAndLossV>)>,
    labels: Seq<(Seq<char>, Seq<char>)>,
    r1: Seq<char>,
    r2: Seq<char>,
)
    requires
        spec_render_pl(gs, labels) == Some(r1),
        spec_render_pl(gs, labels) == Some(r2),
    ensures
        r1 == r2,
{
}


/// With the shipped label table every profit-and-loss field renders: the
/// report head is always available.
pub proof fn lemma_default_labels_render_pl(gs: Seq<(Date, Seq<ProfitAndLossV>)>)
    ensures
        spec_render_pl(gs, crate::labels::spec_default_labels()) is Some,
{
    let keys = keys_of(spec_pl_fields(spec_pl_empty()));
    let lv = crate::labels::spec_default_labels();
    crate::labels::lemma_default_labels_complete();
    assert(keys.len() == 13);
    assert forall|j: int| 0 <= j < keys.len() implies crate::labels::spec_lookup(
        lv,
        #[trigger] keys[j],
    ) is Some by {
        assert(keys[j] == spec_pl_fields(spec_pl_empty())[j].0);
        if j == 0 {
            assert(keys[0] == lv[14].0);
            assert(crate::labels::spec_lookup(lv, lv[14].0) is Some);
        } else if j == 1 {
            assert(keys[1] == lv[0].0);
            assert(crate::labels::spec_lookup(lv, lv[0].0) is Some);
        } else if j == 2 {
            assert(keys[2] == lv[3].0);
            assert(crate::labels::spec_lookup(lv, lv[3].0) is Some);
        } else if j == 3 {
            assert(keys[3] == lv[4].0);
            assert(crate::labels::spec_lookup(lv, lv[4].0) is Some);
        } else if j == 4 {
            assert(keys[4] == lv[2].0);
            assert(crate::labels::spec_lookup(lv, lv[2].0) is Some);
        } else if j == 5 {
            assert(keys[5] == lv[7].0);
            assert(crate::labels::spec_lookup(lv, lv[7].0) is Some);
        } else if j == 6 {
            assert(keys[6] == lv[15].0);
            assert(crate::labels::spec_lookup(lv, lv[15].0) is Some);
        } else if j == 7 {
            assert(keys[7] == lv[16].0);
            assert(crate::labels::spec_lookup(lv, lv[16].0) is Some);
        } else if j == 8 {
            assert(keys[8] == lv[17].0);
            assert(crate::labels::spec_lookup(lv, lv[17].0) is Some);
        } else if j == 9 {
            assert(keys[9] == lv[18].0);
            assert(crate::labels::spec_lookup(lv, lv[18].0) is Some);
        } else if j == 10 {
            assert(keys[10] == lv[19].0);
            assert(crate::labels::spec_lookup(lv, lv[19].0) is Some);
        } else if j == 11 {
            assert(keys[11] == lv[20].0);
            assert(crate::labels::spec_lookup(lv, lv[20].0) is Some);
        } else {
            assert(keys[12] == lv[21].0);
            assert(crate::labels::spec_lookup(lv, lv[21].0) is Some);
        }
    };
    crate::render::lemma_header_cells_some(keys, lv);
}

/// With the shipped label table a profit-and-loss request never fails for
/// want of a display label: only decoding and tabular structure can fail
/// it.
pub proof fn lemma_default_labels_pl_never_missing(bytes: Seq<u8>)
    ensures
        spec_execute_pl(bytes, crate::labels::spec_default_labels()) != Err::<
            Seq<char>,
            _,
        >(ReportError::MissingLabelConfiguration),
{
    match spec_read(bytes) {
        Err(e) => {
            assert(e == ReportError::DecodeError || e == ReportError::MalformedInput);
        },
        Ok(t) => {
            let gs = spec_pl_ingest(Seq::empty(), t.1, t.0);
            lemma_default_labels_render_pl(gs);
        },
    }
}

} // verus!
