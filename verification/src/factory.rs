//! The factory: maps a report-kind string to its manager, and the core
//! entry point that runs one whole request.

use crate::dividend_list::{spec_execute_dividend, DividendListManager};
use crate::error::ReportError;
use crate::profit_and_loss::{spec_execute_pl, ProfitAndLossManager};
use crate::text::str_eq;
use vstd::prelude::*;

verus! {

broadcast use vstd::string::group_string_axioms;

/// A report manager of one of the closed set of report kinds.
pub enum TemplateManager {
    /// The dividend report.
    Dividend(DividendListManager),
    /// The realized profit-and-loss report.
    ProfitAndLoss(ProfitAndLossManager),
}

impl TemplateManager {
    /// Well-formedness of the wrapped manager.
    pub open spec fn wf(self) -> bool {
        match self {
            TemplateManager::Dividend(m) => m.wf(),
            TemplateManager::ProfitAndLoss(m) => m.wf(),
        }
    }

    /// Whether the wrapped manager's grouped mapping is empty.
    pub open spec fn is_empty_state(self) -> bool {
        match self {
            TemplateManager::Dividend(m) => m@.len() == 0,
            TemplateManager::ProfitAndLoss(m) => m@.len() == 0,
        }
    }

    /// Runs one whole report request on a freshly built manager: decode,
    /// parse, ingest, render.
    pub fn execute(&mut self, bytes: &[u8], labels: &Vec<(String, String)>) -> (r: Result<
        String,
        ReportError,
    >)
        requires
            old(self).wf(),
            old(self).is_empty_state(),
        ensures
            final(self).wf(),
            match *old(self) {
                TemplateManager::Dividend(_) => match spec_execute_dividend(
                    bytes@,
                    labels.deep_view(),
                ) {
                    Ok(h) => r matches Ok(s) && s@ == h,
                    Err(e) => r matches Err(e2) && e2 == e,
                },
                TemplateManager::ProfitAndLoss(_) => match spec_execute_pl(
                    bytes@,
                    labels.deep_view(),
                ) {
                    Ok(h) => r matches Ok(s) && s@ == h,
                    Err(e) => r matches Err(e2) && e2 == e,
                },
            },
    {
        match self {
            TemplateManager::Dividend(m) => m.execute(bytes, labels),
            TemplateManager::ProfitAndLoss(m) => m.execute(bytes, labels),
        }
    }
}

/// Builds the manager for a report-kind string. Exactly `dividend` and
/// `profit-loss` are recognized; anything else fails with
/// `UnknownReportKind` and never defaults.
pub fn create_factory(id: &str) -> (r: Result<TemplateManager, ReportError>)
    ensures
        id@ == "dividend"@ ==> (r matches Ok(m) && m is Dividend && m.wf() && m.is_empty_state()),
        id@ == "profit-loss"@ ==> (r matches Ok(m) && m is ProfitAndLoss && m.wf()
            && m.is_empty_state()),
        id@ != "dividend"@ && id@ != "profit-loss"@ ==> (r matches Err(e) && e
            == ReportError::UnknownReportKind),
{
    proof {
        reveal_strlit("dividend");
        reveal_strlit("profit-loss");
    }
    if str_eq(id, "dividend") {
        proof {
            assert("dividend"@.len() == 8);
            assert("profit-loss"@.len() == 11);
            assert(id@ != "profit-loss"@);
        }
        let m = DividendListManager::new();
        let r = TemplateManager::Dividend(m);
        proof {
            assert(r.wf());
            assert(r.is_empty_state());
        }
        Ok(r)
    } else if str_eq(id, "profit-loss") {
        let m = ProfitAndLossManager::new();
        let r = TemplateManager::ProfitAndLoss(m);
        proof {
            assert(r.wf());
            assert(r.is_empty_state());
        }
        Ok(r)
    } else {
        Err(ReportError::UnknownReportKind)
    }
}

/// What one whole request yields for a report-kind string, raw bytes and
/// a label table.
pub open spec fn spec_process(
    bytes: Seq<u8>,
    report_kind: Seq<char>,
    labels: Seq<(Seq<char>, Seq<char>)>,
) -> Result<Seq<char>, ReportError> {
    if report_kind == "dividend"@ {
        spec_execute_dividend(bytes, labels)
    } else if report_kind == "profit-loss"@ {
        spec_execute_pl(bytes, labels)
    } else {
        Err(ReportError::UnknownReportKind)
    }
}

/// The core entry point: selects the report kind, then decodes, parses,
/// ingests and renders the uploaded bytes into one HTML table fragment.
pub fn process(bytes: &[u8], report_kind: &str, labels: &Vec<(String, String)>) -> (r: Result<
    String,
    ReportError,
>)
    ensures
        match spec_process(bytes@, report_kind@, labels.deep_view()) {
            Ok(h) => r matches Ok(s) && s@ == h,
            Err(e) => r matches Err(e2) && e2 == e,
        },
{
    let mut manager = match create_factory(report_kind) {
        Ok(m) => m,
        Err(e) => {
            return Err(e);
        },
    };
    manager.execute(bytes, labels)
}

} // verus!
