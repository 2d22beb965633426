//! The table renderer: pure functions from already-aggregated field lists
//! to HTML table markup, with per-field-kind formatting rules.

use crate::error::ReportError;
use crate::labels::spec_lookup;
use crate::labels::lookup_label;
use crate::num::{format_number, spec_format_number};
use crate::text::{push_char, str_eq};
use vstd::prelude::*;
use vstd::string::StringExecFns;

verus! {

/// A stateless handle for the renderer; the rendering functions
/// themselves are pure and free-standing.
pub struct TemplateStruct;

impl TemplateStruct {
    /// Builds the (stateless) renderer handle.
    pub fn new() -> (r: TemplateStruct) {
        TemplateStruct {  }
    }
}

/// What date formatting yields: the internal `-` separator replaced by the
/// display separator `/`.
pub open spec fn spec_format_date(s: Seq<char>) -> Seq<char> {
    s.map_values(|c: char| if c == '-' { '/' } else { c })
}

/// Formats a date field for display.
pub fn format_date(s: &str) -> (r: String)
    ensures
        r@ == spec_format_date(s@),
{
    let n = s.unicode_len();
    let mut out = String::new();
    let mut i: usize = 0;
    while i < n
        invariant
            n == s@.len(),
            i <= n,
            out@ == spec_format_date(s@.take(i as int)),
        decreases n - i,
    {
        let c = s.get_char(i);
        if c == '-' {
            push_char(&mut out, '/');
        } else {
            push_char(&mut out, c);
        }
        proof {
            assert(spec_format_date(s@.take(i + 1))
                =~= spec_format_date(s@.take(i as int)).push(
                if s@[i as int] == '-' { '/' } else { s@[i as int] }));
        }
        i = i + 1;
    }
    proof {
        assert(s@.take(n as int) =~= s@);
    }
    out
}

/// The HTML escape of one character.
pub open spec fn esc_char(c: char) -> Seq<char> {
    if c == '&' {
        "&amp;"@
    } else if c == '<' {
        "&lt;"@
    } else if c == '>' {
        "&gt;"@
    } else if c == '"' {
        "&quot;"@
    } else {
        seq![c]
    }
}

/// The HTML escape of a string: every character escaped, in order.
pub open spec fn spec_escape(s: Seq<char>) -> Seq<char>
    decreases s.len(),
{
    if s.len() == 0 {
        Seq::empty()
    } else {
        spec_escape(s.drop_last()) + esc_char(s.last())
    }
}

/// HTML-escapes a passthrough field value.
pub fn escape_html(s: &str) -> (r: String)
    ensures
        r@ == spec_escape(s@),
{
    let n = s.unicode_len();
    let mut out = String::new();
    let mut i: usize = 0;
    while i < n
        invariant
            n == s@.len(),
            i <= n,
            out@ == spec_escape(s@.take(i as int)),
        decreases n - i,
    {
        let c = s.get_char(i);
        if c == '&' {
            out.append("&amp;");
        } else if c == '<' {
            out.append("&lt;");
        } else if c == '>' {
            out.append("&gt;");
        } else if c == '"' {
            out.append("&quot;");
        } else {
            push_char(&mut out, c);
            proof {
                assert(out@ =~= spec_escape(s@.take(i as int)) + esc_char(s@[i as int]));
            }
        }
        proof {
            assert(s@.take(i + 1).drop_last() =~= s@.take(i as int));
            assert(s@.take(i + 1).last() == s@[i as int]);
        }
        i = i + 1;
    }
    proof {
        assert(s@.take(n as int) =~= s@);
    }
    out
}

/// Whether `key` names a date-kind field.
pub open spec fn is_date_key(key: Seq<char>) -> bool {
    key == "settlement_date"@ || key == "trade_date"@
}

/// Whether `key` names a numeric-kind field (the fixed enumerated list).
pub open spec fn is_numeric_key(key: Seq<char>) -> bool {
    ||| key == "asked_price"@
    ||| key == "dividends_before_tax"@
    ||| key == "net_amount_received"@
    ||| key == "proceeds"@
    ||| key == "profit_and_loss"@
    ||| key == "purchase_price"@
    ||| key == "realized_profit_and_loss"@
    ||| key == "shares"@
    ||| key == "taxes"@
    ||| key == "total_dividends_before_tax"@
    ||| key == "total_net_amount_received"@
    ||| key == "total_realized_profit_and_loss"@
    ||| key == "total_taxes"@
    ||| key == "withholding_tax"@
}

/// Whether `key` names a date-kind field.
pub fn is_date_key_exec(key: &str) -> (r: bool)
    ensures
        r == is_date_key(key@),
{
    str_eq(key, "settlement_date") || str_eq(key, "trade_date")
}

/// Whether `key` names a numeric-kind field.
pub fn is_numeric_key_exec(key: &str) -> (r: bool)
    ensures
        r == is_numeric_key(key@),
{
    str_eq(key, "asked_price") || str_eq(key, "dividends_before_tax")
        || str_eq(key, "net_amount_received") || str_eq(key, "proceeds")
        || str_eq(key, "profit_and_loss") || str_eq(key, "purchase_price")
        || str_eq(key, "realized_profit_and_loss") || str_eq(key, "shares")
        || str_eq(key, "taxes") || str_eq(key, "total_dividends_before_tax")
        || str_eq(key, "total_net_amount_received")
        || str_eq(key, "total_realized_profit_and_loss") || str_eq(key, "total_taxes")
        || str_eq(key, "withholding_tax")
}

/// What per-field-kind formatting yields: dates get the display separator,
/// the enumerated numeric fields get thousands grouping, and everything
/// else passes through HTML-escaped.
pub open spec fn spec_format_value(key: Seq<char>, value: Seq<char>) -> Seq<char> {
    if is_date_key(key) {
        spec_format_date(value)
    } else if is_numeric_key(key) {
        spec_format_number(value)
    } else {
        spec_escape(value)
    }
}

/// Formats one field value by its field kind.
pub fn format_value(key: &str, value: &str) -> (r: String)
    ensures
        r@ == spec_format_value(key@, value@),
{
    if is_date_key_exec(key) {
        format_date(value)
    } else if is_numeric_key_exec(key) {
        format_number(value)
    } else {
        escape_html(value)
    }
}

/// The `class` attribute for a class list, or nothing for an empty one.
pub open spec fn spec_format_class(class: Seq<char>) -> Seq<char> {
    if class.len() == 0 {
        Seq::empty()
    } else {
        "class=\""@ + class + "\""@
    }
}

/// Renders the `class` attribute for a class list.
pub fn format_class(class: &str) -> (r: String)
    ensures
        r@ == spec_format_class(class@),
{
    if class.is_empty() {
        String::new()
    } else {
        let mut out = String::from_str("class=\"");
        out.append(class);
        out.append("\"");
        proof {
            assert(out@ =~= spec_format_class(class@));
        }
        out
    }
}

/// The rendering of one table cell: the formatted value inside a `td`
/// whose class is the field name, with a `negative` marker appended when
/// the formatted value starts with `-`.
pub open spec fn spec_cell(kv: (Seq<char>, Option<Seq<char>>)) -> Seq<char> {
    let raw = match kv.1 {
        Some(v) => v,
        None => Seq::empty(),
    };
    let val = spec_format_value(kv.0, raw);
    let kcls = if val.len() > 0 && val[0] == '-' {
        kv.0 + " negative"@
    } else {
        kv.0
    };
    "<td "@ + spec_format_class(kcls) + ">"@ + val + "</td>"@
}

/// The rendering of a row's cells, in order.
pub open spec fn spec_cells(vals: Seq<(Seq<char>, Option<Seq<char>>)>) -> Seq<char>
    decreases vals.len(),
{
    if vals.len() == 0 {
        Seq::empty()
    } else {
        spec_cells(vals.drop_last()) + spec_cell(vals.last())
    }
}

/// The rendering of one table row with a row-level class list.
pub open spec fn spec_table_row(
    tr_class: Seq<char>,
    vals: Seq<(Seq<char>, Option<Seq<char>>)>,
) -> Seq<char> {
    "<tr "@ + spec_format_class(tr_class) + ">"@ + spec_cells(vals) + "</tr>"@
}

/// Renders one table row, tagging the row with `tr_class` and each cell
/// with its field name (plus `negative` for negative formatted values).
pub fn generate_table_row_with_class(
    tr_class: &str,
    values: &Vec<(String, Option<String>)>,
) -> (r: String)
    ensures
        r@ == spec_table_row(tr_class@, values.deep_view()),
{
    let ghost dv = values.deep_view();
    let mut out = String::from_str("<tr ");
    let fc = format_class(tr_class);
    out.append(fc.as_str());
    out.append(">");
    let ghost head = "<tr "@ + spec_format_class(tr_class@) + ">"@;
    proof {
        assert(out@ =~= head);
        assert(out@ =~= head + spec_cells(dv.take(0)));
    }
    let n = values.len();
    let mut i: usize = 0;
    while i < n
        invariant
            dv == values.deep_view(),
            n == dv.len(),
            i <= n,
            head == "<tr "@ + spec_format_class(tr_class@) + ">"@,
            out@ == head + spec_cells(dv.take(i as int)),
        decreases n - i,
    {
        let p = &values[i];
        proof {
            assert(dv[i as int] == (p.0@, crate::num::opt_str_view(p.1)));
        }
        let raw: &str = match &p.1 {
            Some(s) => s.as_str(),
            None => "",
        };
        proof {
            reveal_strlit("");
            assert(""@ =~= Seq::<char>::empty());
        }
        let val = format_value(p.0.as_str(), raw);
        let vneg = if val.as_str().unicode_len() > 0 {
            val.as_str().get_char(0) == '-'
        } else {
            false
        };
        let cls = if vneg {
            let mut kc = p.0.clone();
            kc.append(" negative");
            kc
        } else {
            p.0.clone()
        };
        let fcell = format_class(cls.as_str());
        out.append("<td ");
        out.append(fcell.as_str());
        out.append(">");
        out.append(val.as_str());
        out.append("</td>");
        proof {
            assert(dv.take(i + 1).drop_last() =~= dv.take(i as int));
            assert(dv.take(i + 1).last() == dv[i as int]);
            assert(out@ =~= head + (spec_cells(dv.take(i as int)) + spec_cell(dv[i as int])));
        }
        i = i + 1;
    }
    out.append("</tr>");
    proof {
        assert(dv.take(n as int) =~= dv);
        assert(out@ =~= spec_table_row(tr_class@, dv));
    }
    out
}

/// Renders one table row with no row-level class.
pub fn generate_table_row(values: &Vec<(String, Option<String>)>) -> (r: String)
    ensures
        r@ == spec_table_row(Seq::<char>::empty(), values.deep_view()),
{
    let r = generate_table_row_with_class("", values);
    proof {
        reveal_strlit("");
        assert(""@ =~= Seq::<char>::empty());
    }
    r
}

/// The rendering of the header cells for a key list, or nothing if some
/// key has no label.
pub open spec fn spec_header_cells(
    keys: Seq<Seq<char>>,
    labels: Seq<(Seq<char>, Seq<char>)>,
) -> Option<Seq<char>>
    decreases keys.len(),
{
    if keys.len() == 0 {
        Some(Seq::empty())
    } else {
        match (spec_header_cells(keys.drop_last(), labels), spec_lookup(labels, keys.last())) {
            (Some(p), Some(l)) => Some(
                p + "<th class=\""@ + keys.last() + "\">"@ + l + "</th>"@,
            ),
            _ => None,
        }
    }
}

/// The rendering of the whole table head for a key list, or nothing if
/// some key has no label.
pub open spec fn spec_table_header(
    keys: Seq<Seq<char>>,
    labels: Seq<(Seq<char>, Seq<char>)>,
) -> Option<Seq<char>> {
    match spec_header_cells(keys, labels) {
        Some(cells) => Some("<table><thead><tr>"@ + cells + "</tr></thead>"@),
        None => None,
    }
}

/// The field names of a field list.
pub open spec fn keys_of(vals: Seq<(Seq<char>, Option<Seq<char>>)>) -> Seq<Seq<char>> {
    vals.map_values(|p: (Seq<char>, Option<Seq<char>>)| p.0)
}

/// A key whose label is missing poisons the whole header.
proof fn lemma_header_cells_none(
    keys: Seq<Seq<char>>,
    labels: Seq<(Seq<char>, Seq<char>)>,
    j: int,
)
    requires
        0 <= j < keys.len(),
        spec_lookup(labels, keys[j]) is None,
    ensures
        spec_header_cells(keys, labels) is None,
    decreases keys.len(),
{
    if j == keys.len() - 1 {
    } else {
        assert(keys.drop_last()[j] == keys[j]);
        lemma_header_cells_none(keys.drop_last(), labels, j);
    }
}

/// When every key has a label, the whole header renders.
pub proof fn lemma_header_cells_some(keys: Seq<Seq<char>>, labels: Seq<(Seq<char>, Seq<char>)>)
    requires
        forall|j: int| 0 <= j < keys.len() ==> spec_lookup(labels, #[trigger] keys[j]) is Some,
    ensures
        spec_header_cells(keys, labels) is Some,
    decreases keys.len(),
{
    if keys.len() > 0 {
        assert(forall|j: int|
            0 <= j < keys.len() - 1 ==> #[trigger] keys.drop_last()[j] == keys[j]);
        lemma_header_cells_some(keys.drop_last(), labels);
        assert(spec_lookup(labels, keys.last()) is Some);
    }
}

/// Renders the table head: one `th` per field, labelled from the label
/// table. Fails with `MissingLabelConfiguration` exactly when some field
/// name has no label.
pub fn generate_table_header(
    headers: &Vec<(String, Option<String>)>,
    labels: &Vec<(String, String)>,
) -> (r: Result<String, ReportError>)
    ensures
        match r {
            Ok(s) => spec_table_header(keys_of(headers.deep_view()), labels.deep_view())
                == Some(s@),
            Err(e) => spec_table_header(keys_of(headers.deep_view()), labels.deep_view()) is None
                && e == ReportError::MissingLabelConfiguration,
        },
{
    let ghost dv = headers.deep_view();
    let ghost keys = keys_of(dv);
    let ghost lv = labels.deep_view();
    let mut cells = String::new();
    let n = headers.len();
    let mut i: usize = 0;
    proof {
        assert(spec_header_cells(keys.take(0), lv) == Some(Seq::<char>::empty()));
    }
    while i < n
        invariant
            dv == headers.deep_view(),
            keys == keys_of(dv),
            lv == labels.deep_view(),
            n == dv.len(),
            n == keys.len(),
            i <= n,
            spec_header_cells(keys.take(i as int), lv) == Some(cells@),
        decreases n - i,
    {
        let p = &headers[i];
        proof {
            assert(dv[i as int] == (p.0@, crate::num::opt_str_view(p.1)));
            assert(keys[i as int] == p.0@);
        }
        let label = match lookup_label(labels, p.0.as_str()) {
            Some(l) => l,
            None => {
                proof {
                    lemma_header_cells_none(keys, lv, i as int);
                }
                return Err(ReportError::MissingLabelConfiguration);
            },
        };
        cells.append("<th class=\"");
        cells.append(p.0.as_str());
        cells.append("\">");
        cells.append(label.as_str());
        cells.append("</th>");
        proof {
            assert(keys.take(i + 1).drop_last() =~= keys.take(i as int));
            assert(keys.take(i + 1).last() == keys[i as int]);
            assert(spec_header_cells(keys.take(i + 1), lv) == Some(cells@)) by {
                assert(cells@ =~= spec_header_cells(keys.take(i as int), lv)->0
                    + "<th class=\""@ + keys[i as int] + "\">"@
                    + spec_lookup(lv, keys[i as int])->0 + "</th>"@);
            }
        }
        i = i + 1;
    }
    proof {
        assert(keys.take(n as int) =~= keys);
    }
    let mut out = String::from_str("<table><thead><tr>");
    out.append(cells.as_str());
    out.append("</tr></thead>");
    proof {
        assert(out@ =~= "<table><thead><tr>"@ + cells@ + "</tr></thead>"@);
    }
    Ok(out)
}

} // verus!
