//! The tabular parser: comma-separated rows with double-quoted fields.
//!
//! The grammar is strict where structure is at stake and is the one hard
//! stop of the pipeline: an unbalanced or misplaced quote fails the whole
//! parse with [`ReportError::MalformedInput`]. Row separators are `\n` and
//! `\r\n` (normalized before parsing); a quote may open only at the start
//! of a field; inside a quoted field `""` stands for one literal quote.

use crate::decode::{decode, spec_decode};
use crate::error::ReportError;
use crate::text::chars_to_string;
use crate::text::to_chars;
use vstd::prelude::*;

verus! {

/// The parser state between two characters.
#[derive(Clone, Copy, Debug, PartialEq, Eq, Structural)]
pub enum CsvMode {
    /// At the start of a field or inside an unquoted field.
    Normal,
    /// Inside a quoted field.
    InQuotes,
    /// Just after the closing quote of a quoted field.
    AfterQuotes,
}

/// `s` with every `\r\n` pair replaced by a single `\n`.
pub open spec fn normalize_newlines(s: Seq<char>) -> Seq<char>
    decreases s.len(),
{
    if s.len() == 0 {
        Seq::empty()
    } else if s.len() >= 2 && s[0] == '\r' && s[1] == '\n' {
        seq!['\n'] + normalize_newlines(s.skip(2))
    } else {
        seq![s[0]] + normalize_newlines(s.skip(1))
    }
}

/// One run of the field-splitting machine over the remaining input `s`,
/// starting from an accumulated partial `field`, partial `row`, finished
/// `rows`, and `mode`. Yields the finished rows, or nothing on a quoting
/// fault.
pub open spec fn spec_csv_run(
    s: Seq<char>,
    mode: CsvMode,
    field: Seq<char>,
    row: Seq<Seq<char>>,
    rows: Seq<Seq<Seq<char>>>,
) -> Option<Seq<Seq<Seq<char>>>>
    decreases s.len(),
{
    if s.len() == 0 {
        match mode {
            CsvMode::InQuotes => None,
            CsvMode::AfterQuotes => Some(rows.push(row.push(field))),
            CsvMode::Normal => if field.len() == 0 && row.len() == 0 {
                Some(rows)
            } else {
                Some(rows.push(row.push(field)))
            },
        }
    } else {
        let c = s[0];
        let rest = s.skip(1);
        match mode {
            CsvMode::Normal => {
                if c == '"' {
                    if field.len() == 0 {
                        spec_csv_run(rest, CsvMode::InQuotes, field, row, rows)
                    } else {
                        None
                    }
                } else if c == ',' {
                    spec_csv_run(rest, CsvMode::Normal, Seq::empty(), row.push(field), rows)
                } else if c == '\n' {
                    spec_csv_run(
                        rest,
                        CsvMode::Normal,
                        Seq::empty(),
                        Seq::empty(),
                        rows.push(row.push(field)),
                    )
                } else {
                    spec_csv_run(rest, CsvMode::Normal, field.push(c), row, rows)
                }
            },
            CsvMode::InQuotes => {
                if c == '"' {
                    spec_csv_run(rest, CsvMode::AfterQuotes, field, row, rows)
                } else {
                    spec_csv_run(rest, CsvMode::InQuotes, field.push(c), row, rows)
                }
            },
            CsvMode::AfterQuotes => {
                if c == '"' {
                    spec_csv_run(rest, CsvMode::InQuotes, field.push('"'), row, rows)
                } else if c == ',' {
                    spec_csv_run(rest, CsvMode::Normal, Seq::empty(), row.push(field), rows)
                } else if c == '\n' {
                    spec_csv_run(
                        rest,
                        CsvMode::Normal,
                        Seq::empty(),
                        Seq::empty(),
                        rows.push(row.push(field)),
                    )
                } else {
                    None
                }
            },
        }
    }
}

/// What parsing yields on a whole text: newline normalization, then the
/// field-splitting machine from the empty state.
pub open spec fn spec_parse_rows(text: Seq<char>) -> Option<Seq<Seq<Seq<char>>>> {
    spec_csv_run(
        normalize_newlines(text),
        CsvMode::Normal,
        Seq::empty(),
        Seq::empty(),
        Seq::empty(),
    )
}

/// Replaces every `\r\n` pair by a single `\n`.
fn normalize(v: &Vec<char>) -> (r: Vec<char>)
    ensures
        r@ == normalize_newlines(v@),
{
    let n = v.len();
    let mut out: Vec<char> = Vec::new();
    let mut i: usize = 0;
    proof {
        assert(v@.skip(0) =~= v@);
        assert(out@ + normalize_newlines(v@) =~= normalize_newlines(v@));
    }
    while i < n
        invariant
            n == v@.len(),
            i <= n,
            normalize_newlines(v@) == out@ + normalize_newlines(v@.skip(i as int)),
        decreases n - i,
    {
        let ghost rem = v@.skip(i as int);
        proof {
            assert(rem[0] == v@[i as int]);
            if rem.len() >= 2 {
                assert(rem[1] == v@[i + 1]);
            }
        }
        if v[i] == '\r' && i + 1 < n && v[i + 1] == '\n' {
            out.push('\n');
            proof {
                assert(rem.skip(2) =~= v@.skip(i + 2));
                assert(out@ + normalize_newlines(v@.skip(i + 2))
                    =~= (out@.drop_last() + (seq!['\n'] + normalize_newlines(rem.skip(2)))));
            }
            i = i + 2;
        } else {
            let c = v[i];
            out.push(c);
            proof {
                assert(rem.skip(1) =~= v@.skip(i + 1));
                assert(out@ + normalize_newlines(v@.skip(i + 1))
                    =~= (out@.drop_last() + (seq![c] + normalize_newlines(rem.skip(1)))));
            }
            i = i + 1;
        }
    }
    proof {
        assert(v@.skip(n as int).len() == 0);
        assert(out@ + normalize_newlines(v@.skip(n as int)) =~= out@);
    }
    out
}

/// Splits a decoded text into rows of raw string fields.
///
/// Fails with `MalformedInput` exactly when the text breaks the quoting
/// grammar; this is the one hard-stop failure of the pipeline.
pub fn parse_rows(text: &str) -> (r: Result<Vec<Vec<String>>, ReportError>)
    ensures
        match r {
            Ok(v) => spec_parse_rows(text@) == Some(v.deep_view()),
            Err(e) => spec_parse_rows(text@) is None && e == ReportError::MalformedInput,
        },
{
    let cs = to_chars(text);
    let nv = normalize(&cs);
    let n = nv.len();
    let mut mode = CsvMode::Normal;
    let mut field: Vec<char> = Vec::new();
    let mut row: Vec<String> = Vec::new();
    let mut rows: Vec<Vec<String>> = Vec::new();
    let mut i: usize = 0;
    proof {
        assert(nv@.skip(0) =~= nv@);
        assert(row.deep_view() =~= Seq::<Seq<char>>::empty());
        assert(rows.deep_view() =~= Seq::<Seq<Seq<char>>>::empty());
    }
    while i < n
        invariant
            nv@ == normalize_newlines(text@),
            n == nv@.len(),
            i <= n,
            spec_csv_run(nv@.skip(i as int), mode, field@, row.deep_view(), rows.deep_view())
                == spec_parse_rows(text@),
        decreases n - i,
    {
        let ghost rem = nv@.skip(i as int);
        let ghost row0 = row.deep_view();
        let ghost rows0 = rows.deep_view();
        let ghost field0 = field@;
        proof {
            assert(rem[0] == nv@[i as int]);
            assert(rem.skip(1) =~= nv@.skip(i + 1));
        }
        let c = nv[i];
        match mode {
            CsvMode::Normal => {
                if c == '"' {
                    if field.len() == 0 {
                        mode = CsvMode::InQuotes;
                    } else {
                        return Err(ReportError::MalformedInput);
                    }
                } else if c == ',' {
                    let f = chars_to_string(&field);
                    row.push(f);
                    field = Vec::new();
                    proof {
                        assert(row.deep_view() =~= row0.push(field0));
                    }
                } else if c == '\n' {
                    let f = chars_to_string(&field);
                    row.push(f);
                    proof {
                        assert(row.deep_view() =~= row0.push(field0));
                    }
                    rows.push(row);
                    proof {
                        assert(rows.deep_view() =~= rows0.push(row0.push(field0)));
                    }
                    row = Vec::new();
                    field = Vec::new();
                    proof {
                        assert(row.deep_view() =~= Seq::<Seq<char>>::empty());
                    }
                } else {
                    field.push(c);
                }
            },
            CsvMode::InQuotes => {
                if c == '"' {
                    mode = CsvMode::AfterQuotes;
                } else {
                    field.push(c);
                }
            },
            CsvMode::AfterQuotes => {
                if c == '"' {
                    field.push('"');
                    mode = CsvMode::InQuotes;
                } else if c == ',' {
                    let f = chars_to_string(&field);
                    row.push(f);
                    field = Vec::new();
                    mode = CsvMode::Normal;
                    proof {
                        assert(row.deep_view() =~= row0.push(field0));
                    }
                } else if c == '\n' {
                    let f = chars_to_string(&field);
                    row.push(f);
                    proof {
                        assert(row.deep_view() =~= row0.push(field0));
                    }
                    rows.push(row);
                    proof {
                        assert(rows.deep_view() =~= rows0.push(row0.push(field0)));
                    }
                    row = Vec::new();
                    field = Vec::new();
                    mode = CsvMode::Normal;
                    proof {
                        assert(row.deep_view() =~= Seq::<Seq<char>>::empty());
                    }
                } else {
                    return Err(ReportError::MalformedInput);
                }
            },
        }
        i = i + 1;
    }
    proof {
        assert(nv@.skip(n as int).len() == 0);
    }
    match mode {
        CsvMode::InQuotes => Err(ReportError::MalformedInput),
        CsvMode::AfterQuotes => {
            let ghost row0 = row.deep_view();
            let ghost rows0 = rows.deep_view();
            let ghost field0 = field@;
            let f = chars_to_string(&field);
            row.push(f);
            proof {
                assert(row.deep_view() =~= row0.push(field0));
            }
            rows.push(row);
            proof {
                assert(rows.deep_view() =~= rows0.push(row0.push(field0)));
            }
            Ok(rows)
        },
        CsvMode::Normal => {
            if field.len() == 0 && row.len() == 0 {
                proof {
                    assert(row.deep_view().len() == 0);
                }
                Ok(rows)
            } else {
                let ghost row0 = row.deep_view();
                let ghost rows0 = rows.deep_view();
                let ghost field0 = field@;
                let f = chars_to_string(&field);
                row.push(f);
                proof {
                    assert(row.deep_view() =~= row0.push(field0));
                }
                rows.push(row);
                proof {
                    assert(rows.deep_view() =~= rows0.push(row0.push(field0)));
                }
                Ok(rows)
            }
        },
    }
}


/// A parsed table: the column count remembered from the header row, and
/// the data rows that followed it.
pub struct ParsedTable {
    /// The field count of the consumed header row (zero for an empty file).
    pub expected_width: usize,
    /// The data rows, in input order; the header is not among them.
    pub rows: Vec<Vec<String>>,
}

/// What reading a raw byte buffer yields: decode, parse, then consume the
/// header row, remembering its width.
pub open spec fn spec_read(bytes: Seq<u8>) -> Result<(int, Seq<Seq<Seq<char>>>), ReportError> {
    match spec_decode(bytes) {
        None => Err(ReportError::DecodeError),
        Some(text) => match spec_parse_rows(text) {
            None => Err(ReportError::MalformedInput),
            Some(all) => if all.len() == 0 {
                Ok((0, Seq::empty()))
            } else {
                Ok((all[0].len() as int, all.drop_first()))
            },
        },
    }
}

/// Reads raw bytes into a parsed table.
pub struct CSVAccessor;

impl CSVAccessor {
    /// Decodes `bytes`, parses the text, and splits off the header row.
    pub fn read(bytes: &[u8]) -> (r: Result<ParsedTable, ReportError>)
        ensures
            match r {
                Ok(t) => spec_read(bytes@) == Ok::<_, ReportError>(
                    (t.expected_width as int, t.rows.deep_view()),
                ),
                Err(e) => spec_read(bytes@) == Err::<(int, Seq<Seq<Seq<char>>>), _>(e),
            },
    {
        let text = match decode(bytes) {
            Ok(t) => t,
            Err(e) => {
                return Err(e);
            },
        };
        let mut rows = match parse_rows(text.as_str()) {
            Ok(v) => v,
            Err(e) => {
                return Err(e);
            },
        };
        if rows.len() == 0 {
            proof {
                assert(rows.deep_view() =~= Seq::<Seq<Seq<char>>>::empty());
            }
            Ok(ParsedTable { expected_width: 0, rows })
        } else {
            let ghost all = rows.deep_view();
            let header = rows.remove(0);
            proof {
                assert(rows.deep_view() =~= all.drop_first());
                assert(header.deep_view() == all[0]);
                assert(header@.len() == header.deep_view().len());
            }
            Ok(ParsedTable { expected_width: header.len(), rows })
        }
    }
}

} // verus!
