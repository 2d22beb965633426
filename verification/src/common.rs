//! Tolerant field coercers: absence of input yields absence of output, and
//! input that fails to parse also yields absence, never an error.

use crate::date::{parse_date_str, spec_parse_date, Date};
use crate::num::{opt_str_view, parse_decimal, parse_i32, spec_parse_decimal, spec_parse_int};
use vstd::prelude::*;
use vstd::string::StringExecFns;

verus! {

/// What date coercion yields on an optional raw field.
pub open spec fn spec_coerce_date(v: Option<Seq<char>>) -> Option<Date> {
    match v {
        Some(s) => spec_parse_date(s),
        None => None,
    }
}

/// What integer coercion yields on an optional raw field.
pub open spec fn spec_coerce_int(v: Option<Seq<char>>) -> Option<i32> {
    match v {
        Some(s) => spec_parse_int(s),
        None => None,
    }
}

/// What decimal coercion yields on an optional raw field.
pub open spec fn spec_coerce_decimal(v: Option<Seq<char>>) -> Option<Seq<char>> {
    match v {
        Some(s) => spec_parse_decimal(s),
        None => None,
    }
}

/// What string coercion yields on an optional raw field: a plain copy.
pub open spec fn spec_coerce_string(v: Option<Seq<char>>) -> Option<Seq<char>> {
    v
}

/// The view of an optional borrowed string.
pub open spec fn opt_view(v: Option<&str>) -> Option<Seq<char>> {
    match v {
        Some(s) => Some(s@),
        None => None,
    }
}

/// Coerces an optional raw field to a date; a malformed date is absent.
pub fn parse_date(date_str: Option<&str>) -> (r: Option<Date>)
    ensures
        r == spec_coerce_date(opt_view(date_str)),
        r matches Some(d) ==> d.wf(),
{
    match date_str {
        Some(s) => parse_date_str(s),
        None => None,
    }
}

/// Coerces an optional raw field to an integer; commas are stripped, and a
/// malformed or out-of-range number is absent.
pub fn parse_int(num_str: Option<&str>) -> (r: Option<i32>)
    ensures
        r == spec_coerce_int(opt_view(num_str)),
{
    match num_str {
        Some(s) => parse_i32(s),
        None => None,
    }
}

/// Coerces an optional raw field to a decimal-number string; commas are
/// stripped, and malformed text is absent.
pub fn parse_float(num_str: Option<&str>) -> (r: Option<String>)
    ensures
        opt_str_view(r) == spec_coerce_decimal(opt_view(num_str)),
{
    match num_str {
        Some(s) => parse_decimal(s),
        None => None,
    }
}

/// Coerces an optional raw field to an owned string.
pub fn parse_string(value: Option<&str>) -> (r: Option<String>)
    ensures
        opt_str_view(r) == spec_coerce_string(opt_view(value)),
{
    match value {
        Some(s) => Some(String::from_str(s)),
        None => None,
    }
}

/// The field of a raw row at column `i`, or nothing past the row's end.
pub open spec fn spec_field(row: Seq<Seq<char>>, i: int) -> Option<Seq<char>> {
    if 0 <= i < row.len() {
        Some(row[i])
    } else {
        None
    }
}

/// Reads the field of a raw row at column `i`.
pub fn get_field<'a>(row: &'a Vec<String>, i: usize) -> (r: Option<&'a str>)
    ensures
        opt_view(r) == spec_field(row.deep_view(), i as int),
{
    if i < row.len() {
        let s: &String = &row[i];
        proof {
            assert(row.deep_view()[i as int] == s@);
        }
        Some(s.as_str())
    } else {
        None
    }
}

/// The rendering of an optional date field.
pub open spec fn spec_opt_date_str(d: Option<Date>) -> Option<Seq<char>> {
    match d {
        Some(x) => Some(crate::date::spec_date_string(x)),
        None => None,
    }
}

/// The rendering of an optional `i32` field.
pub open spec fn spec_opt_i32_str(v: Option<i32>) -> Option<Seq<char>> {
    match v {
        Some(x) => Some(crate::num::spec_int_string(x as int)),
        None => None,
    }
}

/// The rendering of an optional `i128` field.
pub open spec fn spec_opt_i128_str(v: Option<i128>) -> Option<Seq<char>> {
    match v {
        Some(x) => Some(crate::num::spec_int_string(x as int)),
        None => None,
    }
}

/// Renders an optional date field.
pub fn opt_date_string(d: &Option<Date>) -> (r: Option<String>)
    requires
        d matches Some(x) ==> x.wf(),
    ensures
        opt_str_view(r) == spec_opt_date_str(*d),
{
    match d {
        Some(x) => Some(crate::date::date_to_string(*x)),
        None => None,
    }
}

/// Renders an optional `i32` field.
pub fn opt_i32_string(v: &Option<i32>) -> (r: Option<String>)
    ensures
        opt_str_view(r) == spec_opt_i32_str(*v),
{
    match v {
        Some(x) => Some(crate::num::int_to_string(*x as i128)),
        None => None,
    }
}

/// Renders an optional `i128` field.
pub fn opt_i128_string(v: &Option<i128>) -> (r: Option<String>)
    ensures
        opt_str_view(r) == spec_opt_i128_str(*v),
{
    match v {
        Some(x) => Some(crate::num::int_to_string(*x)),
        None => None,
    }
}

/// Copies an optional owned string field.
pub fn opt_string_clone(v: &Option<String>) -> (r: Option<String>)
    ensures
        opt_str_view(r) == opt_str_view(*v),
{
    match v {
        Some(s) => Some(s.clone()),
        None => None,
    }
}

} // verus!
