//! Numeric text utilities: decimal digit strings, tolerant integer parsing
//! with thousands-separator stripping, and thousands-grouped formatting.

use crate::text::{chars_to_string, push_char, to_chars};
use vstd::prelude::*;

verus! {

/// Whether `c` is a decimal digit.
pub open spec fn is_digit(c: char) -> bool {
    '0' <= c && c <= '9'
}

/// The numeric value of a digit character.
pub open spec fn digit_val(c: char) -> int {
    c as int - '0' as int
}

/// The digit character for a value in `0..=9`.
pub open spec fn digit_char(d: int) -> char {
    if d == 0 { '0' }
    else if d == 1 { '1' }
    else if d == 2 { '2' }
    else if d == 3 { '3' }
    else if d == 4 { '4' }
    else if d == 5 { '5' }
    else if d == 6 { '6' }
    else if d == 7 { '7' }
    else if d == 8 { '8' }
    else { '9' }
}

/// Whether every character of `s` is a decimal digit.
pub open spec fn all_digits(s: Seq<char>) -> bool {
    forall|i: int| 0 <= i < s.len() ==> is_digit(s[i])
}

/// The value of a digit string read in base 10 (most significant first).
pub open spec fn dec_val(s: Seq<char>) -> int
    decreases s.len(),
{
    if s.len() == 0 {
        0
    } else {
        dec_val(s.drop_last()) * 10 + digit_val(s.last())
    }
}

/// `s` with every comma removed.
pub open spec fn remove_commas(s: Seq<char>) -> Seq<char>
    decreases s.len(),
{
    if s.len() == 0 {
        Seq::empty()
    } else {
        let rest = remove_commas(s.drop_last());
        if s.last() == ',' {
            rest
        } else {
            rest.push(s.last())
        }
    }
}

/// Whether a comma-free string is a well-formed optionally signed integer:
/// an optional `-` or `+` followed by one or more digits.
pub open spec fn is_int_string(s: Seq<char>) -> bool {
    if s.len() > 0 && (s[0] == '-' || s[0] == '+') {
        s.len() > 1 && all_digits(s.skip(1))
    } else {
        s.len() > 0 && all_digits(s)
    }
}

/// The signed value of a well-formed integer string.
pub open spec fn int_string_val(s: Seq<char>) -> int {
    if s.len() > 0 && s[0] == '-' {
        -dec_val(s.skip(1))
    } else if s.len() > 0 && s[0] == '+' {
        dec_val(s.skip(1))
    } else {
        dec_val(s)
    }
}

/// What tolerant integer coercion yields on `s`: commas are stripped first;
/// the result is present exactly when what remains is a well-formed signed
/// integer whose value fits in `i32`.
pub open spec fn spec_parse_int(s: Seq<char>) -> Option<i32> {
    let t = remove_commas(s);
    if is_int_string(t) && i32::MIN <= int_string_val(t) <= i32::MAX {
        Some(int_string_val(t) as i32)
    } else {
        None
    }
}

/// The digit string of a nonnegative integer, most significant digit first,
/// with no leading zeros (a single `0` for zero).
pub open spec fn nat_digits(n: nat) -> Seq<char>
    decreases n,
{
    if n < 10 {
        seq![digit_char(n as int)]
    } else {
        nat_digits(n / 10).push(digit_char((n % 10) as int))
    }
}

/// The decimal rendering of an integer: a `-` sign for negative values,
/// then the digits of the magnitude.
pub open spec fn spec_int_string(n: int) -> Seq<char> {
    if n < 0 {
        seq!['-'] + nat_digits((-n) as nat)
    } else {
        nat_digits(n as nat)
    }
}

/// The index of the first `.` in `s`, or `s.len()` if there is none.
pub open spec fn first_dot(s: Seq<char>) -> int
    decreases s.len(),
{
    if s.len() == 0 {
        0
    } else if s[0] == '.' {
        0
    } else {
        1 + first_dot(s.skip(1))
    }
}

/// `d` with a comma inserted every three characters, counted from the right.
pub open spec fn spec_group3(d: Seq<char>) -> Seq<char>
    decreases d.len(),
{
    if d.len() <= 3 {
        d
    } else {
        spec_group3(d.take(d.len() - 3)) + seq![','] + d.skip(d.len() - 3)
    }
}

/// What thousands-grouped formatting yields on `s`: a leading `-` is kept,
/// commas are stripped, the part before the first `.` is regrouped in threes
/// from the right, and everything from the first `.` on is kept unchanged.
pub open spec fn spec_format_number(s: Seq<char>) -> Seq<char> {
    let neg = s.len() > 0 && s[0] == '-';
    let body = if neg { s.skip(1) } else { s };
    let t = remove_commas(body);
    let cut = first_dot(t);
    let grouped = spec_group3(t.take(cut));
    let frac = t.skip(cut);
    if neg {
        seq!['-'] + grouped + frac
    } else {
        grouped + frac
    }
}

/// Whether a comma-free string is a well-formed decimal number: an optional
/// sign, one or more integer digits, and an optional `.` followed by one or
/// more fraction digits.
pub open spec fn is_decimal_string(s: Seq<char>) -> bool {
    let body = if s.len() > 0 && (s[0] == '-' || s[0] == '+') { s.skip(1) } else { s };
    let cut = first_dot(body);
    let ip = body.take(cut);
    let fp = body.skip(cut);
    &&& ip.len() > 0
    &&& all_digits(ip)
    &&& (fp.len() == 0 || (fp.len() >= 2 && fp[0] == '.' && all_digits(fp.skip(1))))
}

/// What tolerant decimal coercion yields on `s`: commas are stripped first;
/// the result is the comma-free text exactly when it is a well-formed
/// decimal number, or the bare not-applicable marker `-`, which is kept
/// as-is rather than coerced.
pub open spec fn spec_parse_decimal(s: Seq<char>) -> Option<Seq<char>> {
    let t = remove_commas(s);
    if is_decimal_string(t) || t == seq!['-'] {
        Some(t)
    } else {
        None
    }
}

/// A digit string has a nonnegative value.
pub proof fn lemma_dec_val_nonneg(s: Seq<char>)
    requires
        all_digits(s),
    ensures
        dec_val(s) >= 0,
    decreases s.len(),
{
    if s.len() > 0 {
        lemma_dec_val_nonneg(s.drop_last());
    }
}

/// Dropping trailing digits can only lower the value of a digit string.
pub proof fn lemma_dec_val_prefix(s: Seq<char>, i: int)
    requires
        all_digits(s),
        0 <= i <= s.len(),
    ensures
        dec_val(s.take(i)) <= dec_val(s),
    decreases s.len(),
{
    if i < s.len() {
        assert(s.drop_last().take(i) =~= s.take(i));
        lemma_dec_val_prefix(s.drop_last(), i);
        lemma_dec_val_nonneg(s.drop_last());
    } else {
        assert(s.take(i) =~= s);
    }
}

/// The characters of `v` with commas removed, as a vector.
pub fn strip_commas(v: &Vec<char>) -> (r: Vec<char>)
    ensures
        r@ == remove_commas(v@),
{
    let mut r: Vec<char> = Vec::new();
    let mut i: usize = 0;
    while i < v.len()
        invariant
            i <= v@.len(),
            r@ == remove_commas(v@.take(i as int)),
        decreases v@.len() - i,
    {
        proof {
            assert(v@.take(i + 1).drop_last() =~= v@.take(i as int));
            assert(v@.take(i + 1).last() == v@[i as int]);
        }
        let c = v[i];
        if c != ',' {
            r.push(c);
        }
        i = i + 1;
    }
    proof {
        assert(v@.take(v@.len() as int) =~= v@);
    }
    r
}

/// Tolerant integer coercion of the characters of `s`: strips commas, then
/// accepts an optionally signed digit string whose value fits in `i32`.
pub fn parse_i32(s: &str) -> (r: Option<i32>)
    ensures
        r == spec_parse_int(s@),
{
    let cs = to_chars(s);
    let t = strip_commas(&cs);
    let n = t.len();
    if n == 0 {
        return None;
    }
    let ghost tv = t@;
    let first = t[0];
    let neg = first == '-';
    let start: usize = if first == '-' || first == '+' { 1 } else { 0 };
    if start == 1 && n == 1 {
        proof {
            assert(!is_int_string(tv));
        }
        return None;
    }
    let ghost digits = tv.skip(start as int);
    let mut acc: u64 = 0;
    let mut i: usize = start;
    while i < n
        invariant
            t@ == tv,
            tv == remove_commas(s@),
            n == tv.len(),
            n > 0,
            start <= i <= n,
            start < n,
            neg == (tv[0] == '-'),
            start == (if tv[0] == '-' || tv[0] == '+' { 1int } else { 0int }),
            digits == tv.skip(start as int),
            all_digits(digits.take(i - start)),
            acc == dec_val(digits.take(i - start)),
            acc <= 2147483648,
        decreases n - i,
    {
        let c = t[i];
        proof {
            assert(digits[i - start] == tv[i as int]);
        }
        if !('0' <= c && c <= '9') {
            proof {
                assert(!is_digit(digits[i - start]));
                assert(!all_digits(digits));
                if start == 0 {
                    assert(digits =~= tv);
                }
                assert(!is_int_string(tv));
            }
            return None;
        }
        let d: u64 = (c as u32) as u64 - 48;
        let next: u64 = acc * 10 + d;
        proof {
            assert(digits.take(i + 1 - start).drop_last() =~= digits.take(i - start));
            assert(digits.take(i + 1 - start).last() == digits[i - start]);
        }
        if next > 2147483648 {
            proof {
                lemma_dec_val_prefix_monotone_fail(tv, digits, start as int, i + 1 - start);
            }
            return None;
        }
        acc = next;
        i = i + 1;
    }
    proof {
        assert(digits.take(n - start) =~= digits);
        if start == 0 {
            assert(digits =~= tv);
        }
        assert(is_int_string(tv));
        if !neg {
            assert(int_string_val(tv) == dec_val(digits));
        }
    }
    if neg {
        let v: i64 = -(acc as i64);
        proof {
            assert(int_string_val(tv) == -dec_val(digits));
        }
        Some(v as i32)
    } else {
        if acc > 2147483647 {
            return None;
        }
        Some(acc as i32)
    }
}

/// Once a digit prefix exceeds every `i32` magnitude, the full string's
/// value is out of range whatever its sign.
proof fn lemma_dec_val_prefix_monotone_fail(tv: Seq<char>, digits: Seq<char>, start: int, k: int)
    requires
        tv.len() > 0,
        start == (if tv[0] == '-' || tv[0] == '+' { 1int } else { 0int }),
        digits == tv.skip(start),
        0 <= k <= digits.len(),
        all_digits(digits.take(k)),
        dec_val(digits.take(k)) > 2147483648,
    ensures
        is_int_string(tv) ==> !(i32::MIN <= int_string_val(tv) <= i32::MAX),
{
    if is_int_string(tv) {
        if start == 0 {
            assert(digits =~= tv);
        }
        assert(all_digits(digits));
        lemma_dec_val_prefix(digits, k);
        if tv[0] == '-' {
            assert(int_string_val(tv) == -dec_val(digits));
        } else if tv[0] == '+' {
            assert(int_string_val(tv) == dec_val(digits));
        } else {
            assert(int_string_val(tv) == dec_val(digits));
        }
    }
}

/// The digit character for an executable value in `0..=9`.
pub fn digit_to_char(d: u128) -> (c: char)
    requires
        d < 10,
    ensures
        c == digit_char(d as int),
{
    if d == 0 { '0' }
    else if d == 1 { '1' }
    else if d == 2 { '2' }
    else if d == 3 { '3' }
    else if d == 4 { '4' }
    else if d == 5 { '5' }
    else if d == 6 { '6' }
    else if d == 7 { '7' }
    else if d == 8 { '8' }
    else { '9' }
}

/// Appends the decimal digits of `m` to `out`.
fn push_nat_digits(out: &mut String, m: u128)
    ensures
        final(out)@ == old(out)@ + nat_digits(m as nat),
    decreases m,
{
    if m < 10 {
        push_char(out, digit_to_char(m));
        proof {
            assert(old(out)@.push(digit_char(m as int)) =~= old(out)@ + nat_digits(m as nat));
        }
    } else {
        push_nat_digits(out, m / 10);
        push_char(out, digit_to_char(m % 10));
        proof {
            assert((old(out)@ + nat_digits((m / 10) as nat)).push(digit_char((m % 10) as int))
                =~= old(out)@ + nat_digits(m as nat));
        }
    }
}

/// The decimal rendering of `n`, with a leading `-` for negative values.
pub fn int_to_string(n: i128) -> (r: String)
    ensures
        r@ == spec_int_string(n as int),
{
    let mut r = String::new();
    if n < 0 {
        push_char(&mut r, '-');
        let m: u128 = ((-(n + 1)) as u128) + 1;
        proof {
            assert(m as int == -(n as int));
        }
        push_nat_digits(&mut r, m);
        proof {
            assert(Seq::<char>::empty().push('-') + nat_digits(m as nat)
                =~= spec_int_string(n as int));
        }
    } else {
        push_nat_digits(&mut r, n as u128);
        proof {
            assert(Seq::<char>::empty() + nat_digits(n as nat) =~= spec_int_string(n as int));
        }
    }
    r
}

/// The first `end` characters of `d`, grouped in threes from the right.
fn group3_prefix(d: &Vec<char>, end: usize) -> (r: Vec<char>)
    requires
        end <= d@.len(),
    ensures
        r@ == spec_group3(d@.take(end as int)),
    decreases end,
{
    if end <= 3 {
        let mut r: Vec<char> = Vec::new();
        let mut i: usize = 0;
        while i < end
            invariant
                end <= d@.len(),
                i <= end,
                r@ == d@.take(end as int).take(i as int),
            decreases end - i,
        {
            r.push(d[i]);
            proof {
                assert(d@.take(end as int).take(i + 1)
                    =~= d@.take(end as int).take(i as int).push(d@[i as int]));
            }
            i = i + 1;
        }
        proof {
            assert(d@.take(end as int).take(end as int) =~= d@.take(end as int));
        }
        r
    } else {
        let mut r = group3_prefix(d, end - 3);
        proof {
            assert(d@.take(end as int).take(end - 3) =~= d@.take(end - 3));
        }
        r.push(',');
        r.push(d[end - 3]);
        r.push(d[end - 2]);
        r.push(d[end - 1]);
        proof {
            let whole = d@.take(end as int);
            assert(r@ =~= spec_group3(whole.take(end - 3)) + seq![','] + whole.skip(end - 3));
        }
        r
    }
}

/// Formats a raw numeric string for display: keeps a leading `-`, strips
/// commas, regroups the integer part in threes with commas, and keeps the
/// fractional part (everything from the first `.` on) unchanged.
pub fn format_number(s: &str) -> (r: String)
    ensures
        r@ == spec_format_number(s@),
{
    let cs = to_chars(s);
    let n = cs.len();
    let neg = n > 0 && cs[0] == '-';
    let mut body: Vec<char> = Vec::new();
    let mut i: usize = if neg { 1 } else { 0 };
    let ghost bodyv = if neg { s@.skip(1) } else { s@ };
    while i < n
        invariant
            cs@ == s@,
            n == s@.len(),
            bodyv == (if neg { s@.skip(1) } else { s@ }),
            neg ==> 1 <= i,
            i <= n,
            neg ==> n >= 1,
            body@ == bodyv.take(i - (if neg { 1int } else { 0int })),
        decreases n - i,
    {
        body.push(cs[i]);
        proof {
            let off: int = if neg { 1 } else { 0 };
            assert(bodyv[i - off] == s@[i as int]);
            assert(bodyv.take(i + 1 - off) =~= bodyv.take(i - off).push(s@[i as int]));
        }
        i = i + 1;
    }
    proof {
        assert(body@ =~= bodyv);
    }
    let t = strip_commas(&body);
    let tn = t.len();
    let mut cut: usize = 0;
    while cut < tn && t[cut] != '.'
        invariant
            t@ == remove_commas(bodyv),
            tn == t@.len(),
            cut <= tn,
            forall|k: int| 0 <= k < cut ==> t@[k] != '.',
        decreases tn - cut,
    {
        cut = cut + 1;
    }
    proof {
        lemma_first_dot_at(t@, cut as int);
    }
    let mut out = String::new();
    if neg {
        push_char(&mut out, '-');
    }
    let grouped = group3_prefix(&t, cut);
    let gs = chars_to_string(&grouped);
    out.append(gs.as_str());
    let mut j: usize = cut;
    while j < tn
        invariant
            t@ == remove_commas(bodyv),
            tn == t@.len(),
            cut <= j <= tn,
            out@ == (if neg { seq!['-'] } else { Seq::<char>::empty() })
                + spec_group3(t@.take(cut as int)) + t@.subrange(cut as int, j as int),
        decreases tn - j,
    {
        push_char(&mut out, t[j]);
        proof {
            assert(t@.subrange(cut as int, j + 1)
                =~= t@.subrange(cut as int, j as int).push(t@[j as int]));
            assert(out@ =~= (if neg { seq!['-'] } else { Seq::<char>::empty() })
                + spec_group3(t@.take(cut as int)) + t@.subrange(cut as int, j + 1));
        }
        j = j + 1;
    }
    proof {
        assert(t@.subrange(cut as int, tn as int) =~= t@.skip(cut as int));
        assert(out@ =~= spec_format_number(s@));
    }
    out
}

/// The view of an optional owned string.
pub open spec fn opt_str_view(o: Option<String>) -> Option<Seq<char>> {
    match o {
        Some(v) => Some(v@),
        None => None,
    }
}

/// Tolerant decimal coercion of the characters of `s`: strips commas, then
/// accepts an optionally signed digit string with an optional fraction, or
/// the bare not-applicable marker `-`, and returns the comma-free text
/// unchanged.
pub fn parse_decimal(s: &str) -> (r: Option<String>)
    ensures
        opt_str_view(r) == spec_parse_decimal(s@),
{
    let cs = to_chars(s);
    let t = strip_commas(&cs);
    let n = t.len();
    let ghost tv = t@;
    if n == 1 && t[0] == '-' {
        proof {
            assert(tv =~= seq!['-']);
        }
        return Some(chars_to_string(&t));
    }
    proof {
        assert(tv != seq!['-']) by {
            if tv.len() == 1 {
                assert(tv[0] != '-');
            }
        }
    }
    let start: usize = if n > 0 && (t[0] == '-' || t[0] == '+') { 1 } else { 0 };
    let ghost body = if start == 1 { tv.skip(1) } else { tv };
    proof {
        if start == 0 {
            assert(tv.skip(0) =~= tv);
        }
        assert(body == tv.skip(start as int));
    }
    if n == start {
        proof {
            assert(body.len() == 0);
            assert(!is_decimal_string(tv));
        }
        return None;
    }
    let mut i: usize = start;
    while i < n && '0' <= t[i] && t[i] <= '9'
        invariant
            t@ == tv,
            n == tv.len(),
            start <= i <= n,
            start < n,
            start == (if tv.len() > 0 && (tv[0] == '-' || tv[0] == '+') { 1int } else { 0int }),
            body == (if start == 1 { tv.skip(1) } else { tv }),
            body == tv.skip(start as int),
            forall|k: int| 0 <= k < i - start ==> is_digit(#[trigger] body[k]),
        decreases n - i,
    {
        i = i + 1;
    }
    proof {
        assert(forall|k: int| 0 <= k < i - start ==> body[k] != '.');
    }
    if i == start {
        proof {
            assert(body[0] == tv[start as int]);
            assert(!is_digit(body[0]));
            lemma_first_dot_ub(body);
            if body[0] == '.' {
                lemma_first_dot_at(body, 0);
            } else {
                lemma_first_dot_lb(body, 1);
                assert(body.take(first_dot(body))[0] == body[0]);
            }
            assert(!is_decimal_string(tv));
        }
        return None;
    }
    if i == n {
        proof {
            lemma_first_dot_at(body, body.len() as int);
            assert(body.take(body.len() as int) =~= body);
            assert(body.skip(body.len() as int).len() == 0);
            assert(is_decimal_string(tv));
        }
        return Some(chars_to_string(&t));
    }
    let c = t[i];
    proof {
        assert(body[i - start] == tv[i as int]);
        assert(!is_digit(body[i - start]));
    }
    if c != '.' {
        proof {
            lemma_first_dot_ub(body);
            lemma_first_dot_lb(body, i + 1 - start);
            assert(body.take(first_dot(body))[i - start] == body[i - start]);
            assert(!all_digits(body.take(first_dot(body))));
            assert(!is_decimal_string(tv));
        }
        return None;
    }
    proof {
        lemma_first_dot_at(body, i - start);
    }
    let ghost fp = body.skip(i - start);
    proof {
        assert(fp[0] == body[i - start]);
    }
    if i + 1 == n {
        proof {
            assert(fp.len() == 1);
            assert(!is_decimal_string(tv));
        }
        return None;
    }
    let mut j: usize = i + 1;
    while j < n
        invariant
            t@ == tv,
            tv == remove_commas(s@),
            n == tv.len(),
            start <= i < j <= n,
            n - i >= 2,
            start == (if tv.len() > 0 && (tv[0] == '-' || tv[0] == '+') { 1int } else { 0int }),
            body == (if start == 1 { tv.skip(1) } else { tv }),
            body == tv.skip(start as int),
            fp == body.skip(i - start),
            fp[0] == '.',
            first_dot(body) == i - start,
            forall|k: int| 0 <= k < i - start ==> is_digit(#[trigger] body[k]),
            forall|k: int| 0 <= k < j - i - 1 ==> is_digit(#[trigger] fp.skip(1)[k]),
        decreases n - j,
    {
        let c2 = t[j];
        proof {
            assert(fp.skip(1)[j - i - 1] == tv[j as int]);
        }
        if !('0' <= c2 && c2 <= '9') {
            proof {
                assert(!is_digit(fp.skip(1)[j - i - 1]));
                assert(!all_digits(fp.skip(1)));
                assert(!is_decimal_string(tv));
            }
            return None;
        }
        j = j + 1;
    }
    proof {
        assert(body.take(i - start).len() > 0);
        assert(all_digits(body.take(i - start))) by {
            assert(forall|k: int|
                0 <= k < i - start ==> body.take(i - start)[k] == #[trigger] body[k]);
        }
        assert(fp.len() >= 2);
        assert(all_digits(fp.skip(1)));
        assert(is_decimal_string(tv));
    }
    Some(chars_to_string(&t))
}

/// A scan that passed `p` dot-free characters bounds `first_dot` from below.
proof fn lemma_first_dot_lb(s: Seq<char>, p: int)
    requires
        0 <= p <= s.len(),
        forall|k: int| 0 <= k < p ==> s[k] != '.',
    ensures
        first_dot(s) >= p,
    decreases s.len(),
{
    lemma_first_dot_ub(s);
    if s.len() == 0 || p == 0 {
    } else {
        assert(s[0] != '.');
        assert(forall|k: int| 0 <= k < p - 1 ==> s.skip(1)[k] == s[k + 1] && s[k + 1] != '.');
        lemma_first_dot_lb(s.skip(1), p - 1);
    }
}

/// Whether `s` holds no comma.
pub open spec fn comma_free(s: Seq<char>) -> bool {
    forall|i: int| 0 <= i < s.len() ==> s[i] != ','
}

/// Removing commas distributes over concatenation.
pub proof fn lemma_remove_commas_concat(a: Seq<char>, b: Seq<char>)
    ensures
        remove_commas(a + b) == remove_commas(a) + remove_commas(b),
    decreases b.len(),
{
    if b.len() == 0 {
        assert(a + b =~= a);
        assert(remove_commas(b) =~= Seq::<char>::empty());
        assert(remove_commas(a) + remove_commas(b) =~= remove_commas(a));
    } else {
        assert((a + b).drop_last() =~= a + b.drop_last());
        assert((a + b).last() == b.last());
        lemma_remove_commas_concat(a, b.drop_last());
        if b.last() == ',' {
            assert(remove_commas(a + b) == remove_commas(a) + remove_commas(b));
        } else {
            assert((remove_commas(a) + remove_commas(b.drop_last())).push(b.last())
                =~= remove_commas(a) + remove_commas(b.drop_last()).push(b.last()));
        }
    }
}

/// Removing commas from a comma-free string changes nothing.
pub proof fn lemma_remove_commas_id(s: Seq<char>)
    requires
        comma_free(s),
    ensures
        remove_commas(s) == s,
    decreases s.len(),
{
    if s.len() > 0 {
        assert(comma_free(s.drop_last())) by {
            assert(forall|i: int| 0 <= i < s.len() - 1 ==> s.drop_last()[i] == #[trigger] s[i]);
        }
        lemma_remove_commas_id(s.drop_last());
        assert(remove_commas(s) =~= s);
    }
}

/// Removing commas yields a comma-free string.
pub proof fn lemma_remove_commas_comma_free(s: Seq<char>)
    ensures
        comma_free(remove_commas(s)),
    decreases s.len(),
{
    if s.len() > 0 {
        lemma_remove_commas_comma_free(s.drop_last());
    }
}

/// Grouping in threes inserts only commas: stripping them restores the text.
pub proof fn lemma_group3_value(d: Seq<char>)
    ensures
        remove_commas(spec_group3(d)) == remove_commas(d),
    decreases d.len(),
{
    if d.len() > 3 {
        let head = spec_group3(d.take(d.len() - 3));
        let tail = d.skip(d.len() - 3);
        lemma_group3_value(d.take(d.len() - 3));
        lemma_remove_commas_concat(head + seq![','], tail);
        lemma_remove_commas_concat(head, seq![',']);
        assert(seq![','].drop_last() =~= Seq::<char>::empty());
        assert(remove_commas(Seq::<char>::empty()) == Seq::<char>::empty());
        assert(remove_commas(seq![',']) == Seq::<char>::empty());
        assert(remove_commas(head) + remove_commas(seq![',']) =~= remove_commas(head));
        lemma_remove_commas_concat(d.take(d.len() - 3), tail);
        assert(d.take(d.len() - 3) + tail =~= d);
    }
}

/// Thousands-grouped formatting preserves the comma-stripped text: stripping
/// separators from the formatted string restores the comma-stripped input.
pub proof fn lemma_format_number_preserves_value(s: Seq<char>)
    ensures
        remove_commas(spec_format_number(s)) == remove_commas(s),
{
    let neg = s.len() > 0 && s[0] == '-';
    let body = if neg { s.skip(1) } else { s };
    let t = remove_commas(body);
    let cut = first_dot(t);
    let grouped = spec_group3(t.take(cut));
    let frac = t.skip(cut);
    lemma_first_dot_ub(t);
    lemma_remove_commas_comma_free(body);
    assert(comma_free(t.take(cut))) by {
        assert(forall|i: int| 0 <= i < cut ==> t.take(cut)[i] == #[trigger] t[i]);
    }
    assert(comma_free(frac)) by {
        assert(forall|i: int| 0 <= i < frac.len() ==> frac[i] == #[trigger] t[i + cut]);
    }
    lemma_group3_value(t.take(cut));
    lemma_remove_commas_id(t.take(cut));
    lemma_remove_commas_id(frac);
    lemma_remove_commas_concat(grouped, frac);
    assert(t.take(cut) + frac =~= t);
    if neg {
        lemma_remove_commas_concat(seq!['-'], grouped + frac);
        assert((seq!['-'] + grouped) + frac =~= seq!['-'] + (grouped + frac));
        assert(seq!['-'].drop_last() =~= Seq::<char>::empty());
        assert(remove_commas(Seq::<char>::empty()) == Seq::<char>::empty());
        assert(Seq::<char>::empty().push('-') =~= seq!['-']);
        assert(remove_commas(seq!['-']) == seq!['-']);
        assert(seq!['-'] + remove_commas(grouped + frac) =~= seq!['-'] + t);
        assert(s =~= seq!['-'] + body);
        lemma_remove_commas_concat(seq!['-'], body);
        assert(seq!['-'] + remove_commas(body) =~= remove_commas(s));
    }
}

/// `first_dot` never exceeds the length of the string.
proof fn lemma_first_dot_ub(s: Seq<char>)
    ensures
        0 <= first_dot(s) <= s.len(),
    decreases s.len(),
{
    if s.len() > 0 && s[0] != '.' {
        lemma_first_dot_ub(s.skip(1));
    }
}

/// Re-parsing a formatted integer yields the original parse: coercion sees
/// through the inserted thousands separators.
pub proof fn lemma_parse_int_round_trip(s: Seq<char>)
    ensures
        spec_parse_int(spec_format_number(s)) == spec_parse_int(s),
{
    lemma_format_number_preserves_value(s);
}

/// Re-parsing a formatted decimal yields the original parse: coercion sees
/// through the inserted thousands separators.
pub proof fn lemma_parse_decimal_round_trip(s: Seq<char>)
    ensures
        spec_parse_decimal(spec_format_number(s)) == spec_parse_decimal(s),
{
    lemma_format_number_preserves_value(s);
}

/// A scan that passed `p` dot-free characters pins down `first_dot`.
proof fn lemma_first_dot_at(s: Seq<char>, p: int)
    requires
        0 <= p <= s.len(),
        forall|k: int| 0 <= k < p ==> s[k] != '.',
        p < s.len() ==> s[p] == '.',
    ensures
        first_dot(s) == p,
    decreases s.len(),
{
    if s.len() == 0 {
    } else if s[0] == '.' {
    } else {
        assert(forall|k: int| 0 <= k < p - 1 ==> s.skip(1)[k] == s[k + 1] && s[k + 1] != '.');
        if p - 1 < s.skip(1).len() {
            assert(s.skip(1)[p - 1] == s[p]);
        }
        lemma_first_dot_at(s.skip(1), p - 1);
    }
}

} // verus!
