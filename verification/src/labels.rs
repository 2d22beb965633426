//! The field-label table: a read-only mapping from internal field names to
//! display labels, loaded once at startup and passed by reference into
//! every render call.

use crate::text::str_eq;
use vstd::prelude::*;
use vstd::string::StringExecFns;

verus! {

/// The first label paired with `key` in `labels`, if any.
pub open spec fn spec_lookup(labels: Seq<(Seq<char>, Seq<char>)>, key: Seq<char>) -> Option<
    Seq<char>,
>
    decreases labels.len(),
{
    if labels.len() == 0 {
        None
    } else if labels[0].0 == key {
        Some(labels[0].1)
    } else {
        spec_lookup(labels.drop_first(), key)
    }
}

/// A scan that rejected the first `i` keys pins the lookup on the rest.
proof fn lemma_lookup_skip(labels: Seq<(Seq<char>, Seq<char>)>, key: Seq<char>, i: int)
    requires
        0 <= i <= labels.len(),
        forall|j: int| 0 <= j < i ==> (#[trigger] labels[j]).0 != key,
    ensures
        spec_lookup(labels, key) == spec_lookup(labels.skip(i), key),
    decreases i,
{
    if i > 0 {
        assert(labels[0].0 != key);
        assert(labels.drop_first() =~= labels.skip(1));
        assert(forall|j: int|
            0 <= j < i - 1 ==> (#[trigger] labels.skip(1)[j]).0 == labels[j + 1].0
                && labels[j + 1].0 != key);
        lemma_lookup_skip(labels.skip(1), key, i - 1);
        assert(labels.skip(1).skip(i - 1) =~= labels.skip(i));
    } else {
        assert(labels.skip(0) =~= labels);
    }
}

/// Looks `key` up in the label table.
pub fn lookup_label(labels: &Vec<(String, String)>, key: &str) -> (r: Option<String>)
    ensures
        match r {
            Some(l) => spec_lookup(labels.deep_view(), key@) == Some(l@),
            None => spec_lookup(labels.deep_view(), key@) is None,
        },
{
    let ghost lv = labels.deep_view();
    let n = labels.len();
    let mut j: usize = 0;
    while j < n
        invariant
            lv == labels.deep_view(),
            n == lv.len(),
            j <= n,
            forall|k: int| 0 <= k < j ==> (#[trigger] lv[k]).0 != key@,
        decreases n - j,
    {
        let p = &labels[j];
        proof {
            assert(lv[j as int] == (p.0@, p.1@));
        }
        if str_eq(p.0.as_str(), key) {
            proof {
                lemma_lookup_skip(lv, key@, j as int);
                assert(lv.skip(j as int)[0] == lv[j as int]);
            }
            return Some(p.1.clone());
        }
        j = j + 1;
    }
    proof {
        lemma_lookup_skip(lv, key@, n as int);
        assert(lv.skip(n as int).len() == 0);
    }
    None
}

/// The label table the process ships with: every field name of both report
/// kinds, with its display label.
pub open spec fn spec_default_labels() -> Seq<(Seq<char>, Seq<char>)> {
    seq![
        ("settlement_date"@, "受渡日"@),
        ("product"@, "商品"@),
        ("account"@, "口座"@),
        ("security_code"@, "銘柄コード"@),
        ("security_name"@, "銘柄名"@),
        ("currency"@, "受取通貨"@),
        ("unit_price"@, "単価"@),
        ("shares"@, "数量[株]"@),
        ("dividends_before_tax"@, "配当・分配金(税引前)"@),
        ("taxes"@, "税額"@),
        ("net_amount_received"@, "受取金額"@),
        ("total_dividends_before_tax"@, "配当・分配金合計(税引前)"@),
        ("total_taxes"@, "税額合計"@),
        ("total_net_amount_received"@, "受取金額合計"@),
        ("trade_date"@, "約定日"@),
        ("asked_price"@, "売却/決済単価[円]"@),
        ("proceeds"@, "売却/決済額[円]"@),
        ("purchase_price"@, "平均取得価額[円]"@),
        ("realized_profit_and_loss"@, "実現損益[円]"@),
        ("total_realized_profit_and_loss"@, "合計実現損益[円]"@),
        ("withholding_tax"@, "源泉徴収税額"@),
        ("profit_and_loss"@, "損益"@),
    ]
}

/// Builds the default label table.
pub fn default_labels() -> (r: Vec<(String, String)>)
    ensures
        r.deep_view() == spec_default_labels(),
{
    let mut r: Vec<(String, String)> = Vec::new();
    r.push((String::from_str("settlement_date"), String::from_str("受渡日")));
    r.push((String::from_str("product"), String::from_str("商品")));
    r.push((String::from_str("account"), String::from_str("口座")));
    r.push((String::from_str("security_code"), String::from_str("銘柄コード")));
    r.push((String::from_str("security_name"), String::from_str("銘柄名")));
    r.push((String::from_str("currency"), String::from_str("受取通貨")));
    r.push((String::from_str("unit_price"), String::from_str("単価")));
    r.push((String::from_str("shares"), String::from_str("数量[株]")));
    r.push((String::from_str("dividends_before_tax"), String::from_str("配当・分配金(税引前)")));
    r.push((String::from_str("taxes"), String::from_str("税額")));
    r.push((String::from_str("net_amount_received"), String::from_str("受取金額")));
    r.push((
        String::from_str("total_dividends_before_tax"),
        String::from_str("配当・分配金合計(税引前)"),
    ));
    r.push((String::from_str("total_taxes"), String::from_str("税額合計")));
    r.push((String::from_str("total_net_amount_received"), String::from_str("受取金額合計")));
    r.push((String::from_str("trade_date"), String::from_str("約定日")));
    r.push((String::from_str("asked_price"), String::from_str("売却/決済単価[円]")));
    r.push((String::from_str("proceeds"), String::from_str("売却/決済額[円]")));
    r.push((String::from_str("purchase_price"), String::from_str("平均取得価額[円]")));
    r.push((String::from_str("realized_profit_and_loss"), String::from_str("実現損益[円]")));
    r.push((
        String::from_str("total_realized_profit_and_loss"),
        String::from_str("合計実現損益[円]"),
    ));
    r.push((String::from_str("withholding_tax"), String::from_str("源泉徴収税額")));
    r.push((String::from_str("profit_and_loss"), String::from_str("損益")));
    proof {
        assert(r.deep_view() =~= spec_default_labels());
    }
    r
}


/// Every field name of both report kinds has a label in the default
/// table: lookups of all twenty-two names succeed.
pub proof fn lemma_default_labels_complete()
    ensures
        forall|i: int|
            0 <= i < spec_default_labels().len() ==> #[trigger] spec_lookup(
                spec_default_labels(),
                spec_default_labels()[i].0,
            ) is Some,
{
    let lv = spec_default_labels();
    assert forall|i: int| 0 <= i < lv.len() implies #[trigger] spec_lookup(lv, lv[i].0) is Some by {
        lemma_lookup_in_table(lv, i);
    };
}

/// A key that stands at some position of the table is found by lookup.
proof fn lemma_lookup_in_table(labels: Seq<(Seq<char>, Seq<char>)>, i: int)
    requires
        0 <= i < labels.len(),
    ensures
        spec_lookup(labels, labels[i].0) is Some,
    decreases i,
{
    if labels[0].0 == labels[i].0 {
    } else {
        assert(i > 0);
        assert(labels.drop_first()[i - 1] == labels[i]);
        lemma_lookup_in_table(labels.drop_first(), i - 1);
    }
}

} // verus!
