//! Raw-value conversions: boolean truthiness, numeral passthrough to the
//! typed converters, structured array and table conversion, and datetime
//! parsing through an outside parser.

use vstd::prelude::*;
use crate::literal::array_item_texts;
use crate::literal::array_items;
use crate::literal::table_pair_texts;
use crate::literal::table_pairs;
use crate::table::EnvTable;
use crate::table::pairs_to_map;
use crate::text::eq_fold;
use crate::text::lower;
use crate::text::trim_str;
use crate::text::trimmed;
use crate::TryFromEnv;

verus! {

/// Whether the text names truth: its trimmed, case-folded form is one of
/// the fixed truthy words. Anything else — including garbage — is false,
/// never an error.
pub open spec fn is_truthy(s: Seq<char>) -> bool {
    let t = lower(trimmed(s));
    t == seq!['t', 'r', 'u', 'e'] || t == seq!['t'] || t == seq!['1'] || t == seq!['y', 'e', 's']
        || t == seq!['y'] || t == seq!['o', 'k'] || t == seq!['e', 'n', 'a', 'b', 'l', 'e'] || t
        == seq!['e', 'n', 'a', 'b', 'l', 'e', 'd'] || t == seq!['a', 'c', 't', 'i', 'v', 'e'] || t
        == seq!['o', 'n']
}

/// Reads the text as a boolean by the truthy set.
pub fn to_bool(s: &str) -> (r: bool)
    ensures
        r == is_truthy(s@),
{
    let t = trim_str(s);
    proof {
        reveal_strlit("true");
        reveal_strlit("t");
        reveal_strlit("1");
        reveal_strlit("yes");
        reveal_strlit("y");
        reveal_strlit("ok");
        reveal_strlit("enable");
        reveal_strlit("enabled");
        reveal_strlit("active");
        reveal_strlit("on");
        assert(lower("true"@) =~= seq!['t', 'r', 'u', 'e']);
        assert(lower("t"@) =~= seq!['t']);
        assert(lower("1"@) =~= seq!['1']);
        assert(lower("yes"@) =~= seq!['y', 'e', 's']);
        assert(lower("y"@) =~= seq!['y']);
        assert(lower("ok"@) =~= seq!['o', 'k']);
        assert(lower("enable"@) =~= seq!['e', 'n', 'a', 'b', 'l', 'e']);
        assert(lower("enabled"@) =~= seq!['e', 'n', 'a', 'b', 'l', 'e', 'd']);
        assert(lower("active"@) =~= seq!['a', 'c', 't', 'i', 'v', 'e']);
        assert(lower("on"@) =~= seq!['o', 'n']);
    }
    eq_fold(t, "true") || eq_fold(t, "t") || eq_fold(t, "1") || eq_fold(t, "yes") || eq_fold(
        t,
        "y",
    ) || eq_fold(t, "ok") || eq_fold(t, "enable") || eq_fold(t, "enabled") || eq_fold(t, "active")
        || eq_fold(t, "on")
}

/// Converts the text to the target primitive type.
pub fn to_prim<T: TryFromEnv>(s: &str) -> (r: Result<T, T::Error>)
    ensures
        match r {
            Ok(v) => T::from_env_spec(s@) == Some(v.deep_view()),
            Err(e) => T::from_env_spec(s@) is None && e == T::env_err(),
        },
{
    T::try_from_env(s)
}

/// Every element text denotes a value of the target type.
pub open spec fn all_elems_ok<T: TryFromEnv>(items: Seq<Seq<char>>) -> bool {
    forall|i: int| 0 <= i < items.len() ==> T::from_env_spec(items[i]) is Some
}

/// The value (model) each element text denotes.
pub open spec fn elems_of<T: TryFromEnv>(items: Seq<Seq<char>>) -> Seq<T::V> {
    Seq::new(items.len(), |i: int| T::from_env_spec(items[i]).unwrap())
}

/// The sequence an array literal denotes for element type `T`, if any.
pub open spec fn vec_from_env_spec<T: TryFromEnv>(s: Seq<char>) -> Option<Seq<T::V>> {
    match array_item_texts(s) {
        Some(items) => if all_elems_ok::<T>(items) {
            Some(elems_of::<T>(items))
        } else {
            None
        },
        None => None,
    }
}

/// Reads the text as an array literal and converts every element to `T`.
#[verifier::rlimit(50)]
pub fn to_vec<T: TryFromEnv>(s: &str) -> (r: Result<Vec<T>, &'static str>)
    ensures
        match r {
            Ok(v) => vec_from_env_spec::<T>(s@) == Some(v.deep_view()),
            Err(e) => vec_from_env_spec::<T>(s@) is None && e == "parse error",
        },
{
    match array_items(s) {
        None => Err("parse error"),
        Some(items) => {
            let ghost itemsv = items.deep_view();
            let n = items.len();
            let mut out: Vec<T> = Vec::new();
            let ghost mut outm = Seq::<T::V>::empty();
            let mut j: usize = 0;
            proof {
                assert(out.deep_view() =~= outm);
            }
            while j < n
                invariant
                    0 <= j <= n,
                    n == items@.len(),
                    itemsv == items.deep_view(),
                    array_item_texts(s@) == Some(itemsv),
                    out@.len() == j,
                    outm.len() == j,
                    outm == out.deep_view(),
                    forall|k: int|
                        0 <= k < j ==> T::from_env_spec(#[trigger] itemsv[k]) is Some && outm[k]
                            == T::from_env_spec(itemsv[k]).unwrap(),
                decreases n - j,
            {
                proof {
                    assert(itemsv[j as int] == items@[j as int]@);
                }
                match T::try_from_env(items[j].as_str()) {
                    Err(_) => {
                        proof {
                            assert(T::from_env_spec(itemsv[j as int]) is None);
                            assert(!all_elems_ok::<T>(itemsv));
                        }
                        return Err("parse error");
                    },
                    Ok(v) => {
                        let ghost out_pre = out@;
                        let ghost vg = v;
                        out.push(v);
                        proof {
                            outm = outm.push(vg.deep_view());
                            assert(out@ == out_pre.push(vg));
                            assert(out.deep_view() =~= outm);
                            assert(T::from_env_spec(itemsv[j as int]) is Some);
                            assert(outm[j as int] == T::from_env_spec(itemsv[j as int]).unwrap());
                            assert forall|k: int|
                                0 <= k < j + 1 implies T::from_env_spec(
                                #[trigger] itemsv[k],
                            ) is Some && outm[k] == T::from_env_spec(itemsv[k]).unwrap() by {
                                if k < j {
                                    assert(outm[k] == outm.drop_last()[k]);
                                }
                            }
                        }
                    },
                }
                j = j + 1;
            }
            proof {
                assert(all_elems_ok::<T>(itemsv));
                assert(outm =~= elems_of::<T>(itemsv));
            }
            Ok(out)
        },
    }
}

/// Every pair's value text denotes a value of the target type.
pub open spec fn all_pair_vals_ok<T: TryFromEnv>(pairs: Seq<(Seq<char>, Seq<char>)>) -> bool {
    forall|i: int| 0 <= i < pairs.len() ==> T::from_env_spec(pairs[i].1) is Some
}

/// Each pair with its value text converted to the target type's model.
pub open spec fn pair_vals_of<T: TryFromEnv>(pairs: Seq<(Seq<char>, Seq<char>)>) -> Seq<
    (Seq<char>, T::V),
> {
    Seq::new(pairs.len(), |i: int| (pairs[i].0, T::from_env_spec(pairs[i].1).unwrap()))
}

/// The mapping an inline table literal denotes for value type `T`, if
/// any. Duplicate keys resolve last-wins.
pub open spec fn table_from_env_spec<T: TryFromEnv>(s: Seq<char>) -> Option<
    Map<Seq<char>, T::V>,
> {
    match table_pair_texts(s) {
        Some(pairs) => if all_pair_vals_ok::<T>(pairs) {
            Some(pairs_to_map(pair_vals_of::<T>(pairs)))
        } else {
            None
        },
        None => None,
    }
}

/// Reads the text as an inline table literal and converts every value to
/// `T`, a later pair overriding an earlier one of the same key.
#[verifier::rlimit(50)]
pub fn to_table<T: TryFromEnv>(s: &str) -> (r: Result<EnvTable<T>, &'static str>)
    ensures
        match r {
            Ok(v) => table_from_env_spec::<T>(s@) == Some(v.deep_view()),
            Err(e) => table_from_env_spec::<T>(s@) is None && e == "parse error",
        },
{
    match table_pairs(s) {
        None => Err("parse error"),
        Some(pairs) => {
            let ghost pv = pairs.deep_view();
            let n = pairs.len();
            let mut out: EnvTable<T> = EnvTable::new();
            let mut j: usize = 0;
            proof {
                assert(pair_vals_of::<T>(pv).take(0) =~= Seq::<(Seq<char>, T::V)>::empty());
            }
            while j < n
                invariant
                    0 <= j <= n,
                    n == pairs@.len(),
                    pv == pairs.deep_view(),
                    table_pair_texts(s@) == Some(pv),
                    forall|k: int| 0 <= k < j ==> T::from_env_spec(pv[k].1) is Some,
                    out.deep_view() == pairs_to_map(pair_vals_of::<T>(pv).take(j as int)),
                decreases n - j,
            {
                proof {
                    assert(pv[j as int] == (pairs@[j as int].0@, pairs@[j as int].1@));
                }
                match T::try_from_env(pairs[j].1.as_str()) {
                    Err(_) => {
                        proof {
                            assert(T::from_env_spec(pv[j as int].1) is None);
                            assert(!all_pair_vals_ok::<T>(pv));
                        }
                        return Err("parse error");
                    },
                    Ok(v) => {
                        let ghost vg = v;
                        let key = pairs[j].0.clone();
                        out.insert(key, v);
                        proof {
                            let pvals = pair_vals_of::<T>(pv);
                            assert(pvals.take(j + 1).drop_last() =~= pvals.take(j as int));
                            assert(pvals.take(j + 1).last() == pvals[j as int]);
                            assert(pvals[j as int] == (pv[j as int].0, vg.deep_view()));
                            assert(out.deep_view() == pairs_to_map(pvals.take(j + 1)));
                        }
                    },
                }
                j = j + 1;
            }
            proof {
                assert(all_pair_vals_ok::<T>(pv));
                assert(pair_vals_of::<T>(pv).take(n as int) =~= pair_vals_of::<T>(pv));
            }
            Ok(out)
        },
    }
}

/// Declares the outside datetime type so that signatures can carry it.
#[verifier::external_type_specification]
#[verifier::external_body]
pub struct ExDatetime(toml::value::Datetime);

/// Whether the text parses as a TOML datetime (a date, a time, or a date
/// and time with an optional offset). The parse depends on the text alone.
pub uninterp spec fn datetime_parses(s: Seq<char>) -> bool;

/// Relies on the `FromStr` parser of `toml::value::Datetime`: it reads
/// RFC 3339-style date, time, offset date-time and local date-time shapes
/// from the text alone, returns an error for every other text, and does
/// not panic.
#[verifier::external_body]
pub fn to_datetime(s: &str) -> (r: Result<toml::value::Datetime, &'static str>)
    ensures
        r is Ok <==> datetime_parses(s@),
{
    match s.parse::<toml::value::Datetime>() {
        Ok(d) => Ok(d),
        Err(_) => Err("parse error"),
    }
}

} // verus!
