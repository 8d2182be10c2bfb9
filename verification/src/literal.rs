//! The inline literal grammar for structured values: bracketed arrays
//! (`[v1, v2, ...]`, trailing comma allowed) and single-level inline tables
//! (`{ key = value, ... }`, bare or quoted keys, no trailing comma).
//!
//! The grammar hands out the text of each element or pair; turning those
//! texts into typed values is the element converters' business.

use vstd::prelude::*;
use crate::scan::balanced;
use crate::scan::split_str;
use crate::scan::split_top;
use crate::text::trim_str;
use crate::text::trimmed;

verus! {

/// Every element text, once trimmed, is non-empty.
pub open spec fn all_items_present(items: Seq<Seq<char>>) -> bool {
    forall|i: int| 0 <= i < items.len() ==> trimmed(items[i]).len() > 0
}

/// Each element text, trimmed.
pub open spec fn items_trimmed(items: Seq<Seq<char>>) -> Seq<Seq<char>> {
    items.map_values(|p: Seq<char>| trimmed(p))
}

/// The element texts of an array literal: the text between the brackets,
/// split at top-level commas, each element trimmed. A trailing comma is
/// allowed; an empty element or unbalanced text is malformed.
pub open spec fn array_item_texts(s: Seq<char>) -> Option<Seq<Seq<char>>> {
    let t = trimmed(s);
    if t.len() >= 2 && t[0] == '[' && t[t.len() - 1] == ']' {
        let inner = t.subrange(1, t.len() - 1);
        if trimmed(inner).len() == 0 {
            Some(Seq::<Seq<char>>::empty())
        } else if !balanced(inner) {
            None
        } else {
            let parts = split_top(',', inner);
            let kept = if parts.len() >= 2 && trimmed(parts.last()).len() == 0 {
                parts.drop_last()
            } else {
                parts
            };
            if all_items_present(kept) {
                Some(items_trimmed(kept))
            } else {
                None
            }
        }
    } else {
        None
    }
}

/// Characters allowed in a bare (unquoted) key.
pub open spec fn is_bare_key_char(c: char) -> bool {
    ('a' <= c && c <= 'z') || ('A' <= c && c <= 'Z') || ('0' <= c && c <= '9') || c == '_' || c
        == '-'
}

/// The key a key literal denotes: a quoted key is the text between its
/// quotes, taken verbatim (no escapes; a backslash or an inner quote is
/// malformed); a bare key is its own trimmed text.
pub open spec fn key_text(k0: Seq<char>) -> Option<Seq<char>> {
    let t = trimmed(k0);
    if t.len() >= 2 && ((t[0] == '"' && t[t.len() - 1] == '"') || (t[0] == '\'' && t[t.len() - 1]
        == '\'')) {
        let inner = t.subrange(1, t.len() - 1);
        if forall|i: int| 0 <= i < inner.len() ==> inner[i] != t[0] && !(t[0] == '"' && inner[i]
            == '\\') {
            Some(inner)
        } else {
            None
        }
    } else if t.len() > 0 && (forall|i: int| 0 <= i < t.len() ==> is_bare_key_char(t[i])) {
        Some(t)
    } else {
        None
    }
}

/// The key and value texts of one `key = value` pair: split at the single
/// top-level equals sign; the value text is trimmed and must not be empty.
pub open spec fn pair_text(p: Seq<char>) -> Option<(Seq<char>, Seq<char>)> {
    let halves = split_top('=', p);
    if halves.len() == 2 {
        match key_text(halves[0]) {
            Some(k) => {
                let v = trimmed(halves[1]);
                if v.len() > 0 {
                    Some((k, v))
                } else {
                    None
                }
            },
            None => None,
        }
    } else {
        None
    }
}

/// Every piece reads as a well-formed pair.
pub open spec fn all_pairs_present(parts: Seq<Seq<char>>) -> bool {
    forall|i: int| 0 <= i < parts.len() ==> pair_text(parts[i]) is Some
}

/// The pair each piece reads as.
pub open spec fn pairs_read(parts: Seq<Seq<char>>) -> Seq<(Seq<char>, Seq<char>)> {
    parts.map_values(|p: Seq<char>| pair_text(p).unwrap())
}

/// The pair texts of an inline table literal: the text between the braces,
/// split at top-level commas, each piece read as a `key = value` pair.
/// The pairs come in written order; duplicate keys are not rejected here.
pub open spec fn table_pair_texts(s: Seq<char>) -> Option<Seq<(Seq<char>, Seq<char>)>> {
    let t = trimmed(s);
    if t.len() >= 2 && t[0] == '{' && t[t.len() - 1] == '}' {
        let inner = t.subrange(1, t.len() - 1);
        if trimmed(inner).len() == 0 {
            Some(Seq::<(Seq<char>, Seq<char>)>::empty())
        } else if !balanced(inner) {
            None
        } else {
            let parts = split_top(',', inner);
            if all_pairs_present(parts) {
                Some(pairs_read(parts))
            } else {
                None
            }
        }
    } else {
        None
    }
}

/// Tests whether a character may stand in a bare key.
fn bare_key_check(c: char) -> (r: bool)
    ensures
        r == is_bare_key_char(c),
{
    ('a' <= c && c <= 'z') || ('A' <= c && c <= 'Z') || ('0' <= c && c <= '9') || c == '_' || c
        == '-'
}

/// Reads the element texts of an array literal.
#[verifier::rlimit(30)]
pub fn array_items(s: &str) -> (r: Option<Vec<String>>)
    ensures
        r.deep_view() == array_item_texts(s@),
{
    let t = trim_str(s);
    let n = t.unicode_len();
    if n < 2 {
        return None;
    }
    if t.get_char(0) != '[' || t.get_char(n - 1) != ']' {
        return None;
    }
    let inner = t.substring_char(1, n - 1);
    let itr = trim_str(inner);
    if itr.unicode_len() == 0 {
        let out: Vec<String> = Vec::new();
        proof {
            assert(out.deep_view() =~= Seq::<Seq<char>>::empty());
        }
        return Some(out);
    }
    let (parts, ok) = split_str(inner, ',');
    if !ok {
        return None;
    }
    let ghost parts0 = split_top(',', inner@);
    let mut kept = parts;
    if kept.len() >= 2 {
        let last_trim = trim_str(kept[kept.len() - 1].as_str());
        proof {
            assert(kept.deep_view()[kept@.len() - 1] == kept@[kept@.len() - 1]@);
            assert(last_trim@ == trimmed(parts0.last()));
        }
        if last_trim.unicode_len() == 0 {
            kept.pop();
            proof {
                assert(kept.deep_view() =~= parts0.drop_last());
            }
        } else {
            proof {
                assert(trimmed(parts0.last()).len() != 0);
            }
        }
    }
    let ghost keptv = kept.deep_view();
    proof {
        if parts0.len() >= 2 && trimmed(parts0.last()).len() == 0 {
            assert(keptv == parts0.drop_last());
        } else {
            assert(keptv == parts0);
        }
        assert(array_item_texts(s@) == (if all_items_present(keptv) {
            Some(items_trimmed(keptv))
        } else {
            None::<Seq<Seq<char>>>
        }));
    }
    let m = kept.len();
    let mut out: Vec<String> = Vec::new();
    let mut j: usize = 0;
    while j < m
        invariant
            0 <= j <= m,
            m == keptv.len(),
            keptv == kept.deep_view(),
            m == kept@.len(),
            out@.len() == j,
            array_item_texts(s@) == (if all_items_present(keptv) {
                Some(items_trimmed(keptv))
            } else {
                None::<Seq<Seq<char>>>
            }),
            forall|k: int|
                0 <= k < j ==> trimmed(keptv[k]).len() > 0 && out@[k]@ == trimmed(keptv[k]),
        decreases m - j,
    {
        let tj = trim_str(kept[j].as_str());
        proof {
            assert(keptv[j as int] == kept@[j as int]@);
            assert(tj@ == trimmed(keptv[j as int]));
        }
        if tj.unicode_len() == 0 {
            proof {
                assert(trimmed(keptv[j as int]).len() == 0);
                assert(!all_items_present(keptv));
            }
            return None;
        }
        let ghost out_pre = out@;
        let tjo = tj.to_owned();
        let ghost tjg = tjo;
        out.push(tjo);
        proof {
            assert(out@ == out_pre.push(tjg));
            assert(out@[j as int]@ == trimmed(keptv[j as int]));
            assert(forall|k: int| 0 <= k < j ==> out@[k] == out_pre[k]);
        }
        j = j + 1;
    }
    proof {
        assert forall|i: int| 0 <= i < keptv.len() implies trimmed(keptv[i]).len() > 0 by {
            assert(trimmed(keptv[i]).len() > 0 && out@[i]@ == trimmed(keptv[i]));
        }
        assert(all_items_present(keptv));
        assert forall|i: int|
            0 <= i < keptv.len() implies out.deep_view()[i] == items_trimmed(keptv)[i] by {
            assert(out.deep_view()[i] == out@[i]@);
            assert(out@[i]@ == trimmed(keptv[i]));
        }
        assert(out.deep_view() =~= items_trimmed(keptv));
    }
    Some(out)
}

/// Reads the key a key literal denotes.
fn key_of(k: &str) -> (r: Option<String>)
    ensures
        r.deep_view() == key_text(k@),
{
    let t = trim_str(k);
    let n = t.unicode_len();
    if n >= 2 {
        let q = t.get_char(0);
        let e = t.get_char(n - 1);
        if (q == '"' && e == '"') || (q == '\'' && e == '\'') {
            let ghost inner = t@.subrange(1, n - 1);
            proof {
                assert(key_text(k@) == (if (forall|j: int|
                    0 <= j < inner.len() ==> inner[j] != q && !(q == '"' && inner[j] == '\\')) {
                    Some(inner)
                } else {
                    None::<Seq<char>>
                }));
            }
            let mut i: usize = 1;
            while i < n - 1
                invariant
                    1 <= i <= n - 1,
                    2 <= n == t@.len(),
                    q == t@[0],
                    inner == t@.subrange(1, n - 1),
                    key_text(k@) == (if (forall|j: int|
                        0 <= j < inner.len() ==> inner[j] != q && !(q == '"' && inner[j]
                            == '\\')) {
                        Some(inner)
                    } else {
                        None::<Seq<char>>
                    }),
                    forall|j: int|
                        0 <= j < i - 1 ==> inner[j] != q && !(q == '"' && inner[j] == '\\'),
                decreases n - 1 - i,
            {
                let c = t.get_char(i);
                if c == q || (q == '"' && c == '\\') {
                    proof {
                        assert(inner[i - 1] == t@[i as int]);
                    }
                    return None;
                }
                i = i + 1;
            }
            return Some(t.substring_char(1, n - 1).to_owned());
        }
    }
    proof {
        assert(key_text(k@) == (if t@.len() > 0 && (forall|j: int|
            0 <= j < t@.len() ==> is_bare_key_char(t@[j])) {
            Some(t@)
        } else {
            None::<Seq<char>>
        }));
    }
    let mut i: usize = 0;
    while i < n
        invariant
            0 <= i <= n,
            n == t@.len(),
            key_text(k@) == (if t@.len() > 0 && (forall|j: int|
                0 <= j < t@.len() ==> is_bare_key_char(t@[j])) {
                Some(t@)
            } else {
                None::<Seq<char>>
            }),
            forall|j: int| 0 <= j < i ==> is_bare_key_char(t@[j]),
        decreases n - i,
    {
        if !bare_key_check(t.get_char(i)) {
            return None;
        }
        i = i + 1;
    }
    if n == 0 {
        return None;
    }
    Some(t.to_owned())
}

/// Reads one `key = value` pair.
fn pair_of(p: &str) -> (r: Option<(String, String)>)
    ensures
        r.deep_view() == pair_text(p@),
{
    let (halves, _ok) = split_str(p, '=');
    if halves.len() != 2 {
        return None;
    }
    match key_of(halves[0].as_str()) {
        None => None,
        Some(k) => {
            let v = trim_str(halves[1].as_str());
            if v.unicode_len() == 0 {
                None
            } else {
                Some((k, v.to_owned()))
            }
        },
    }
}

/// Reads the key and value texts of an inline table literal.
#[verifier::rlimit(30)]
pub fn table_pairs(s: &str) -> (r: Option<Vec<(String, String)>>)
    ensures
        r.deep_view() == table_pair_texts(s@),
{
    let t = trim_str(s);
    let n = t.unicode_len();
    if n < 2 {
        return None;
    }
    if t.get_char(0) != '{' || t.get_char(n - 1) != '}' {
        return None;
    }
    let inner = t.substring_char(1, n - 1);
    let itr = trim_str(inner);
    if itr.unicode_len() == 0 {
        let out: Vec<(String, String)> = Vec::new();
        proof {
            assert(out.deep_view() =~= Seq::<(Seq<char>, Seq<char>)>::empty());
        }
        return Some(out);
    }
    let (parts, ok) = split_str(inner, ',');
    if !ok {
        return None;
    }
    let ghost partsv = parts.deep_view();
    proof {
        assert(table_pair_texts(s@) == (if all_pairs_present(partsv) {
            Some(pairs_read(partsv))
        } else {
            None::<Seq<(Seq<char>, Seq<char>)>>
        }));
    }
    let m = parts.len();
    let mut out: Vec<(String, String)> = Vec::new();
    let mut j: usize = 0;
    while j < m
        invariant
            0 <= j <= m,
            m == partsv.len(),
            partsv == parts.deep_view(),
            m == parts@.len(),
            out@.len() == j,
            table_pair_texts(s@) == (if all_pairs_present(partsv) {
                Some(pairs_read(partsv))
            } else {
                None::<Seq<(Seq<char>, Seq<char>)>>
            }),
            forall|k: int|
                0 <= k < j ==> pair_text(partsv[k]) is Some && (out@[k].0@, out@[k].1@)
                    == pair_text(partsv[k]).unwrap(),
        decreases m - j,
    {
        proof {
            assert(partsv[j as int] == parts@[j as int]@);
        }
        match pair_of(parts[j].as_str()) {
            None => {
                proof {
                    assert(pair_text(partsv[j as int]) is None);
                    assert(!all_pairs_present(partsv));
                }
                return None;
            },
            Some(kv) => {
                let ghost out_pre = out@;
                let ghost kvg = kv;
                out.push(kv);
                proof {
                    assert(out@ == out_pre.push(kvg));
                    assert((out@[j as int].0@, out@[j as int].1@) == pair_text(
                        partsv[j as int],
                    ).unwrap());
                    assert(forall|k: int| 0 <= k < j ==> out@[k] == out_pre[k]);
                }
            },
        }
        j = j + 1;
    }
    proof {
        assert forall|i: int| 0 <= i < partsv.len() implies pair_text(partsv[i]) is Some by {
            assert(pair_text(partsv[i]) is Some && (out@[i].0@, out@[i].1@) == pair_text(
                partsv[i],
            ).unwrap());
        }
        assert(all_pairs_present(partsv));
        assert forall|i: int|
            0 <= i < partsv.len() implies out.deep_view()[i] == pairs_read(partsv)[i] by {
            assert(out.deep_view()[i] == (out@[i].0@, out@[i].1@));
            assert((out@[i].0@, out@[i].1@) == pair_text(partsv[i]).unwrap());
        }
        assert(out.deep_view() =~= pairs_read(partsv));
    }
    Some(out)
}

} // verus!
