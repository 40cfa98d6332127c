//! JSON values as `serde_json` parses them, read into the library's [`JsonValue`].
use vstd::prelude::*;
use crate::json::{entries_view, items_view, lemma_entries_view, lemma_items_view, JsonValue, JsonView};

verus! {

#[verifier::external_type_specification]
#[verifier::external_body]
pub struct ExJsonValue(serde_json::Value);

/// The value `serde_json::from_str` parses out of a text; none where the text is no JSON.
pub uninterp spec fn spec_parse_json(text: Seq<char>) -> Option<serde_json::Value>;

/// The member that `Value::get` finds under `key`: none unless the value is an object
/// with that key.
pub uninterp spec fn spec_value_get(v: serde_json::Value, key: Seq<char>) -> Option<serde_json::Value>;

/// The string that `Value::as_str` gives of a value: none unless it is a JSON string.
pub uninterp spec fn spec_value_as_str(v: serde_json::Value) -> Option<Seq<char>>;

/// The compact JSON text that `Value`'s `Display` writes of a value.
pub uninterp spec fn spec_value_text(v: serde_json::Value) -> Seq<char>;

/// `serde_json::from_str::<Value>`: the JSON value `text` holds, if it is JSON.
#[verifier::external_body]
pub(crate) fn parse_json(text: &str) -> (r: Option<serde_json::Value>)
    ensures
        r == spec_parse_json(text@),
{
    serde_json::from_str::<serde_json::Value>(text).ok()
}

/// `Value::get` with a key (a copy of the member).
#[verifier::external_body]
pub(crate) fn value_get(v: &serde_json::Value, key: &str) -> (r: Option<serde_json::Value>)
    ensures
        r == spec_value_get(*v, key@),
{
    v.get(key).cloned()
}

/// `Value::as_str` (a copy of the string).
#[verifier::external_body]
pub(crate) fn value_as_str(v: &serde_json::Value) -> (r: Option<String>)
    ensures
        match r {
            Some(s) => spec_value_as_str(*v) == Some(s@),
            None => spec_value_as_str(*v) is None,
        },
{
    v.as_str().map(|s| s.to_string())
}

/// `Value`'s `Display`: the value as compact JSON text.
#[verifier::external_body]
pub(crate) fn value_text(v: &serde_json::Value) -> (r: String)
    ensures
        r@ == spec_value_text(*v),
{
    v.to_string()
}

/// The value `serde_json::from_slice` parses out of bytes; none where they are no JSON.
/// Its parser refuses values nested more than 127 arrays or objects deep.
pub uninterp spec fn spec_parse_json_bytes(bytes: Seq<u8>) -> Option<serde_json::Value>;

/// Whether `Value::is_null` holds of a value.
pub uninterp spec fn spec_value_is_null(v: serde_json::Value) -> bool;

/// The boolean that `Value::as_bool` gives of a value: none unless it is a JSON boolean.
pub uninterp spec fn spec_value_as_bool(v: serde_json::Value) -> Option<bool>;

/// The text that `Number`'s `Display` writes of the number `Value::as_number` gives of a
/// value: none unless it is a JSON number.
pub uninterp spec fn spec_value_number_text(v: serde_json::Value) -> Option<Seq<char>>;

/// The items that `Value::as_array` gives of a value: none unless it is a JSON array.
pub uninterp spec fn spec_value_as_array(v: serde_json::Value) -> Option<Seq<serde_json::Value>>;

/// The entries, in the map's order, of the map that `Value::as_object` gives of a value:
/// none unless it is a JSON object.
pub uninterp spec fn spec_value_entries(v: serde_json::Value) -> Option<Seq<(Seq<char>, serde_json::Value)>>;

/// The library view of a `serde_json` value, reading at most `d` levels deep (a scalar
/// takes one level, an array or object one more than its deepest member): none where
/// the value is deeper.
pub open spec fn view_within(v: serde_json::Value, d: nat) -> Option<JsonView>
    decreases d, 0nat,
{
    if d == 0 {
        None
    } else if spec_value_is_null(v) {
        Some(JsonView::Null)
    } else if spec_value_as_bool(v) is Some {
        Some(JsonView::Bool(spec_value_as_bool(v)->Some_0))
    } else if spec_value_number_text(v) is Some {
        Some(JsonView::Number(spec_value_number_text(v)->Some_0))
    } else if spec_value_as_str(v) is Some {
        Some(JsonView::Str(spec_value_as_str(v)->Some_0))
    } else if spec_value_as_array(v) is Some {
        match items_within(spec_value_as_array(v)->Some_0, (d - 1) as nat) {
            Some(items) => Some(JsonView::Array(items)),
            None => None,
        }
    } else if spec_value_entries(v) is Some {
        match entries_within(spec_value_entries(v)->Some_0, (d - 1) as nat) {
            Some(e) => Some(JsonView::Object(e)),
            None => None,
        }
    } else {
        None
    }
}

/// The views of the items `items`, each read at most `d` levels deep: none where one is
/// deeper.
pub open spec fn items_within(items: Seq<serde_json::Value>, d: nat) -> Option<Seq<JsonView>>
    decreases d, items.len(),
{
    if items.len() == 0 {
        Some(Seq::empty())
    } else {
        match (items_within(items.drop_last(), d), view_within(items.last(), d)) {
            (Some(a), Some(x)) => Some(a.push(x)),
            _ => None,
        }
    }
}

/// The views of the entries `e`, each value read at most `d` levels deep: none where one
/// is deeper.
pub open spec fn entries_within(e: Seq<(Seq<char>, serde_json::Value)>, d: nat) -> Option<Seq<(Seq<char>, JsonView)>>
    decreases d, e.len(),
{
    if e.len() == 0 {
        Some(Seq::empty())
    } else {
        match (entries_within(e.drop_last(), d), view_within(e.last().1, d)) {
            (Some(a), Some(x)) => Some(a.push((e.last().0, x))),
            _ => None,
        }
    }
}

/// Items with one too deep stay too deep with more items after them.
proof fn lemma_items_within_none(items: Seq<serde_json::Value>, d: nat, n: int)
    requires
        0 <= n <= items.len(),
        items_within(items.take(n), d) is None,
    ensures
        items_within(items, d) is None,
    decreases items.len() - n,
{
    if n < items.len() {
        assert(items.take(n + 1).drop_last() =~= items.take(n));
        lemma_items_within_none(items, d, n + 1);
    } else {
        assert(items.take(n) =~= items);
    }
}

/// Entries with one too deep stay too deep with more entries after them.
proof fn lemma_entries_within_none(e: Seq<(Seq<char>, serde_json::Value)>, d: nat, n: int)
    requires
        0 <= n <= e.len(),
        entries_within(e.take(n), d) is None,
    ensures
        entries_within(e, d) is None,
    decreases e.len() - n,
{
    if n < e.len() {
        assert(e.take(n + 1).drop_last() =~= e.take(n));
        lemma_entries_within_none(e, d, n + 1);
    } else {
        assert(e.take(n) =~= e);
    }
}

/// How deep the library reads a parsed value: deep enough for every value that
/// `serde_json` parses.
pub open spec fn parse_depth() -> nat {
    128
}

/// The library view of a parsed `serde_json` value.
pub open spec fn json_view_of(v: serde_json::Value) -> JsonView {
    match view_within(v, parse_depth()) {
        Some(j) => j,
        None => JsonView::Null,
    }
}

/// `serde_json::from_slice::<Value>`: the JSON value `bytes` hold, if they are JSON. Every
/// value is null, a boolean, a number, a string, an array or an object, and the parser
/// refuses nesting deeper than 127 arrays or objects, so what it gives is read in full
/// within `parse_depth()` levels.
#[verifier::external_body]
pub(crate) fn parse_json_bytes(bytes: &[u8]) -> (r: Option<serde_json::Value>)
    ensures
        r == spec_parse_json_bytes(bytes@),
        r matches Some(v) ==> view_within(v, parse_depth()) is Some,
{
    serde_json::from_slice::<serde_json::Value>(bytes).ok()
}

/// `Value::is_null`.
#[verifier::external_body]
fn value_is_null(v: &serde_json::Value) -> (r: bool)
    ensures
        r == spec_value_is_null(*v),
{
    v.is_null()
}

/// `Value::as_bool`.
#[verifier::external_body]
fn value_as_bool(v: &serde_json::Value) -> (r: Option<bool>)
    ensures
        r == spec_value_as_bool(*v),
{
    v.as_bool()
}

/// `Value::as_number`, then `Number`'s `Display`: the number's JSON text.
#[verifier::external_body]
fn value_number_text(v: &serde_json::Value) -> (r: Option<String>)
    ensures
        match r {
            Some(s) => spec_value_number_text(*v) == Some(s@),
            None => spec_value_number_text(*v) is None,
        },
{
    v.as_number().map(|n| n.to_string())
}

/// `Value::as_array` (a copy of the items).
#[verifier::external_body]
fn value_as_array(v: &serde_json::Value) -> (r: Option<Vec<serde_json::Value>>)
    ensures
        match r {
            Some(items) => spec_value_as_array(*v) == Some(items@),
            None => spec_value_as_array(*v) is None,
        },
{
    v.as_array().cloned()
}

/// `Value::as_object`, its entries copied out in the map's order.
#[verifier::external_body]
fn value_entries(v: &serde_json::Value) -> (r: Option<Vec<(String, serde_json::Value)>>)
    ensures
        match r {
            Some(e) => spec_value_entries(*v) == Some(Seq::new(e@.len(), |i: int| (e@[i].0@, e@[i].1))),
            None => spec_value_entries(*v) is None,
        },
{
    v.as_object().map(|m| m.iter().map(|(k, x)| (k.clone(), x.clone())).collect())
}

/// The library value of a `serde_json` value, read at most `d` levels deep: none where
/// the value is deeper.
pub fn json_of_value(v: &serde_json::Value, d: usize) -> (r: Option<JsonValue>)
    ensures
        match r {
            Some(j) => view_within(*v, d as nat) == Some(j@),
            None => view_within(*v, d as nat) is None,
        },
    decreases d,
{
    if d == 0 {
        return None;
    }
    if value_is_null(v) {
        return Some(JsonValue::Null);
    }
    if let Some(b) = value_as_bool(v) {
        return Some(JsonValue::Bool(b));
    }
    if let Some(n) = value_number_text(v) {
        return Some(JsonValue::Number(n));
    }
    if let Some(s) = value_as_str(v) {
        return Some(JsonValue::Str(s));
    }
    let ghost dn: nat = (d as nat - 1) as nat;
    if let Some(items) = value_as_array(v) {
        let mut out: Vec<JsonValue> = Vec::new();
        let mut i: usize = 0;
        proof {
            assert(items@.take(0) =~= Seq::<serde_json::Value>::empty());
            lemma_items_view(out@);
            assert(items_view(out@) =~= Seq::<JsonView>::empty());
        }
        while i < items.len()
            invariant
                i <= items@.len(),
                d >= 1,
                !spec_value_is_null(*v),
                spec_value_as_bool(*v) is None,
                spec_value_number_text(*v) is None,
                spec_value_as_str(*v) is None,
                spec_value_as_array(*v) == Some(items@),
                dn == (d as nat - 1) as nat,
                items_within(items@.take(i as int), dn) == Some(items_view(out@)),
            decreases items@.len() - i,
        {
            let ghost before = out@;
            match json_of_value(&items[i], d - 1) {
                Some(j) => out.push(j),
                None => {
                    proof {
                        assert(items@.take(i + 1).drop_last() =~= items@.take(i as int));
                        lemma_items_within_none(items@, dn, i + 1);
                    }
                    return None;
                },
            }
            proof {
                assert(items@.take(i + 1).drop_last() =~= items@.take(i as int));
                assert(out@.drop_last() =~= before);
                assert(items_view(out@) == items_view(before).push(out@.last()@));
            }
            i = i + 1;
        }
        proof {
            assert(items@.take(items@.len() as int) =~= items@);
        }
        return Some(JsonValue::Array(out));
    }
    if let Some(e) = value_entries(v) {
        let ghost ev = Seq::new(e@.len(), |t: int| (e@[t].0@, e@[t].1));
        assert(spec_value_entries(*v) == Some(ev));
        let mut out: Vec<(String, JsonValue)> = Vec::new();
        let mut i: usize = 0;
        proof {
            assert(ev.take(0) =~= Seq::<(Seq<char>, serde_json::Value)>::empty());
            lemma_entries_view(out@);
            assert(entries_view(out@) =~= Seq::<(Seq<char>, JsonView)>::empty());
        }
        while i < e.len()
            invariant
                i <= e@.len(),
                d >= 1,
                !spec_value_is_null(*v),
                spec_value_as_bool(*v) is None,
                spec_value_number_text(*v) is None,
                spec_value_as_str(*v) is None,
                spec_value_as_array(*v) is None,
                spec_value_entries(*v) == Some(ev),
                dn == (d as nat - 1) as nat,
                ev.len() == e@.len(),
                forall|t: int| 0 <= t < e@.len() ==> #[trigger] ev[t] == (e@[t].0@, e@[t].1),
                entries_within(ev.take(i as int), dn) == Some(entries_view(out@)),
            decreases e@.len() - i,
        {
            let ghost before = out@;
            let (k, x) = &e[i];
            match json_of_value(x, d - 1) {
                Some(j) => out.push((k.clone(), j)),
                None => {
                    proof {
                        assert(ev.take(i + 1).drop_last() =~= ev.take(i as int));
                        assert(ev.take(i + 1).last() == ev[i as int]);
                        lemma_entries_within_none(ev, dn, i + 1);
                    }
                    return None;
                },
            }
            proof {
                assert(ev.take(i + 1).drop_last() =~= ev.take(i as int));
                assert(ev.take(i + 1).last() == ev[i as int]);
                assert(out@.drop_last() =~= before);
                assert(entries_view(out@) == entries_view(before).push((out@.last().0@, out@.last().1@)));
            }
            i = i + 1;
        }
        proof {
            assert(ev.take(e@.len() as int) =~= ev);
        }
        return Some(JsonValue::Object(out));
    }
    None
}

} // verus!
