//! JSON values as the relay and the webhook payloads handle them: objects keep their
//! entries in order, numbers keep the text they are written with.
use vstd::prelude::*;

verus! {

/// A JSON value.
#[derive(Debug)]
pub enum JsonValue {
    Null,
    Bool(bool),
    /// A number, by its JSON text (e.g. `12`, `-3`, `1.5e3`).
    Number(String),
    Str(String),
    Array(Vec<JsonValue>),
    /// An object's entries in order.
    Object(Vec<(String, JsonValue)>),
}

/// The mathematical value of a JSON value: strings as their chars.
pub enum JsonView {
    Null,
    Bool(bool),
    Number(Seq<char>),
    Str(Seq<char>),
    Array(Seq<JsonView>),
    Object(Seq<(Seq<char>, JsonView)>),
}

/// The view of a JSON value.
pub open spec fn json_view(v: JsonValue) -> JsonView
    decreases v,
{
    match v {
        JsonValue::Null => JsonView::Null,
        JsonValue::Bool(b) => JsonView::Bool(b),
        JsonValue::Number(n) => JsonView::Number(n@),
        JsonValue::Str(s) => JsonView::Str(s@),
        JsonValue::Array(items) => JsonView::Array(items_view(items@)),
        JsonValue::Object(entries) => JsonView::Object(entries_view(entries@)),
    }
}

/// The views of the items of an array.
pub open spec fn items_view(s: Seq<JsonValue>) -> Seq<JsonView>
    decreases s,
{
    if s.len() == 0 {
        Seq::empty()
    } else {
        items_view(s.drop_last()).push(json_view(s.last()))
    }
}

/// The views of the entries of an object.
pub open spec fn entries_view(s: Seq<(String, JsonValue)>) -> Seq<(Seq<char>, JsonView)>
    decreases s,
{
    if s.len() == 0 {
        Seq::empty()
    } else {
        entries_view(s.drop_last()).push((s.last().0@, json_view(s.last().1)))
    }
}

impl View for JsonValue {
    type V = JsonView;

    open spec fn view(&self) -> JsonView {
        json_view(*self)
    }
}

/// `items_view` maps each item to its view.
pub proof fn lemma_items_view(s: Seq<JsonValue>)
    ensures
        items_view(s).len() == s.len(),
        forall|i: int| 0 <= i < s.len() ==> #[trigger] items_view(s)[i] == json_view(s[i]),
    decreases s.len(),
{
    if s.len() > 0 {
        lemma_items_view(s.drop_last());
    }
}

/// `entries_view` maps each entry to its key's chars and its value's view.
pub proof fn lemma_entries_view(s: Seq<(String, JsonValue)>)
    ensures
        entries_view(s).len() == s.len(),
        forall|i: int| 0 <= i < s.len() ==> #[trigger] entries_view(s)[i] == (s[i].0@, json_view(s[i].1)),
    decreases s.len(),
{
    if s.len() > 0 {
        lemma_entries_view(s.drop_last());
    }
}

/// An item of an array is smaller than the array.
pub proof fn lemma_item_decreases(items: Seq<JsonValue>, i: int)
    requires
        0 <= i < items.len(),
    ensures
        decreases_to!(JsonView::Array(items_view(items)) => json_view(items[i])),
{
    lemma_items_view(items);
    let arr = JsonView::Array(items_view(items));
    assert(decreases_to!(arr => arr->Array_0));
    assert(decreases_to!(arr->Array_0 => arr->Array_0[i]));
}

/// The value of an entry of an object is smaller than the object.
pub proof fn lemma_entry_decreases(entries: Seq<(String, JsonValue)>, i: int)
    requires
        0 <= i < entries.len(),
    ensures
        decreases_to!(JsonView::Object(entries_view(entries)) => json_view(entries[i].1)),
{
    lemma_entries_view(entries);
    let obj = JsonView::Object(entries_view(entries));
    assert(decreases_to!(obj => obj->Object_0));
    assert(decreases_to!(obj->Object_0 => obj->Object_0[i]));
    assert(decreases_to!(obj->Object_0[i] => obj->Object_0[i].1));
}

/// Whether `a` and `b` are the same JSON value.
pub fn json_eq(a: &JsonValue, b: &JsonValue) -> (r: bool)
    ensures
        r == (a@ == b@),
    decreases a@,
{
    match (a, b) {
        (JsonValue::Null, JsonValue::Null) => true,
        (JsonValue::Bool(x), JsonValue::Bool(y)) => *x == *y,
        (JsonValue::Number(x), JsonValue::Number(y)) => *x == *y,
        (JsonValue::Str(x), JsonValue::Str(y)) => *x == *y,
        (JsonValue::Array(x), JsonValue::Array(y)) => {
            proof {
                lemma_items_view(x@);
                lemma_items_view(y@);
                assert(a@ == JsonView::Array(items_view(x@)));
                assert(b@ == JsonView::Array(items_view(y@)));
            }
            if x.len() != y.len() {
                return false;
            }
            let mut i: usize = 0;
            while i < x.len()
                invariant
                    x@.len() == y@.len(),
                    i <= x@.len(),
                    a@ == JsonView::Array(items_view(x@)),
                    b@ == JsonView::Array(items_view(y@)),
                    items_view(x@).len() == x@.len(),
                    items_view(y@).len() == y@.len(),
                    forall|j: int| 0 <= j < x@.len() ==> #[trigger] items_view(x@)[j] == json_view(x@[j]),
                    forall|j: int| 0 <= j < y@.len() ==> #[trigger] items_view(y@)[j] == json_view(y@[j]),
                    forall|j: int| 0 <= j < i ==> json_view(x@[j]) == json_view(y@[j]),
                decreases x@.len() - i,
            {
                proof {
                    lemma_item_decreases(x@, i as int);
                }
                if !json_eq(&x[i], &y[i]) {
                    assert(items_view(x@)[i as int] != items_view(y@)[i as int]);
                    return false;
                }
                i = i + 1;
            }
            assert(items_view(x@) =~= items_view(y@));
            true
        },
        (JsonValue::Object(x), JsonValue::Object(y)) => {
            proof {
                lemma_entries_view(x@);
                lemma_entries_view(y@);
                assert(a@ == JsonView::Object(entries_view(x@)));
                assert(b@ == JsonView::Object(entries_view(y@)));
            }
            if x.len() != y.len() {
                return false;
            }
            let mut i: usize = 0;
            while i < x.len()
                invariant
                    x@.len() == y@.len(),
                    i <= x@.len(),
                    a@ == JsonView::Object(entries_view(x@)),
                    b@ == JsonView::Object(entries_view(y@)),
                    entries_view(x@).len() == x@.len(),
                    entries_view(y@).len() == y@.len(),
                    forall|j: int| 0 <= j < x@.len() ==> #[trigger] entries_view(x@)[j] == (x@[j].0@, json_view(x@[j].1)),
                    forall|j: int| 0 <= j < y@.len() ==> #[trigger] entries_view(y@)[j] == (y@[j].0@, json_view(y@[j].1)),
                    forall|j: int| 0 <= j < i ==> entries_view(x@)[j] == entries_view(y@)[j],
                decreases x@.len() - i,
            {
                proof {
                    lemma_entry_decreases(x@, i as int);
                }
                if !(x[i].0 == y[i].0) {
                    assert(entries_view(x@)[i as int] != entries_view(y@)[i as int]);
                    return false;
                }
                if !json_eq(&x[i].1, &y[i].1) {
                    assert(entries_view(x@)[i as int] != entries_view(y@)[i as int]);
                    return false;
                }
                i = i + 1;
            }
            assert(entries_view(x@) =~= entries_view(y@));
            true
        },
        _ => false,
    }
}

impl PartialEq for JsonValue {
    fn eq(&self, other: &Self) -> (r: bool) {
        json_eq(self, other)
    }
}

impl vstd::std_specs::cmp::PartialEqSpecImpl for JsonValue {
    open spec fn obeys_eq_spec() -> bool {
        true
    }

    open spec fn eq_spec(&self, other: &Self) -> bool {
        self@ == other@
    }
}

/// A copy of a JSON value.
pub fn json_clone(v: &JsonValue) -> (r: JsonValue)
    ensures
        r@ == v@,
    decreases v,
{
    match v {
        JsonValue::Null => JsonValue::Null,
        JsonValue::Bool(b) => JsonValue::Bool(*b),
        JsonValue::Number(n) => JsonValue::Number(n.clone()),
        JsonValue::Str(s) => JsonValue::Str(s.clone()),
        JsonValue::Array(items) => {
            let mut out: Vec<JsonValue> = Vec::new();
            let mut i: usize = 0;
            while i < items.len()
                invariant
                    i <= items@.len(),
                    *v == JsonValue::Array(*items),
                    out@.len() == i,
                    forall|t: int| 0 <= t < i ==> (#[trigger] out@[t])@ == items@[t]@,
                decreases items@.len() - i,
            {
                assert(decreases_to!(*v => v->Array_0));
                assert(decreases_to!(*items => items@));
                assert(decreases_to!(items@ => items@[i as int]));
                out.push(json_clone(&items[i]));
                i = i + 1;
            }
            proof {
                lemma_items_view(out@);
                lemma_items_view(items@);
                assert(items_view(out@) =~= items_view(items@));
            }
            JsonValue::Array(out)
        },
        JsonValue::Object(entries) => {
            let mut out: Vec<(String, JsonValue)> = Vec::new();
            let mut i: usize = 0;
            while i < entries.len()
                invariant
                    i <= entries@.len(),
                    *v == JsonValue::Object(*entries),
                    out@.len() == i,
                    forall|t: int| 0 <= t < i ==> (#[trigger] out@[t]).0@ == entries@[t].0@ && out@[t].1@ == entries@[t].1@,
                decreases entries@.len() - i,
            {
                assert(decreases_to!(*v => v->Object_0));
                assert(decreases_to!(*entries => entries@));
                assert(decreases_to!(entries@ => entries@[i as int]));
                assert(decreases_to!(entries@[i as int] => entries@[i as int].1));
                let (k, x) = &entries[i];
                out.push((k.clone(), json_clone(x)));
                i = i + 1;
            }
            proof {
                lemma_entries_view(out@);
                lemma_entries_view(entries@);
                assert(entries_view(out@) =~= entries_view(entries@));
            }
            JsonValue::Object(out)
        },
    }
}

} // verus!
