//! The TRMNL webhook payload: what `merge_variables` carries to the plugin.
use vstd::prelude::*;
use crate::json::{entries_view, items_view, lemma_entries_view, lemma_items_view, JsonValue, JsonView};
use crate::relay::{deep_merge_view, find_from, find_key, get_field, lemma_find_from, merge_entries, merged_view, pushed_state, MergeStrategy};
use crate::sbuffer::SBuffer;
use crate::text::{decimal, push_decimal, string_from_chars};

verus! {

/// The `data` object of the single-size payload sent by the CLI.
#[derive(Debug, Clone)]
pub struct WebhookPayload {
    pub data: WebhookPayloadData,
}

/// Width and scale of the terminal, the optional bottom bar and the SBuffer content.
#[derive(Debug, Clone)]
pub struct WebhookPayloadData {
    pub width: u16,
    pub scale: u8,
    pub bar: Option<WebhookPayloadBar>,
    pub content: String,
}

/// The bottom bar: left title, right (instance) title and icon URL.
#[derive(Debug, Clone)]
pub struct WebhookPayloadBar {
    pub left: Option<String>,
    pub right: Option<String>,
    pub icon: Option<String>,
}

/// One rendering of a capture at a specific terminal size. Several of these may be sent
/// in a single payload (see [`WebhookPayloadDataMulti`]) so that the plugin can pick the
/// one that best fits the screen space it is given.
#[derive(Debug, Clone)]
pub struct WebhookPayloadVariant {
    /// Arbitrary identifier for this size, e.g. `"trmnl-og-landscape-x1"`.
    pub id: String,
    pub width: u16,
    pub scale: u8,
    pub content: String,
}

/// The payload shape sent by the scheduler: a shared bottom bar plus a set of size
/// variants.
#[derive(Debug, Clone)]
pub struct WebhookPayloadDataMulti {
    pub bar: Option<WebhookPayloadBar>,
    pub variants: Vec<WebhookPayloadVariant>,
}

/// The payload for a snapshot of a terminal `width` cells wide shown at `scale`, with the
/// optional bar: its content is the SBuffer string of the snapshot.
pub fn make(width: u16, scale: u8, bar: Option<WebhookPayloadBar>, snapshot: SBuffer) -> (r: WebhookPayload)
    ensures
        r.data.width == width,
        r.data.scale == scale,
        r.data.bar == bar,
        r.data.content@ == snapshot@.0,
{
    WebhookPayload { data: WebhookPayloadData { width, scale, bar, content: snapshot.to_string() } }
}

impl WebhookPayloadBar {
    /// The bar with the given parts; no bar at all when none of them is given.
    pub fn new(left: Option<String>, right: Option<String>, icon: Option<String>) -> (r: Option<Self>)
        ensures
            (left is None && right is None && icon is None) ==> r is None,
            !(left is None && right is None && icon is None) ==> r == Some(
                WebhookPayloadBar { left: left, right: right, icon: icon },
            ),
    {
        if left.is_none() && right.is_none() && icon.is_none() {
            None
        } else {
            Some(Self { left, right, icon })
        }
    }
}

// ---------------------------------------------------------------------------
// The JSON bodies sent to the webhook
// ---------------------------------------------------------------------------

/// A JSON number written in decimal.
pub open spec fn num_view(n: nat) -> JsonView {
    JsonView::Number(decimal(n))
}

/// An optional string: the string, or `null`.
pub open spec fn opt_str_view(o: Option<String>) -> JsonView {
    match o {
        Some(s) => JsonView::Str(s@),
        None => JsonView::Null,
    }
}

/// The bar: `null` when there is none, else an object with `left`, `right` and `icon`.
pub open spec fn bar_view(bar: Option<WebhookPayloadBar>) -> JsonView {
    match bar {
        None => JsonView::Null,
        Some(b) => JsonView::Object(seq![
            ("left"@, opt_str_view(b.left)),
            ("right"@, opt_str_view(b.right)),
            ("icon"@, opt_str_view(b.icon)),
        ]),
    }
}

/// An object with the single entry `key: value`.
pub open spec fn single(key: Seq<char>, value: JsonView) -> JsonView {
    JsonView::Object(seq![(key, value)])
}

/// The `data` object of a payload: `width`, `scale`, `bar` and `content`.
pub open spec fn data_view(d: WebhookPayloadData) -> JsonView {
    JsonView::Object(seq![
        ("width"@, num_view(d.width as nat)),
        ("scale"@, num_view(d.scale as nat)),
        ("bar"@, bar_view(d.bar)),
        ("content"@, JsonView::Str(d.content@)),
    ])
}

/// The metadata of a payload: its `data` without `content`.
pub open spec fn metadata_view(d: WebhookPayloadData) -> JsonView {
    JsonView::Object(seq![
        ("width"@, num_view(d.width as nat)),
        ("scale"@, num_view(d.scale as nat)),
        ("bar"@, bar_view(d.bar)),
    ])
}

/// The webhook body of a payload: `{"merge_variables": {"data": ...}}`.
pub open spec fn webhook_view(p: WebhookPayload) -> JsonView {
    single("merge_variables"@, single("data"@, data_view(p.data)))
}

/// The first of the two bodies the CLI sends: the metadata, deep-merged into the state.
pub open spec fn metadata_webhook_view(p: WebhookPayload) -> JsonView {
    JsonView::Object(seq![
        ("merge_variables"@, single("data"@, metadata_view(p.data))),
        ("merge_strategy"@, JsonView::Str("deep_merge"@)),
    ])
}

/// The `data` object of the second body: the content alone.
pub open spec fn content_view(d: WebhookPayloadData) -> JsonView {
    single("content"@, JsonView::Str(d.content@))
}

/// The second of the two bodies the CLI sends: the content, deep-merged into the state.
pub open spec fn content_webhook_view(p: WebhookPayload) -> JsonView {
    JsonView::Object(seq![
        ("merge_variables"@, single("data"@, content_view(p.data))),
        ("merge_strategy"@, JsonView::Str("deep_merge"@)),
    ])
}

/// A size variant: `id`, `width`, `scale` and `content`.
pub open spec fn variant_view(v: WebhookPayloadVariant) -> JsonView {
    JsonView::Object(seq![
        ("id"@, JsonView::Str(v.id@)),
        ("width"@, num_view(v.width as nat)),
        ("scale"@, num_view(v.scale as nat)),
        ("content"@, JsonView::Str(v.content@)),
    ])
}

/// The webhook body of a multi-size payload: `{"merge_variables": {"data": {"bar": ...,
/// "variants": [...]}}}`.
pub open spec fn multi_webhook_view(m: WebhookPayloadDataMulti) -> JsonView {
    single("merge_variables"@, single("data"@, JsonView::Object(seq![
        ("bar"@, bar_view(m.bar)),
        ("variants"@, JsonView::Array(Seq::new(m.variants@.len(), |i: int| variant_view(m.variants@[i])))),
    ])))
}

/// A JSON string holding the chars of `s`.
fn json_str(s: &str) -> (r: JsonValue)
    ensures
        r@ == JsonView::Str(s@),
{
    JsonValue::Str(String::from_str(s))
}

/// A JSON number holding `n` in decimal.
fn json_num(n: usize) -> (r: JsonValue)
    ensures
        r@ == num_view(n as nat),
{
    let mut v: Vec<char> = Vec::new();
    push_decimal(&mut v, n);
    JsonValue::Number(string_from_chars(&v))
}

/// An optional string as JSON.
fn json_opt_str(o: Option<String>) -> (r: JsonValue)
    ensures
        r@ == opt_str_view(o),
{
    match o {
        Some(s) => JsonValue::Str(s),
        None => JsonValue::Null,
    }
}

/// The bar as JSON.
fn json_bar(bar: Option<WebhookPayloadBar>) -> (r: JsonValue)
    ensures
        r@ == bar_view(bar),
{
    match bar {
        None => JsonValue::Null,
        Some(b) => {
            let mut e: Vec<(String, JsonValue)> = Vec::new();
            e.push((String::from_str("left"), json_opt_str(b.left)));
            e.push((String::from_str("right"), json_opt_str(b.right)));
            e.push((String::from_str("icon"), json_opt_str(b.icon)));
            proof {
                lemma_entries_view(e@);
                assert(entries_view(e@) =~= seq![
                    ("left"@, opt_str_view(b.left)),
                    ("right"@, opt_str_view(b.right)),
                    ("icon"@, opt_str_view(b.icon)),
                ]);
            }
            JsonValue::Object(e)
        },
    }
}

/// An object with the single entry `key: value`.
fn json_single(key: &str, value: JsonValue) -> (r: JsonValue)
    ensures
        r@ == single(key@, value@),
{
    let mut e: Vec<(String, JsonValue)> = Vec::new();
    e.push((String::from_str(key), value));
    proof {
        lemma_entries_view(e@);
        assert(entries_view(e@) =~= seq![(key@, value@)]);
    }
    JsonValue::Object(e)
}

impl WebhookPayload {
    /// The webhook body carrying the whole payload.
    pub fn into_webhook(self) -> (r: JsonValue)
        ensures
            r@ == webhook_view(self),
    {
        let d = self.data;
        let ghost dd = d;
        let mut e: Vec<(String, JsonValue)> = Vec::new();
        e.push((String::from_str("width"), json_num(d.width as usize)));
        e.push((String::from_str("scale"), json_num(d.scale as usize)));
        e.push((String::from_str("bar"), json_bar(d.bar)));
        e.push((String::from_str("content"), JsonValue::Str(d.content)));
        proof {
            lemma_entries_view(e@);
            assert(entries_view(e@) =~= seq![
                ("width"@, num_view(dd.width as nat)),
                ("scale"@, num_view(dd.scale as nat)),
                ("bar"@, bar_view(dd.bar)),
                ("content"@, JsonView::Str(dd.content@)),
            ]);
        }
        json_single("merge_variables", json_single("data", JsonValue::Object(e)))
    }

    /// The two webhook bodies the CLI sends one after the other, both with the `deep_merge`
    /// strategy: the metadata (everything but the content), then the content.
    pub fn into_webhook_parts(self) -> (r: (JsonValue, JsonValue))
        ensures
            r.0@ == metadata_webhook_view(self),
            r.1@ == content_webhook_view(self),
    {
        let d = self.data;
        let ghost dd = d;
        let mut e: Vec<(String, JsonValue)> = Vec::new();
        e.push((String::from_str("width"), json_num(d.width as usize)));
        e.push((String::from_str("scale"), json_num(d.scale as usize)));
        e.push((String::from_str("bar"), json_bar(d.bar)));
        proof {
            lemma_entries_view(e@);
            assert(entries_view(e@) =~= seq![
                ("width"@, num_view(dd.width as nat)),
                ("scale"@, num_view(dd.scale as nat)),
                ("bar"@, bar_view(dd.bar)),
            ]);
        }
        let mut m: Vec<(String, JsonValue)> = Vec::new();
        m.push((String::from_str("merge_variables"), json_single("data", JsonValue::Object(e))));
        m.push((String::from_str("merge_strategy"), json_str("deep_merge")));
        proof {
            lemma_entries_view(m@);
            assert(entries_view(m@) =~= seq![
                ("merge_variables"@, single("data"@, metadata_view(dd))),
                ("merge_strategy"@, JsonView::Str("deep_merge"@)),
            ]);
        }
        let metadata = JsonValue::Object(m);
        let mut c: Vec<(String, JsonValue)> = Vec::new();
        c.push((
            String::from_str("merge_variables"),
            json_single("data", json_single("content", JsonValue::Str(d.content))),
        ));
        c.push((String::from_str("merge_strategy"), json_str("deep_merge")));
        proof {
            lemma_entries_view(c@);
            assert(entries_view(c@) =~= seq![
                ("merge_variables"@, single("data"@, single("content"@, JsonView::Str(dd.content@)))),
                ("merge_strategy"@, JsonView::Str("deep_merge"@)),
            ]);
        }
        (metadata, JsonValue::Object(c))
    }
}

/// A size variant as JSON.
fn json_variant(v: WebhookPayloadVariant) -> (r: JsonValue)
    ensures
        r@ == variant_view(v),
{
    let ghost vv = v;
    let mut e: Vec<(String, JsonValue)> = Vec::new();
    e.push((String::from_str("id"), JsonValue::Str(v.id)));
    e.push((String::from_str("width"), json_num(v.width as usize)));
    e.push((String::from_str("scale"), json_num(v.scale as usize)));
    e.push((String::from_str("content"), JsonValue::Str(v.content)));
    proof {
        lemma_entries_view(e@);
        assert(entries_view(e@) =~= seq![
            ("id"@, JsonView::Str(vv.id@)),
            ("width"@, num_view(vv.width as nat)),
            ("scale"@, num_view(vv.scale as nat)),
            ("content"@, JsonView::Str(vv.content@)),
        ]);
    }
    JsonValue::Object(e)
}

impl WebhookPayloadDataMulti {
    /// The webhook body carrying the bar and all size variants.
    pub fn into_webhook(self) -> (r: JsonValue)
        ensures
            r@ == multi_webhook_view(self),
    {
        let ghost m = self;
        let mut variants = self.variants;
        let ghost vs0 = variants@;
        let n = variants.len();
        let mut items: Vec<JsonValue> = Vec::new();
        let mut j: usize = 0;
        while j < n
            invariant
                j <= n,
                n == vs0.len(),
                variants@ == vs0.skip(j as int),
                items@.len() == j,
                forall|t: int| 0 <= t < j ==> #[trigger] items@[t]@ == variant_view(vs0[t]),
            decreases n - j,
        {
            let v = variants.remove(0);
            assert(v == vs0[j as int]);
            assert(variants@ =~= vs0.skip(j + 1));
            items.push(json_variant(v));
            j = j + 1;
        }
        proof {
            lemma_items_view(items@);
            assert forall|t: int| 0 <= t < vs0.len() implies #[trigger] items_view(items@)[t] == variant_view(vs0[t]) by {
                assert(items@[t]@ == variant_view(vs0[t]));
            }
            assert(items_view(items@) =~= Seq::new(vs0.len(), |i: int| variant_view(vs0[i])));
        }
        let mut e: Vec<(String, JsonValue)> = Vec::new();
        e.push((String::from_str("bar"), json_bar(self.bar)));
        e.push((String::from_str("variants"), JsonValue::Array(items)));
        proof {
            lemma_entries_view(e@);
            assert(entries_view(e@) =~= seq![
                ("bar"@, bar_view(m.bar)),
                ("variants"@, JsonView::Array(Seq::new(m.variants@.len(), |i: int| variant_view(m.variants@[i])))),
            ]);
        }
        json_single("merge_variables", json_single("data", JsonValue::Object(e)))
    }
}

/// The CLI sends a payload as two bodies, the metadata and then the content, both deep
/// merged. The metadata's `data` has no `content` field and the content's `data` has
/// nothing else, so deep merging the second into the first rebuilds the body carrying the
/// whole payload; and pushed one after the other onto any stored state, they leave that
/// state with the whole payload's `data` deep merged into it.
pub proof fn law_split_push_matches_whole_push(state: JsonView, p: WebhookPayload)
    ensures
        get_field(metadata_view(p.data), "content"@) is None,
        content_view(p.data) == single("content"@, JsonView::Str(p.data.content@)),
        ({
            let mv = "merge_variables"@;
            &&& get_field(metadata_webhook_view(p), mv) is Some
            &&& get_field(content_webhook_view(p), mv) is Some
            &&& get_field(webhook_view(p), mv) is Some
            &&& merged_view(
                get_field(metadata_webhook_view(p), mv)->Some_0,
                get_field(content_webhook_view(p), mv)->Some_0,
                MergeStrategy::DeepMerge,
            ) == get_field(webhook_view(p), mv)->Some_0
        }),
        ({
            let s1 = pushed_state(state, metadata_webhook_view(p));
            &&& s1 == Some(deep_merge_view(state, single("data"@, metadata_view(p.data))))
            &&& pushed_state(s1->Some_0, content_webhook_view(p)) == Some(deep_merge_view(state, single("data"@, data_view(p.data))))
        }),
{
    reveal_strlit("merge_variables");
    reveal_strlit("merge_strategy");
    reveal_strlit("stream_limit");
    reveal_strlit("replace");
    reveal_strlit("deep_merge");
    reveal_strlit("stream");
    reveal_strlit("data");
    reveal_strlit("width");
    reveal_strlit("scale");
    reveal_strlit("bar");
    reveal_strlit("content");
    reveal_with_fuel(find_from, 5);
    let meta = metadata_webhook_view(p);
    let content = content_webhook_view(p);
    assert("merge_strategy"@ != "merge_variables"@) by {
        assert("merge_strategy"@[6] != "merge_variables"@[6]);
    }
    assert("stream_limit"@ != "merge_variables"@) by {
        assert("stream_limit"@[0] != "merge_variables"@[0]);
    }
    assert("stream_limit"@ != "merge_strategy"@) by {
        assert("stream_limit"@[0] != "merge_strategy"@[0]);
    }
    assert("deep_merge"@ != "replace"@) by {
        assert("deep_merge"@.len() != "replace"@.len());
    }
    assert(get_field(meta, "merge_variables"@) == Some(single("data"@, metadata_view(p.data))));
    assert(get_field(meta, "merge_strategy"@) == Some(JsonView::Str("deep_merge"@)));
    assert(get_field(meta, "stream_limit"@) is None);
    assert(get_field(content, "merge_variables"@) == Some(single("data"@, content_view(p.data))));
    assert(get_field(content, "merge_strategy"@) == Some(JsonView::Str("deep_merge"@)));
    assert(get_field(content, "stream_limit"@) is None);
    let md = metadata_view(p.data);
    let cd = content_view(p.data);
    let me = match md {
        JsonView::Object(e) => e,
        _ => Seq::empty(),
    };
    let c = ("content"@, JsonView::Str(p.data.content@));
    let ce = seq![c];
    assert("content"@ != "width"@) by {
        assert("content"@.len() != "width"@.len());
    }
    assert("content"@ != "scale"@) by {
        assert("content"@[0] != "scale"@[0]);
    }
    assert("content"@ != "bar"@) by {
        assert("content"@.len() != "bar"@.len());
    }
    assert(find_key(me, "content"@) is None);
    assert(ce.drop_last() =~= Seq::<(Seq<char>, JsonView)>::empty());
    assert(merge_entries(me, ce.drop_last()) == me);
    assert(merge_entries(me, ce) =~= me.push(c));
    assert(md == JsonView::Object(me));
    assert(cd == JsonView::Object(ce));
    assert(me.push(c) =~= seq![
        ("width"@, num_view(p.data.width as nat)),
        ("scale"@, num_view(p.data.scale as nat)),
        ("bar"@, bar_view(p.data.bar)),
        ("content"@, JsonView::Str(p.data.content@)),
    ]);
    assert(deep_merge_view(md, cd) == data_view(p.data));
    let de = seq![("data"@, md)];
    let dc = seq![("data"@, cd)];
    assert(dc.drop_last() =~= Seq::<(Seq<char>, JsonView)>::empty());
    assert(merge_entries(de, dc.drop_last()) == de);
    assert(find_key(de, "data"@) == Some(0int));
    assert(merge_entries(de, dc) =~= seq![("data"@, data_view(p.data))]);
    lemma_merge_twice(state, md, me, c);
}

/// Deep merging `Object(me)` and then the single entry `c` (whose key `me` lacks) under
/// `data` into `state` is deep merging `Object(me + [c])` under `data`.
proof fn lemma_merge_twice(state: JsonView, md: JsonView, me: Seq<(Seq<char>, JsonView)>, c: (Seq<char>, JsonView))
    requires
        md == JsonView::Object(me),
        find_key(me, c.0) is None,
    ensures
        deep_merge_view(deep_merge_view(state, single("data"@, md)), single("data"@, JsonView::Object(seq![c])))
            == deep_merge_view(state, single("data"@, JsonView::Object(me.push(c)))),
{
    let ce = seq![c];
    let full = JsonView::Object(me.push(c));
    assert(ce.drop_last() =~= Seq::<(Seq<char>, JsonView)>::empty());
    assert(me.push(c).drop_last() =~= me);
    assert(merge_entries(me, ce.drop_last()) == me);
    assert(ce.last() == c);
    assert(merge_entries(me, ce) =~= me.push(c));
    // The value under `data` after both pushes, from any value `x` stored there before.
    assert forall|x: JsonView| #[trigger] deep_merge_view(deep_merge_view(x, md), JsonView::Object(ce)) == deep_merge_view(x, full) by {
        match x {
            JsonView::Object(xe) => {
                let a = merge_entries(xe, me);
                assert(merge_entries(a, ce.drop_last()) == a);
                assert(merge_entries(a, ce) == merge_entries(xe, me.push(c)));
            },
            _ => {},
        }
    }
    let dm = seq![("data"@, md)];
    let dc = seq![("data"@, JsonView::Object(ce))];
    let df = seq![("data"@, full)];
    assert(dm.drop_last() =~= Seq::<(Seq<char>, JsonView)>::empty());
    assert(dc.drop_last() =~= Seq::<(Seq<char>, JsonView)>::empty());
    assert(df.drop_last() =~= Seq::<(Seq<char>, JsonView)>::empty());
    match state {
        JsonView::Object(se) => {
            assert(merge_entries(se, dm.drop_last()) == se);
            assert(merge_entries(se, df.drop_last()) == se);
            lemma_find_from(se, "data"@, 0);
            match find_key(se, "data"@) {
                Some(i) => {
                    let s1 = se.update(i, (se[i].0, deep_merge_view(se[i].1, md)));
                    assert(merge_entries(se, dm) == s1);
                    lemma_find_from(s1, "data"@, 0);
                    assert(forall|t: int| 0 <= t < i ==> s1[t] == se[t]);
                    assert(find_key(s1, "data"@) == Some(i));
                    assert(merge_entries(s1, dc.drop_last()) == s1);
                    assert(merge_entries(s1, dc) == s1.update(i, (s1[i].0, deep_merge_view(s1[i].1, JsonView::Object(ce)))));
                    assert(deep_merge_view(deep_merge_view(se[i].1, md), JsonView::Object(ce)) == deep_merge_view(se[i].1, full));
                    assert(merge_entries(s1, dc) =~= merge_entries(se, df));
                },
                None => {
                    let s1 = se.push(("data"@, md));
                    assert(merge_entries(se, dm) == s1);
                    lemma_find_from(s1, "data"@, 0);
                    assert(forall|t: int| 0 <= t < se.len() ==> s1[t] == se[t]);
                    assert(s1[se.len() as int].0 == "data"@);
                    assert(find_key(s1, "data"@) == Some(se.len() as int));
                    assert(merge_entries(s1, dc.drop_last()) == s1);
                    assert(deep_merge_view(md, JsonView::Object(ce)) == full);
                    assert(merge_entries(s1, dc) =~= merge_entries(se, df));
                },
            }
        },
        _ => {
            let s1 = single("data"@, md);
            assert(find_key(dm, "data"@) == Some(0int)) by {
                reveal_with_fuel(find_from, 2);
            }
            assert(merge_entries(dm, dc.drop_last()) == dm);
            assert(deep_merge_view(md, JsonView::Object(ce)) == full);
            assert(merge_entries(dm, dc) =~= df);
        },
    }
}

/// The multi-size body carries the payload's bar exactly as the single-size body does:
/// under `merge_variables.data.bar`, `null` when there is no bar, else an object with
/// the bar's `left`, `right` and `icon` (each `null` when absent).
pub proof fn law_multi_body_carries_the_bar(m: WebhookPayloadDataMulti, p: WebhookPayload)
    requires
        p.data.bar == m.bar,
    ensures
        ({
            let data = get_field(get_field(multi_webhook_view(m), "merge_variables"@)->Some_0, "data"@);
            &&& data is Some
            &&& get_field(data->Some_0, "bar"@) == get_field(data_view(p.data), "bar"@)
            &&& get_field(data->Some_0, "bar"@) == Some(match m.bar {
                None => JsonView::Null,
                Some(b) => JsonView::Object(seq![
                    ("left"@, opt_str_view(b.left)),
                    ("right"@, opt_str_view(b.right)),
                    ("icon"@, opt_str_view(b.icon)),
                ]),
            })
        }),
{
    reveal_strlit("merge_variables");
    reveal_strlit("data");
    reveal_strlit("bar");
    reveal_strlit("variants");
    reveal_strlit("width");
    reveal_strlit("scale");
    reveal_strlit("content");
    reveal_with_fuel(find_from, 5);
    assert("bar"@ != "width"@) by {
        assert("bar"@.len() != "width"@.len());
    }
    assert("bar"@ != "scale"@) by {
        assert("bar"@.len() != "scale"@.len());
    }
    let inner = JsonView::Object(seq![
        ("bar"@, bar_view(m.bar)),
        ("variants"@, JsonView::Array(Seq::new(m.variants@.len(), |i: int| variant_view(m.variants@[i])))),
    ]);
    assert(get_field(multi_webhook_view(m), "merge_variables"@) == Some(single("data"@, inner)));
    assert(get_field(single("data"@, inner), "data"@) == Some(inner));
    assert(get_field(inner, "bar"@) == Some(bar_view(m.bar)));
    assert(get_field(data_view(p.data), "bar"@) == Some(bar_view(p.data.bar)));
}

} // verus!
