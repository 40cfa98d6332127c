//! The merge semantics of a self-hosted stand-in for TRMNL's private-plugin webhook
//! endpoint: how a pushed payload combines with the stored state, and which ids are
//! acceptable as storage names.
use vstd::prelude::*;
use crate::json::{entries_view, items_view, lemma_entries_view, lemma_entry_decreases, lemma_items_view, JsonValue, JsonView};
use crate::json_parse::{json_of_value, json_view_of, parse_json_bytes, spec_parse_json_bytes};
use crate::json::json_clone;
use crate::text::{chars_of, push_str, str_eq, string_from_chars};

verus! {

/// How an incoming payload's `merge_variables` combines with the currently stored state,
/// mirroring TRMNL's own webhook semantics.
#[derive(Debug, Clone, Copy, PartialEq, Eq, Structural)]
pub enum MergeStrategy {
    /// Default when `merge_strategy` is omitted: the incoming object replaces the state.
    Replace,
    /// Recursively merges the incoming object into the stored state, key by key.
    DeepMerge,
    /// Top-level arrays are appended to the stored ones, then trimmed to the last `limit`
    /// entries; other top-level keys are replaced.
    Stream { limit: usize },
}

/// The error message for an unknown strategy name.
pub open spec fn unknown_strategy_message(name: Seq<char>) -> Seq<char> {
    "unknown merge_strategy '"@ + name + "'"@
}

/// The strategy a request names (absent: `replace`), with a stream limit of 10 unless
/// one is given; an unknown name is an error.
pub open spec fn strategy_of(merge_strategy: Option<Seq<char>>, stream_limit: Option<u64>) -> Result<MergeStrategy, Seq<char>> {
    match merge_strategy {
        None => Ok(MergeStrategy::Replace),
        Some(name) => if name == "replace"@ {
            Ok(MergeStrategy::Replace)
        } else if name == "deep_merge"@ {
            Ok(MergeStrategy::DeepMerge)
        } else if name == "stream"@ {
            Ok(MergeStrategy::Stream { limit: match stream_limit { Some(l) => l as usize, None => 10 } })
        } else {
            Err(unknown_strategy_message(name))
        },
    }
}

/// The strategy name of a request as chars.
pub open spec fn name_view(merge_strategy: Option<&str>) -> Option<Seq<char>> {
    match merge_strategy {
        Some(s) => Some(s@),
        None => None,
    }
}

impl MergeStrategy {
    /// The strategy named by a request's `merge_strategy` and `stream_limit` fields.
    pub fn from_request(merge_strategy: Option<&str>, stream_limit: Option<u64>) -> (r: Result<Self, String>)
        ensures
            match (r, strategy_of(name_view(merge_strategy), stream_limit)) {
                (Ok(s), Ok(t)) => s == t,
                (Err(e), Err(m)) => e@ == m,
                _ => false,
            },
    {
        match merge_strategy {
            None => Ok(MergeStrategy::Replace),
            Some(name) => {
                if str_eq(name, "replace") {
                    Ok(MergeStrategy::Replace)
                } else if str_eq(name, "deep_merge") {
                    Ok(MergeStrategy::DeepMerge)
                } else if str_eq(name, "stream") {
                    let limit: usize = match stream_limit {
                        Some(l) => l as usize,
                        None => 10,
                    };
                    Ok(MergeStrategy::Stream { limit })
                } else {
                    let mut msg: Vec<char> = Vec::new();
                    push_str(&mut msg, "unknown merge_strategy '");
                    push_str(&mut msg, name);
                    push_str(&mut msg, "'");
                    Err(string_from_chars(&msg))
                }
            },
        }
    }
}

/// Chars allowed in an id: ASCII letters and digits, `-` and `_`.
pub open spec fn is_id_char(c: char) -> bool {
    ('0' <= c && c <= '9') || ('a' <= c && c <= 'z') || ('A' <= c && c <= 'Z') || c == '-' || c == '_'
}

/// Whether `id` is usable as a storage name: 1 to 128 chars, each an ASCII letter or
/// digit, `-` or `_` (so it cannot traverse paths, and its byte length is its char
/// length).
pub open spec fn valid_id(id: Seq<char>) -> bool {
    0 < id.len() && id.len() <= 128 && forall|i: int| 0 <= i < id.len() ==> #[trigger] is_id_char(id[i])
}

/// Whether `id` is safe to use as a file name (and shaped like a webhook UUID).
pub fn is_valid_id(id: &str) -> (r: bool)
    ensures
        r == valid_id(id@),
{
    let chars = chars_of(id);
    if chars.len() == 0 || chars.len() > 128 {
        return false;
    }
    let mut i: usize = 0;
    while i < chars.len()
        invariant
            chars@ == id@,
            i <= chars@.len(),
            forall|j: int| 0 <= j < i ==> #[trigger] is_id_char(chars@[j]),
        decreases chars@.len() - i,
    {
        let c = chars[i];
        let ok = ('0' <= c && c <= '9') || ('a' <= c && c <= 'z') || ('A' <= c && c <= 'Z') || c == '-' || c == '_';
        if !ok {
            assert(!is_id_char(id@[i as int]));
            return false;
        }
        i = i + 1;
    }
    true
}

// ---------------------------------------------------------------------------
// Merging pushed values into the stored state
// ---------------------------------------------------------------------------

/// The index of the first entry of `e` at or after `i` whose key is `k`.
pub open spec fn find_from(e: Seq<(Seq<char>, JsonView)>, k: Seq<char>, i: int) -> Option<int>
    decreases e.len() - i,
{
    if i < 0 || i >= e.len() {
        None
    } else if e[i].0 == k {
        Some(i)
    } else {
        find_from(e, k, i + 1)
    }
}

/// The index of the first entry of `e` whose key is `k`.
pub open spec fn find_key(e: Seq<(Seq<char>, JsonView)>, k: Seq<char>) -> Option<int> {
    find_from(e, k, 0)
}

/// `incoming` merged recursively into `state`: where both are objects, every entry of
/// `incoming` is merged into the entry of `state` with the same key, or added after the
/// existing entries; anywhere else `incoming` replaces `state`.
pub open spec fn deep_merge_view(state: JsonView, incoming: JsonView) -> JsonView
    decreases incoming,
{
    match incoming {
        JsonView::Object(ie) => match state {
            JsonView::Object(se) => JsonView::Object(merge_entries(se, ie)),
            _ => incoming,
        },
        _ => incoming,
    }
}

/// The entries `acc` with the entries `ie` merged in, one after the other.
pub open spec fn merge_entries(acc: Seq<(Seq<char>, JsonView)>, ie: Seq<(Seq<char>, JsonView)>) -> Seq<(Seq<char>, JsonView)>
    decreases ie,
{
    if ie.len() == 0 {
        acc
    } else {
        let acc1 = merge_entries(acc, ie.drop_last());
        let (k, v) = ie.last();
        match find_key(acc1, k) {
            Some(i) => acc1.update(i, (acc1[i].0, deep_merge_view(acc1[i].1, v))),
            None => acc1.push((k, v)),
        }
    }
}

/// The last `limit` items of `s` (all of them when there are fewer).
pub open spec fn last_n(s: Seq<JsonView>, limit: nat) -> Seq<JsonView> {
    if s.len() > limit {
        s.subrange(s.len() - limit, s.len() as int)
    } else {
        s
    }
}

/// The items of an array; none for any other value.
pub open spec fn array_items(v: JsonView) -> Seq<JsonView> {
    match v {
        JsonView::Array(a) => a,
        _ => Seq::empty(),
    }
}

/// The value a stream push stores under a key that held `old`: an incoming array is
/// appended to the old items (if `old` is an array) and trimmed to the last `limit`;
/// any other incoming value replaces `old`.
pub open spec fn streamed_value(old: JsonView, v: JsonView, limit: nat) -> JsonView {
    match v {
        JsonView::Array(items) => JsonView::Array(last_n(array_items(old) + items, limit)),
        _ => v,
    }
}

/// The entries `acc` with the top-level entries `ie` streamed in, one after the other; a
/// new key is added after the existing entries.
pub open spec fn stream_entries(acc: Seq<(Seq<char>, JsonView)>, ie: Seq<(Seq<char>, JsonView)>, limit: nat) -> Seq<(Seq<char>, JsonView)>
    decreases ie.len(),
{
    if ie.len() == 0 {
        acc
    } else {
        let acc1 = stream_entries(acc, ie.drop_last(), limit);
        let (k, v) = ie.last();
        match find_key(acc1, k) {
            Some(i) => acc1.update(i, (acc1[i].0, streamed_value(acc1[i].1, v, limit))),
            None => acc1.push((k, streamed_value(JsonView::Null, v, limit))),
        }
    }
}

/// `incoming` streamed into `state`: when `incoming` is an object, its entries are
/// streamed into the entries of `state` (none if `state` is no object); otherwise
/// `incoming` replaces `state`.
pub open spec fn stream_merge_view(state: JsonView, incoming: JsonView, limit: nat) -> JsonView {
    match incoming {
        JsonView::Object(ie) => JsonView::Object(stream_entries(
            match state {
                JsonView::Object(se) => se,
                _ => Seq::empty(),
            },
            ie,
            limit,
        )),
        _ => incoming,
    }
}

/// The state after a push of `incoming` with `strategy` onto `state`.
pub open spec fn merged_view(state: JsonView, incoming: JsonView, strategy: MergeStrategy) -> JsonView {
    match strategy {
        MergeStrategy::Replace => incoming,
        MergeStrategy::DeepMerge => deep_merge_view(state, incoming),
        MergeStrategy::Stream { limit } => stream_merge_view(state, incoming, limit as nat),
    }
}

/// What `find_from` finds: the first matching entry at or after `j`.
pub proof fn lemma_find_from(e: Seq<(Seq<char>, JsonView)>, k: Seq<char>, j: int)
    requires
        0 <= j,
    ensures
        find_from(e, k, j) matches Some(i) ==> j <= i < e.len() && e[i].0 == k && forall|t: int| j <= t < i ==> e[t].0 != k,
        find_from(e, k, j) is None ==> forall|t: int| j <= t < e.len() ==> e[t].0 != k,
    decreases e.len() - j,
{
    if j < e.len() && e[j].0 != k {
        lemma_find_from(e, k, j + 1);
    }
}

/// The index of the first entry of `entries` whose key is `key`.
fn find_entry(entries: &Vec<(String, JsonValue)>, key: &String) -> (r: Option<usize>)
    ensures
        match r {
            Some(i) => find_key(entries_view(entries@), key@) == Some(i as int),
            None => find_key(entries_view(entries@), key@) is None,
        },
{
    proof {
        lemma_entries_view(entries@);
    }
    let ghost ev = entries_view(entries@);
    let mut i: usize = 0;
    while i < entries.len()
        invariant
            i <= entries@.len(),
            ev == entries_view(entries@),
            ev.len() == entries@.len(),
            forall|j: int| 0 <= j < entries@.len() ==> #[trigger] ev[j] == (entries@[j].0@, entries@[j].1@),
            find_key(ev, key@) == find_from(ev, key@, i as int),
        decreases entries@.len() - i,
    {
        if entries[i].0 == *key {
            return Some(i);
        }
        i = i + 1;
    }
    None
}

/// `entries` with entry `i` replaced by `(k, v)`, by view.
proof fn lemma_entries_update(entries: Seq<(String, JsonValue)>, i: int, k: String, v: JsonValue)
    requires
        0 <= i < entries.len(),
    ensures
        entries_view(entries.update(i, (k, v))) == entries_view(entries).update(i, (k@, v@)),
{
    lemma_entries_view(entries);
    lemma_entries_view(entries.update(i, (k, v)));
    assert(entries_view(entries.update(i, (k, v))) =~= entries_view(entries).update(i, (k@, v@)));
}

/// `entries` with `(k, v)` pushed, by view.
proof fn lemma_entries_push(entries: Seq<(String, JsonValue)>, k: String, v: JsonValue)
    ensures
        entries_view(entries.push((k, v))) == entries_view(entries).push((k@, v@)),
{
    assert(entries.push((k, v)).drop_last() =~= entries);
}

/// `incoming` merged recursively into `state` (see [`deep_merge_view`]).
pub fn deep_merge(state: JsonValue, incoming: JsonValue) -> (r: JsonValue)
    ensures
        r@ == deep_merge_view(state@, incoming@),
    decreases incoming@,
{
    let ghost inc = incoming@;
    match incoming {
        JsonValue::Object(ie) => {
            match state {
                JsonValue::Object(se) => {
                    let ghost ie0 = ie@;
                    let ghost sv0 = entries_view(se@);
                    proof {
                        lemma_entries_view(ie0);
                    }
                    let mut ie = ie;
                    let mut se = se;
                    let n = ie.len();
                    let mut j: usize = 0;
                    assert(entries_view(ie0).take(0) =~= Seq::<(Seq<char>, JsonView)>::empty());
                    while j < n
                        invariant
                            j <= n,
                            n == ie0.len(),
                            ie@ == ie0.skip(j as int),
                            inc == JsonView::Object(entries_view(ie0)),
                            inc == incoming@,
                            entries_view(ie0).len() == ie0.len(),
                            forall|t: int| 0 <= t < ie0.len() ==> #[trigger] entries_view(ie0)[t] == (ie0[t].0@, ie0[t].1@),
                            entries_view(se@) == merge_entries(sv0, entries_view(ie0).take(j as int)),
                        decreases n - j,
                    {
                        let ghost se_old = se@;
                        let (k, v) = ie.remove(0);
                        assert((k, v) == ie0[j as int]);
                        assert(ie@ =~= ie0.skip(j + 1));
                        let found = find_entry(&se, &k);
                        proof {
                            lemma_entry_decreases(ie0, j as int);
                            lemma_find_from(entries_view(se_old), k@, 0);
                            lemma_entries_view(se_old);
                            let t = entries_view(ie0).take(j + 1);
                            assert(t.drop_last() =~= entries_view(ie0).take(j as int));
                            assert(t.last() == (k@, v@));
                        }
                        match found {
                            Some(i) => {
                                let (ek, ev) = se.remove(i);
                                assert(decreases_to!(inc => v@));
                                let m = deep_merge(ev, v);
                                se.insert(i, (ek, m));
                                proof {
                                    assert(se@ =~= se_old.update(i as int, (ek, m)));
                                    lemma_entries_update(se_old, i as int, ek, m);
                                }
                            },
                            None => {
                                se.push((k, v));
                                proof {
                                    lemma_entries_push(se_old, k, v);
                                }
                            },
                        }
                        j = j + 1;
                    }
                    assert(entries_view(ie0).take(n as int) =~= entries_view(ie0));
                    JsonValue::Object(se)
                },
                _ => JsonValue::Object(ie),
            }
        },
        other => other,
    }
}

/// The value stored under a key that held `old` when a stream push brings `v` (see
/// [`streamed_value`]).
fn stream_value(old: JsonValue, v: JsonValue, limit: usize) -> (r: JsonValue)
    ensures
        r@ == streamed_value(old@, v@, limit as nat),
{
    match v {
        JsonValue::Array(items) => {
            let mut cur: Vec<JsonValue> = match old {
                JsonValue::Array(a) => a,
                _ => Vec::new(),
            };
            proof {
                lemma_items_view(cur@);
                lemma_items_view(items@);
            }
            let ghost cur0 = cur@;
            let mut items = items;
            let ghost items0 = items@;
            cur.append(&mut items);
            proof {
                lemma_items_view(cur@);
                assert(items_view(cur@) =~= items_view(cur0) + items_view(items0));
                assert(items_view(cur0) == array_items(old@)) by {
                    if !(old@ is Array) {
                        assert(cur0 =~= Seq::<JsonValue>::empty());
                    }
                }
            }
            if cur.len() > limit {
                let excess = cur.len() - limit;
                let ghost all = cur@;
                let kept = cur.split_off(excess);
                proof {
                    lemma_items_view(kept@);
                    assert(items_view(kept@) =~= items_view(all).subrange(all.len() - limit, all.len() as int));
                }
                JsonValue::Array(kept)
            } else {
                JsonValue::Array(cur)
            }
        },
        other => other,
    }
}

/// `incoming` streamed into `state` (see [`stream_merge_view`]).
pub fn stream_merge(state: JsonValue, incoming: JsonValue, limit: usize) -> (r: JsonValue)
    ensures
        r@ == stream_merge_view(state@, incoming@, limit as nat),
{
    match incoming {
        JsonValue::Object(ie) => {
            let mut se: Vec<(String, JsonValue)> = match state {
                JsonValue::Object(se) => se,
                _ => Vec::new(),
            };
            let ghost ie0 = ie@;
            let ghost sv0 = entries_view(se@);
            proof {
                lemma_entries_view(ie0);
                assert(sv0 == (match state@ {
                    JsonView::Object(x) => x,
                    _ => Seq::<(Seq<char>, JsonView)>::empty(),
                }));
            }
            let mut ie = ie;
            let n = ie.len();
            let mut j: usize = 0;
            assert(entries_view(ie0).take(0) =~= Seq::<(Seq<char>, JsonView)>::empty());
            while j < n
                invariant
                    j <= n,
                    n == ie0.len(),
                    ie@ == ie0.skip(j as int),
                    entries_view(ie0).len() == ie0.len(),
                    forall|t: int| 0 <= t < ie0.len() ==> #[trigger] entries_view(ie0)[t] == (ie0[t].0@, ie0[t].1@),
                    entries_view(se@) == stream_entries(sv0, entries_view(ie0).take(j as int), limit as nat),
                decreases n - j,
            {
                let ghost se_old = se@;
                let (k, v) = ie.remove(0);
                assert((k, v) == ie0[j as int]);
                assert(ie@ =~= ie0.skip(j + 1));
                let found = find_entry(&se, &k);
                proof {
                    lemma_find_from(entries_view(se_old), k@, 0);
                    lemma_entries_view(se_old);
                    let t = entries_view(ie0).take(j + 1);
                    assert(t.drop_last() =~= entries_view(ie0).take(j as int));
                    assert(t.last() == (k@, v@));
                }
                match found {
                    Some(i) => {
                        let (ek, old) = se.remove(i);
                        let nv = stream_value(old, v, limit);
                        se.insert(i, (ek, nv));
                        proof {
                            assert(se@ =~= se_old.update(i as int, (ek, nv)));
                            lemma_entries_update(se_old, i as int, ek, nv);
                        }
                    },
                    None => {
                        let nv = stream_value(JsonValue::Null, v, limit);
                        se.push((k, nv));
                        proof {
                            lemma_entries_push(se_old, k, nv);
                        }
                    },
                }
                j = j + 1;
            }
            assert(entries_view(ie0).take(n as int) =~= entries_view(ie0));
            JsonValue::Object(se)
        },
        other => other,
    }
}

/// Applies `incoming` onto `state` per `strategy`, in place.
pub fn apply_merge(state: &mut JsonValue, incoming: JsonValue, strategy: MergeStrategy)
    ensures
        final(state)@ == merged_view(old(state)@, incoming@, strategy),
{
    let mut current = JsonValue::Null;
    std::mem::swap(state, &mut current);
    *state = match strategy {
        MergeStrategy::Replace => incoming,
        MergeStrategy::DeepMerge => deep_merge(current, incoming),
        MergeStrategy::Stream { limit } => stream_merge(current, incoming, limit),
    };
}

// ---------------------------------------------------------------------------
// Accepting a push
// ---------------------------------------------------------------------------

/// The value under key `k` of an object (its first entry with that key); nothing for a
/// value that is no object or has no such entry.
pub open spec fn get_field(v: JsonView, k: Seq<char>) -> Option<JsonView> {
    match v {
        JsonView::Object(e) => match find_key(e, k) {
            Some(i) => Some(e[i].1),
            None => None,
        },
        _ => None,
    }
}

/// The string a JSON value holds, if it is a string.
pub open spec fn as_str_view(v: Option<JsonView>) -> Option<Seq<char>> {
    match v {
        Some(JsonView::Str(s)) => Some(s),
        _ => None,
    }
}

/// Whether `c` is an ASCII digit.
pub open spec fn is_digit(c: char) -> bool {
    '0' <= c && c <= '9'
}

/// The value of the decimal digits `s`.
pub open spec fn digits_value(s: Seq<char>) -> nat
    decreases s.len(),
{
    if s.len() == 0 {
        0
    } else {
        digits_value(s.drop_last()) * 10 + ((s.last() as u32) - 0x30) as nat
    }
}

/// The unsigned integer a JSON number's text denotes: only a non-empty run of decimal
/// digits whose value fits in 64 bits does.
pub open spec fn number_as_u64(text: Seq<char>) -> Option<u64> {
    if text.len() > 0 && (forall|i: int| 0 <= i < text.len() ==> #[trigger] is_digit(text[i]))
        && digits_value(text) <= u64::MAX {
        Some(digits_value(text) as u64)
    } else {
        None
    }
}

/// The unsigned integer a JSON value holds, if it holds one.
pub open spec fn as_u64_view(v: Option<JsonView>) -> Option<u64> {
    match v {
        Some(JsonView::Number(t)) => number_as_u64(t),
        _ => None,
    }
}

/// How a push request is answered.
#[derive(Debug)]
pub enum PushOutcome {
    /// The id is not acceptable (answered 404).
    InvalidId,
    /// The relay has no token configured and refuses every push (answered 503).
    NoTokenConfigured,
    /// The `Authorization: Bearer` token is missing or wrong (answered 401).
    Unauthorized,
    /// The body has no `merge_variables` (answered 400).
    MissingMergeVariables,
    /// The body names an unknown strategy (answered 400 with this message).
    BadStrategy(String),
    /// The `merge_variables` are to be merged with this strategy.
    Accepted(JsonValue, MergeStrategy),
}

/// The outcome of a push body once the sender is accepted: its `merge_variables`, merged
/// with the strategy named by its `merge_strategy` (a string) and `stream_limit` (an
/// unsigned integer).
pub open spec fn body_outcome(body: JsonView, outcome: PushOutcome) -> bool {
    match get_field(body, "merge_variables"@) {
        None => outcome is MissingMergeVariables,
        Some(mv) => match strategy_of(as_str_view(get_field(body, "merge_strategy"@)), as_u64_view(get_field(body, "stream_limit"@))) {
            Ok(s) => outcome matches PushOutcome::Accepted(v, t) && v@ == mv && t == s,
            Err(m) => outcome matches PushOutcome::BadStrategy(e) && e@ == m,
        },
    }
}

/// The unsigned integer that the decimal digits `text` denote, if they fit in 64 bits.
pub fn parse_u64(text: &str) -> (r: Option<u64>)
    ensures
        r == number_as_u64(text@),
{
    let chars = chars_of(text);
    if chars.len() == 0 {
        return None;
    }
    let mut value: u64 = 0;
    let mut i: usize = 0;
    while i < chars.len()
        invariant
            chars@ == text@,
            0 < chars@.len(),
            i <= chars@.len(),
            forall|j: int| 0 <= j < i ==> #[trigger] is_digit(chars@[j]),
            value as nat == digits_value(chars@.take(i as int)),
        decreases chars@.len() - i,
    {
        let c = chars[i];
        if !('0' <= c && c <= '9') {
            assert(!is_digit(text@[i as int]));
            return None;
        }
        let d = (c as u32 - 0x30) as u64;
        assert(chars@.take(i + 1).drop_last() =~= chars@.take(i as int));
        if value > (u64::MAX - d) / 10 {
            proof {
                assert(digits_value(chars@.take(i + 1)) > u64::MAX) by (nonlinear_arith)
                    requires
                        digits_value(chars@.take(i + 1)) == value * 10 + d,
                        value > (u64::MAX - d) / 10,
                        d <= 9,
                ;
                if forall|j: int| 0 <= j < chars@.len() ==> #[trigger] is_digit(chars@[j]) {
                    lemma_digits_value_prefix(chars@, i + 1);
                }
            }
            return None;
        }
        assert(value * 10 + d <= u64::MAX) by (nonlinear_arith)
            requires
                value <= (u64::MAX - d) / 10,
                d <= 9,
        ;
        value = value * 10 + d;
        i = i + 1;
    }
    assert(chars@.take(chars@.len() as int) =~= chars@);
    Some(value)
}

/// The value of a run of digits is at least the value of any of its prefixes.
proof fn lemma_digits_value_prefix(s: Seq<char>, n: int)
    requires
        0 <= n <= s.len(),
        forall|j: int| 0 <= j < s.len() ==> #[trigger] is_digit(s[j]),
    ensures
        digits_value(s) >= digits_value(s.take(n)),
    decreases s.len(),
{
    if n < s.len() {
        lemma_digits_value_prefix(s.drop_last(), n);
        assert(s.drop_last().take(n) =~= s.take(n));
    } else {
        assert(s.take(n) =~= s);
    }
}

/// The value of the first entry with key `key` of an object, moved out of it.
fn take_field(v: &mut JsonValue, key: &str) -> (r: Option<JsonValue>)
    ensures
        match r {
            Some(x) => get_field(old(v)@, key@) == Some(x@),
            None => get_field(old(v)@, key@) is None,
        },
{
    match v {
        JsonValue::Object(entries) => {
            let k = String::from_str(key);
            let found = find_entry(entries, &k);
            proof {
                lemma_entries_view(entries@);
                lemma_find_from(entries_view(entries@), key@, 0);
            }
            match found {
                Some(i) => {
                    let (_, x) = entries.remove(i);
                    Some(x)
                },
                None => None,
            }
        },
        _ => None,
    }
}

/// The value of the first entry with key `key` of an object.
pub(crate) fn field_ref<'a>(v: &'a JsonValue, key: &str) -> (r: Option<&'a JsonValue>)
    ensures
        match r {
            Some(x) => get_field(v@, key@) == Some(x@),
            None => get_field(v@, key@) is None,
        },
{
    match v {
        JsonValue::Object(entries) => {
            let k = String::from_str(key);
            let found = find_entry(entries, &k);
            proof {
                lemma_entries_view(entries@);
                lemma_find_from(entries_view(entries@), key@, 0);
            }
            match found {
                Some(i) => Some(&entries[i].1),
                None => None,
            }
        },
        _ => None,
    }
}

/// The answer to a push body whose sender is accepted (see [`body_outcome`]).
pub fn decide_body(body: JsonValue) -> (r: PushOutcome)
    ensures
        body_outcome(body@, r),
{
    let ghost b0 = body@;
    let strategy = {
        let ms: Option<&str> = match field_ref(&body, "merge_strategy") {
            Some(JsonValue::Str(s)) => Some(s.as_str()),
            _ => None,
        };
        let sl: Option<u64> = match field_ref(&body, "stream_limit") {
            Some(JsonValue::Number(t)) => parse_u64(t.as_str()),
            _ => None,
        };
        assert(name_view(ms) == as_str_view(get_field(b0, "merge_strategy"@)));
        assert(sl == as_u64_view(get_field(b0, "stream_limit"@)));
        MergeStrategy::from_request(ms, sl)
    };
    let mut body = body;
    let mv = take_field(&mut body, "merge_variables");
    match mv {
        None => PushOutcome::MissingMergeVariables,
        Some(v) => match strategy {
            Ok(s) => PushOutcome::Accepted(v, s),
            Err(e) => PushOutcome::BadStrategy(e),
        },
    }
}

/// The answer to a push for webhook id `id` (the self-hosted backend): an unacceptable
/// id is refused before the body is looked at.
pub fn decide_backend_push(id: &str, body: JsonValue) -> (r: PushOutcome)
    ensures
        !valid_id(id@) ==> r is InvalidId,
        valid_id(id@) ==> body_outcome(body@, r),
{
    if !is_valid_id(id) {
        return PushOutcome::InvalidId;
    }
    decide_body(body)
}

/// The token an `Authorization` header carries after `Bearer `.
pub open spec fn bearer_token(header: Seq<char>) -> Option<Seq<char>> {
    if header.len() >= 7 && header.take(7) == "Bearer "@ {
        Some(header.skip(7))
    } else {
        None
    }
}

/// The answer to a push to the relay: without a configured token every push is refused;
/// otherwise the `Authorization` header must carry exactly that token as a bearer token.
pub fn decide_relay_push(token: Option<&str>, auth_header: Option<&str>, body: JsonValue) -> (r: PushOutcome)
    ensures
        token is None ==> r is NoTokenConfigured,
        token matches Some(t) ==> {
            let provided = match auth_header {
                Some(h) => bearer_token(h@),
                None => None,
            };
            if provided != Some(t@) {
                r is Unauthorized
            } else {
                body_outcome(body@, r)
            }
        },
{
    let expected = match token {
        None => {
            return PushOutcome::NoTokenConfigured;
        },
        Some(t) => t,
    };
    let authorized = match auth_header {
        None => false,
        Some(h) => {
            let hc = chars_of(h);
            let ec = chars_of(expected);
            let prefix = chars_of("Bearer ");
            proof {
                reveal_strlit("Bearer ");
            }
            if hc.len() < 7 || hc.len() - 7 != ec.len() {
                proof {
                    if hc@.len() >= 7 {
                        assert(hc@.skip(7).len() != ec@.len());
                    }
                }
                false
            } else {
                let mut ok = true;
                let mut i: usize = 0;
                while i < hc.len()
                    invariant
                        hc@ == h@,
                        ec@ == expected@,
                        prefix@ == "Bearer "@,
                        prefix@.len() == 7,
                        hc@.len() == ec@.len() + 7,
                        i <= hc@.len(),
                        ok == (forall|j: int| 0 <= j < i ==> #[trigger] hc@[j] == (if j < 7 { prefix@[j] } else { ec@[j - 7] })),
                    decreases hc@.len() - i,
                {
                    let want = if i < 7 { prefix[i] } else { ec[i - 7] };
                    if hc[i] != want {
                        ok = false;
                    }
                    i = i + 1;
                }
                proof {
                    if ok {
                        assert(hc@.take(7) =~= "Bearer "@);
                        assert(hc@.skip(7) =~= ec@);
                    } else {
                        let j = choose|j: int| 0 <= j < hc@.len() && hc@[j] != (if j < 7 { prefix@[j] } else { ec@[j - 7] });
                        if j < 7 {
                            assert(hc@.take(7)[j] != "Bearer "@[j]);
                        } else {
                            assert(hc@.skip(7)[j - 7] != ec@[j - 7]);
                        }
                    }
                }
                ok
            }
        },
    };
    if !authorized {
        return PushOutcome::Unauthorized;
    }
    decide_body(body)
}

// ---------------------------------------------------------------------------
// Laws
// ---------------------------------------------------------------------------

/// The value of the first entry of `e` with key `k`.
pub open spec fn lookup(e: Seq<(Seq<char>, JsonView)>, k: Seq<char>) -> Option<JsonView> {
    match find_key(e, k) {
        Some(i) => Some(e[i].1),
        None => None,
    }
}

/// Whether no two entries of `e` share a key, as in every JSON object that a parser
/// produces.
pub open spec fn keys_distinct(e: Seq<(Seq<char>, JsonView)>) -> bool {
    forall|i: int, j: int| 0 <= i < j < e.len() ==> #[trigger] e[i].0 != #[trigger] e[j].0
}

/// Looking a key up after pushing an entry.
proof fn lemma_lookup_push(e: Seq<(Seq<char>, JsonView)>, x: (Seq<char>, JsonView), k: Seq<char>)
    ensures
        lookup(e.push(x), k) == (if lookup(e, k) is Some { lookup(e, k) } else if x.0 == k { Some(x.1) } else { None }),
{
    lemma_find_from(e, k, 0);
    lemma_find_from(e.push(x), k, 0);
    let p = e.push(x);
    match find_key(e, k) {
        Some(i) => {
            match find_key(p, k) {
                Some(i2) => {
                    if i2 < i {
                        assert(p[i2] == e[i2]);
                    } else if i < i2 {
                        assert(p[i] == e[i]);
                    }
                },
                None => {
                    assert(p[i] == e[i]);
                },
            }
        },
        None => {
            match find_key(p, k) {
                Some(i2) => {
                    if i2 < e.len() {
                        assert(p[i2] == e[i2]);
                    }
                },
                None => {
                    assert(p[e.len() as int] == x);
                },
            }
        },
    }
}

/// Looking a key up after replacing the value of entry `i`.
proof fn lemma_lookup_update(e: Seq<(Seq<char>, JsonView)>, i: int, v: JsonView, k: Seq<char>)
    requires
        0 <= i < e.len(),
        find_key(e, e[i].0) == Some(i),
    ensures
        lookup(e.update(i, (e[i].0, v)), k) == (if k == e[i].0 { Some(v) } else { lookup(e, k) }),
{
    let p = e.update(i, (e[i].0, v));
    lemma_find_from(e, k, 0);
    lemma_find_from(p, k, 0);
    match find_key(e, k) {
        Some(a) => {
            match find_key(p, k) {
                Some(b) => {
                    if a < b {
                        assert(p[a].0 == e[a].0);
                    } else if b < a {
                        assert(p[b].0 == e[b].0);
                    }
                },
                None => {
                    assert(p[a].0 == e[a].0);
                },
            }
        },
        None => {
            match find_key(p, k) {
                Some(b) => {
                    assert(p[b].0 == e[b].0);
                },
                None => {},
            }
        },
    }
}

/// What is found of a key in entries that end with it and hold it nowhere else.
proof fn lemma_lookup_distinct(ie: Seq<(Seq<char>, JsonView)>, k: Seq<char>)
    requires
        ie.len() > 0,
        keys_distinct(ie),
    ensures
        k == ie.last().0 ==> lookup(ie, k) == Some(ie.last().1) && lookup(ie.drop_last(), k) is None,
        k != ie.last().0 ==> lookup(ie, k) == lookup(ie.drop_last(), k),
        keys_distinct(ie.drop_last()),
{
    let d = ie.drop_last();
    assert(ie =~= d.push(ie.last()));
    lemma_lookup_push(d, ie.last(), k);
    if k == ie.last().0 {
        lemma_find_from(d, k, 0);
        if let Some(i) = find_key(d, k) {
            assert(d[i] == ie[i]);
            assert(ie[i].0 != ie[ie.len() - 1].0);
        }
    }
}

/// Deep merging entries, key by key: a key that only the incoming entries hold comes with
/// its incoming value; a key that only `se` holds keeps its value; a key that both hold
/// gets the deep merge of the two values.
pub proof fn lemma_merge_entries_lookup(se: Seq<(Seq<char>, JsonView)>, ie: Seq<(Seq<char>, JsonView)>, k: Seq<char>)
    requires
        keys_distinct(ie),
    ensures
        lookup(merge_entries(se, ie), k) == (match (lookup(se, k), lookup(ie, k)) {
            (Some(x), Some(v)) => Some(deep_merge_view(x, v)),
            (None, Some(v)) => Some(v),
            (x, None) => x,
        }),
    decreases ie.len(),
{
    if ie.len() == 0 {
        lemma_find_from(ie, k, 0);
    } else {
        let d = ie.drop_last();
        lemma_lookup_distinct(ie, k);
        lemma_merge_entries_lookup(se, d, k);
        let acc1 = merge_entries(se, d);
        let (lk, lv) = ie.last();
        lemma_find_from(acc1, lk, 0);
        match find_key(acc1, lk) {
            Some(i) => {
                lemma_lookup_update(acc1, i, deep_merge_view(acc1[i].1, lv), k);
            },
            None => {
                lemma_lookup_push(acc1, (lk, lv), k);
            },
        }
    }
}

/// The deep merge of two objects, field by field: an incoming field is merged into the
/// stored field of the same name (a field only the push names is added), and every stored
/// field the push does not name keeps its value.
pub proof fn law_deep_merge_fields(se: Seq<(Seq<char>, JsonView)>, ie: Seq<(Seq<char>, JsonView)>, k: Seq<char>)
    requires
        keys_distinct(ie),
    ensures
        get_field(deep_merge_view(JsonView::Object(se), JsonView::Object(ie)), k) == (match (lookup(se, k), lookup(ie, k)) {
            (Some(x), Some(v)) => Some(deep_merge_view(x, v)),
            (None, Some(v)) => Some(v),
            (x, None) => x,
        }),
{
    lemma_merge_entries_lookup(se, ie, k);
}

/// Deep merging replaces whatever is stored by a pushed value that is not an object:
/// only object into object merges field by field, so a pushed `null`, number, string,
/// boolean or array reads back as exactly itself, whatever was stored.
pub proof fn law_deep_merge_replaces_non_objects(state: JsonView, incoming: JsonView)
    requires
        !(incoming is Object),
    ensures
        deep_merge_view(state, incoming) == incoming,
        merged_view(state, incoming, MergeStrategy::DeepMerge) == incoming,
{
}

/// A field pushed with a value that is not an object reads back, after a deep merge into
/// a stored object, as exactly that value, whatever the stored field held.
pub proof fn law_deep_merge_field_takes_pushed_leaf(se: Seq<(Seq<char>, JsonView)>, ie: Seq<(Seq<char>, JsonView)>, k: Seq<char>, v: JsonView)
    requires
        keys_distinct(ie),
        lookup(ie, k) == Some(v),
        !(v is Object),
    ensures
        get_field(deep_merge_view(JsonView::Object(se), JsonView::Object(ie)), k) == Some(v),
{
    lemma_merge_entries_lookup(se, ie, k);
}

/// Streaming entries, key by key: a key the incoming entries hold gets the streamed value
/// of its stored value (if any) and the incoming value; any other key keeps its value.
pub proof fn lemma_stream_entries_lookup(se: Seq<(Seq<char>, JsonView)>, ie: Seq<(Seq<char>, JsonView)>, limit: nat, k: Seq<char>)
    requires
        keys_distinct(ie),
    ensures
        lookup(stream_entries(se, ie, limit), k) == (match lookup(ie, k) {
            Some(v) => Some(streamed_value(
                match lookup(se, k) {
                    Some(x) => x,
                    None => JsonView::Null,
                },
                v,
                limit,
            )),
            None => lookup(se, k),
        }),
    decreases ie.len(),
{
    if ie.len() == 0 {
        lemma_find_from(ie, k, 0);
    } else {
        let d = ie.drop_last();
        lemma_lookup_distinct(ie, k);
        lemma_stream_entries_lookup(se, d, limit, k);
        let acc1 = stream_entries(se, d, limit);
        let (lk, lv) = ie.last();
        lemma_find_from(acc1, lk, 0);
        match find_key(acc1, lk) {
            Some(i) => {
                lemma_lookup_update(acc1, i, streamed_value(acc1[i].1, lv, limit), k);
            },
            None => {
                lemma_lookup_push(acc1, (lk, streamed_value(JsonView::Null, lv, limit)), k);
            },
        }
    }
}

/// A stream push keeps, under every key it sends an array for, the stored items (if the
/// stored value is an array) followed by the pushed ones, trimmed to the last `limit`: so
/// never more than `limit` items. Keys it sends other values for are replaced, keys it
/// does not send keep their values.
pub proof fn law_stream_fields(state: JsonView, ie: Seq<(Seq<char>, JsonView)>, limit: nat, k: Seq<char>)
    requires
        keys_distinct(ie),
    ensures
        ({
            let se = match state {
                JsonView::Object(x) => x,
                _ => Seq::empty(),
            };
            let old = match lookup(se, k) {
                Some(x) => x,
                None => JsonView::Null,
            };
            let r = get_field(stream_merge_view(state, JsonView::Object(ie), limit), k);
            &&& lookup(ie, k) matches Some(JsonView::Array(items)) ==> r == Some(JsonView::Array(last_n(array_items(old) + items, limit)))
                && last_n(array_items(old) + items, limit).len() <= limit
            &&& lookup(ie, k) matches Some(v) ==> !(v is Array) ==> r == Some(v)
            &&& lookup(ie, k) is None ==> r == lookup(se, k)
        }),
{
    let se = match state {
        JsonView::Object(x) => x,
        _ => Seq::<(Seq<char>, JsonView)>::empty(),
    };
    lemma_stream_entries_lookup(se, ie, limit, k);
}

/// A replace push leaves exactly the pushed value as the state.
pub proof fn law_replace_overwrites(state: JsonView, incoming: JsonView)
    ensures
        merged_view(state, incoming, MergeStrategy::Replace) == incoming,
{
}

/// An acceptable id holds no `/` and no `.`, so it names a file inside the state
/// directory and cannot climb out of it.
pub proof fn law_valid_id_is_a_plain_name(id: Seq<char>)
    requires
        valid_id(id),
    ensures
        forall|i: int| 0 <= i < id.len() ==> id[i] != '/' && id[i] != '.' && id[i] != '\\',
{
    assert forall|i: int| 0 <= i < id.len() implies id[i] != '/' && id[i] != '.' && id[i] != '\\' by {
        assert(is_id_char(id[i]));
    }
}

/// The state after an accepted push of `body` onto `state`; nothing when the body is
/// refused.
pub open spec fn pushed_state(state: JsonView, body: JsonView) -> Option<JsonView> {
    match get_field(body, "merge_variables"@) {
        None => None,
        Some(mv) => match strategy_of(as_str_view(get_field(body, "merge_strategy"@)), as_u64_view(get_field(body, "stream_limit"@))) {
            Ok(s) => Some(merged_view(state, mv, s)),
            Err(_) => None,
        },
    }
}

// ---------------------------------------------------------------------------
// The store of states
// ---------------------------------------------------------------------------

/// The name of the file that holds the state of id `id`: `<id>.json`.
pub fn state_file_name(id: &str) -> (r: String)
    ensures
        r@ == id@ + ".json"@,
{
    let mut out: Vec<char> = Vec::new();
    push_str(&mut out, id);
    push_str(&mut out, ".json");
    string_from_chars(&out)
}

/// The state of an id read from its state file: the JSON value the file's bytes hold, or
/// the empty object when there is no readable file (`None`) or it holds no JSON.
pub open spec fn loaded_view(bytes: Option<Seq<u8>>) -> JsonView {
    match bytes {
        Some(b) => match spec_parse_json_bytes(b) {
            Some(v) => json_view_of(v),
            None => JsonView::Object(Seq::empty()),
        },
        None => JsonView::Object(Seq::empty()),
    }
}

/// The empty JSON object.
fn empty_object() -> (r: JsonValue)
    ensures
        r@ == JsonView::Object(Seq::empty()),
{
    let e: Vec<(String, JsonValue)> = Vec::new();
    proof {
        lemma_entries_view(e@);
    }
    assert(entries_view(e@) =~= Seq::<(Seq<char>, JsonView)>::empty());
    JsonValue::Object(e)
}

/// The state of an id when it is first looked up, from the bytes of its state file (`None`
/// when there is no readable file): the JSON value they hold, else the empty object.
pub fn loaded_state(bytes: Option<&[u8]>) -> (r: JsonValue)
    ensures
        r@ == loaded_view(match bytes {
            Some(b) => Some(b@),
            None => None,
        }),
{
    match bytes {
        Some(b) => match parse_json_bytes(b) {
            Some(v) => match json_of_value(&v, 128) {
                Some(j) => j,
                None => empty_object(),
            },
            None => empty_object(),
        },
        None => empty_object(),
    }
}

/// The states of the ids looked up so far, kept in memory: an id's entry holds its state.
pub struct StateCache {
    entries: Vec<(String, JsonValue)>,
}

/// Whether some entry of `e` is for id `k`.
pub open spec fn has_id(e: Seq<(String, JsonValue)>, k: Seq<char>) -> bool {
    exists|i: int| 0 <= i < e.len() && (#[trigger] e[i]).0@ == k
}

/// The states that the entries `e` hold, by id.
pub open spec fn cache_map(e: Seq<(String, JsonValue)>) -> Map<Seq<char>, JsonView> {
    Map::new(
        |k: Seq<char>| has_id(e, k),
        |k: Seq<char>| e[choose|i: int| 0 <= i < e.len() && (#[trigger] e[i]).0@ == k].1@,
    )
}

/// Whether no two entries of `e` are for the same id.
pub open spec fn ids_distinct(e: Seq<(String, JsonValue)>) -> bool {
    forall|i: int, j: int| 0 <= i < j < e.len() ==> (#[trigger] e[i]).0@ != (#[trigger] e[j]).0@
}

impl View for StateCache {
    type V = Map<Seq<char>, JsonView>;

    closed spec fn view(&self) -> Map<Seq<char>, JsonView> {
        cache_map(self.entries@)
    }
}

/// The state held for the id of entry `i`.
proof fn lemma_cache_map_at(e: Seq<(String, JsonValue)>, i: int)
    requires
        ids_distinct(e),
        0 <= i < e.len(),
    ensures
        cache_map(e).contains_key(e[i].0@),
        cache_map(e)[e[i].0@] == e[i].1@,
{
    let k = e[i].0@;
    assert(has_id(e, k));
    let j = choose|j: int| 0 <= j < e.len() && (#[trigger] e[j]).0@ == k;
    if j != i {
        if j < i {
            assert(e[j].0@ != e[i].0@);
        } else {
            assert(e[i].0@ != e[j].0@);
        }
    }
}

/// Replacing the state of entry `i` replaces the state of its id.
proof fn lemma_cache_map_update(e: Seq<(String, JsonValue)>, i: int, x: (String, JsonValue))
    requires
        ids_distinct(e),
        0 <= i < e.len(),
        x.0@ == e[i].0@,
    ensures
        ids_distinct(e.update(i, x)),
        cache_map(e.update(i, x)) == cache_map(e).insert(x.0@, x.1@),
{
    let u = e.update(i, x);
    assert forall|a: int, b: int| 0 <= a < b < u.len() implies (#[trigger] u[a]).0@ != (#[trigger] u[b]).0@ by {
        assert(u[a].0@ == e[a].0@ && u[b].0@ == e[b].0@);
        assert(e[a].0@ != e[b].0@);
    }
    let m = cache_map(e).insert(x.0@, x.1@);
    assert forall|k: Seq<char>| #[trigger] has_id(u, k) <==> m.contains_key(k) by {
        if has_id(u, k) {
            let t = choose|t: int| 0 <= t < u.len() && (#[trigger] u[t]).0@ == k;
            if t != i {
                assert(u[t] == e[t]);
                assert(has_id(e, k));
            }
        }
        if has_id(e, k) {
            let t = choose|t: int| 0 <= t < e.len() && (#[trigger] e[t]).0@ == k;
            assert(u[t].0@ == e[t].0@);
            assert(has_id(u, k));
        }
        if k == x.0@ {
            assert(u[i] == x);
            assert(has_id(u, k));
        }
    }
    assert forall|k: Seq<char>| #[trigger] has_id(u, k) implies cache_map(u)[k] == m[k] by {
        let t = choose|t: int| 0 <= t < u.len() && (#[trigger] u[t]).0@ == k;
        lemma_cache_map_at(u, t);
        if t == i {
            assert(u[i] == x);
        } else {
            assert(u[t] == e[t]);
            lemma_cache_map_at(e, t);
        }
    }
    assert(cache_map(u) =~= m);
}

/// Adding an entry for a new id adds its state.
proof fn lemma_cache_map_push(e: Seq<(String, JsonValue)>, x: (String, JsonValue))
    requires
        ids_distinct(e),
        !has_id(e, x.0@),
    ensures
        ids_distinct(e.push(x)),
        cache_map(e.push(x)) == cache_map(e).insert(x.0@, x.1@),
{
    let p = e.push(x);
    assert forall|a: int, b: int| 0 <= a < b < p.len() implies (#[trigger] p[a]).0@ != (#[trigger] p[b]).0@ by {
        assert(p[a] == e[a]);
        if b < e.len() {
            assert(p[b] == e[b]);
        } else {
            assert(p[b] == x);
            if e[a].0@ == x.0@ {
                assert(has_id(e, x.0@));
            }
        }
    }
    let m = cache_map(e).insert(x.0@, x.1@);
    assert forall|k: Seq<char>| #[trigger] has_id(p, k) <==> m.contains_key(k) by {
        if has_id(p, k) {
            let t = choose|t: int| 0 <= t < p.len() && (#[trigger] p[t]).0@ == k;
            if t < e.len() {
                assert(p[t] == e[t]);
                assert(has_id(e, k));
            }
        }
        if has_id(e, k) {
            let t = choose|t: int| 0 <= t < e.len() && (#[trigger] e[t]).0@ == k;
            assert(p[t] == e[t]);
            assert(has_id(p, k));
        }
        if k == x.0@ {
            assert(p[e.len() as int] == x);
            assert(has_id(p, k));
        }
    }
    assert forall|k: Seq<char>| #[trigger] has_id(p, k) implies cache_map(p)[k] == m[k] by {
        let t = choose|t: int| 0 <= t < p.len() && (#[trigger] p[t]).0@ == k;
        lemma_cache_map_at(p, t);
        if t < e.len() {
            assert(p[t] == e[t]);
            lemma_cache_map_at(e, t);
        } else {
            assert(p[t] == x);
        }
    }
    assert(cache_map(p) =~= m);
}

impl StateCache {
    /// Whether no two entries are for the same id.
    pub closed spec fn wf(&self) -> bool {
        ids_distinct(self.entries@)
    }

    /// An empty cache.
    pub fn new() -> (r: Self)
        ensures
            r.wf(),
            r@ == Map::<Seq<char>, JsonView>::empty(),
    {
        let r = StateCache { entries: Vec::new() };
        assert(r@ =~= Map::<Seq<char>, JsonView>::empty());
        r
    }

    /// The index of the entry for `id`, if there is one.
    fn find(&self, id: &str) -> (r: Option<usize>)
        requires
            self.wf(),
        ensures
            match r {
                Some(i) => i < self.entries@.len() && self.entries@[i as int].0@ == id@,
                None => !has_id(self.entries@, id@),
            },
    {
        let mut i: usize = 0;
        while i < self.entries.len()
            invariant
                i <= self.entries@.len(),
                forall|t: int| 0 <= t < i ==> (#[trigger] self.entries@[t]).0@ != id@,
            decreases self.entries@.len() - i,
        {
            if str_eq(self.entries[i].0.as_str(), id) {
                return Some(i);
            }
            i = i + 1;
        }
        None
    }

    /// Whether the state of `id` is held.
    pub fn contains(&self, id: &str) -> (r: bool)
        requires
            self.wf(),
        ensures
            r == self@.contains_key(id@),
    {
        self.find(id).is_some()
    }

    /// A copy of the state held for `id`, if any.
    pub fn state_of(&self, id: &str) -> (r: Option<JsonValue>)
        requires
            self.wf(),
        ensures
            match r {
                Some(s) => self@.contains_key(id@) && s@ == self@[id@],
                None => !self@.contains_key(id@),
            },
    {
        match self.find(id) {
            Some(i) => {
                proof {
                    lemma_cache_map_at(self.entries@, i as int);
                }
                Some(json_clone(&self.entries[i].1))
            },
            None => None,
        }
    }

    /// Holds `state` as the state of `id`.
    fn put(&mut self, id: &str, state: JsonValue)
        requires
            old(self).wf(),
        ensures
            final(self).wf(),
            final(self)@ == old(self)@.insert(id@, state@),
    {
        let ghost s = state@;
        match self.find(id) {
            Some(i) => {
                let key = String::from_str(id);
                let ghost x = (key, state);
                proof {
                    lemma_cache_map_update(self.entries@, i as int, x);
                }
                self.entries.set(i, (key, state));
            },
            None => {
                let key = String::from_str(id);
                let ghost x = (key, state);
                proof {
                    lemma_cache_map_push(self.entries@, x);
                }
                self.entries.push((key, state));
            },
        }
    }

    /// Looks up `id` for the first time: holds the state read from its state file's bytes
    /// (`None` when there is no readable file). An id already held keeps its state.
    pub fn load(&mut self, id: &str, bytes: Option<&[u8]>)
        requires
            old(self).wf(),
        ensures
            final(self).wf(),
            final(self)@ == (if old(self)@.contains_key(id@) {
                old(self)@
            } else {
                old(self)@.insert(id@, loaded_view(match bytes {
                    Some(b) => Some(b@),
                    None => None,
                }))
            }),
    {
        if !self.contains(id) {
            let state = loaded_state(bytes);
            self.put(id, state);
        }
    }

    /// The state of `id` after merging `incoming` into it with `strategy`; the cache is
    /// left as it is, to be updated once the new state is saved.
    pub fn merged_state(&self, id: &str, incoming: JsonValue, strategy: MergeStrategy) -> (r: JsonValue)
        requires
            self.wf(),
            self@.contains_key(id@),
        ensures
            r@ == merged_view(self@[id@], incoming@, strategy),
    {
        let mut current = match self.state_of(id) {
            Some(s) => s,
            None => empty_object(),
        };
        apply_merge(&mut current, incoming, strategy);
        current
    }

    /// Records the outcome of saving `merged` as the new state of `id`: the cache takes the
    /// new state only when it was saved (`saved`), and keeps the old one otherwise.
    pub fn commit(&mut self, id: &str, merged: JsonValue, saved: bool)
        requires
            old(self).wf(),
        ensures
            final(self).wf(),
            final(self)@ == (if saved { old(self)@.insert(id@, merged@) } else { old(self)@ }),
    {
        if saved {
            self.put(id, merged);
        }
    }
}

/// A push to one id, saved, is read back from that id as the merge of the push into its
/// old state, and leaves every other id's state as it was; a push whose saving failed
/// leaves every state as it was.
pub proof fn law_push_reads_back(cache: Map<Seq<char>, JsonView>, id: Seq<char>, other: Seq<char>, incoming: JsonView, strategy: MergeStrategy, saved: bool)
    requires
        cache.contains_key(id),
    ensures
        ({
            let merged = merged_view(cache[id], incoming, strategy);
            let after = if saved { cache.insert(id, merged) } else { cache };
            &&& saved ==> after.contains_key(id) && after[id] == merged
            &&& !saved ==> after == cache
            &&& other != id ==> (after.contains_key(other) == cache.contains_key(other)
                && (cache.contains_key(other) ==> after[other] == cache[other]))
        }),
{
}

/// Different ids are stored in different files, so each id keeps a state of its own.
pub proof fn law_state_files_are_distinct(a: Seq<char>, b: Seq<char>)
    requires
        a != b,
    ensures
        a + ".json"@ != b + ".json"@,
{
    let ext = ".json"@;
    let x = a + ext;
    let y = b + ext;
    if x == y {
        assert(x.len() == a.len() + ext.len());
        assert(y.len() == b.len() + ext.len());
        assert(a.len() == b.len());
        assert(x.take(a.len() as int) =~= a);
        assert(y.take(b.len() as int) =~= b);
    }
}

// ---------------------------------------------------------------------------
// Well-formed values
// ---------------------------------------------------------------------------

/// Whether every object in `v`, at any depth, has distinct keys, as in every JSON value
/// that a parser produces.
pub open spec fn json_wf(v: JsonView) -> bool
    decreases v,
{
    match v {
        JsonView::Object(e) => keys_distinct(e) && forall|i: int| 0 <= i < e.len() ==> json_wf(#[trigger] e[i].1),
        JsonView::Array(a) => forall|i: int| 0 <= i < a.len() ==> json_wf(#[trigger] a[i]),
        _ => true,
    }
}

/// Whether the entries of an object have distinct keys and well-formed values.
pub open spec fn entries_wf(e: Seq<(Seq<char>, JsonView)>) -> bool {
    json_wf(JsonView::Object(e))
}

/// The entries before the last of well-formed entries are well formed.
proof fn lemma_drop_last_wf(e: Seq<(Seq<char>, JsonView)>)
    requires
        e.len() > 0,
        entries_wf(e),
    ensures
        entries_wf(e.drop_last()),
        json_wf(e.last().1),
{
    let d = e.drop_last();
    assert forall|i: int| 0 <= i < d.len() implies #[trigger] json_wf(d[i].1) by {
        assert(d[i] == e[i]);
    }
    assert forall|i: int, j: int| 0 <= i < j < d.len() implies #[trigger] d[i].0 != #[trigger] d[j].0 by {
        assert(d[i] == e[i] && d[j] == e[j]);
    }
    assert(json_wf(e[e.len() - 1].1));
}

/// Well-formed entries stay well formed when the value of entry `i` is replaced by a
/// well-formed value.
proof fn lemma_update_wf(e: Seq<(Seq<char>, JsonView)>, i: int, v: JsonView)
    requires
        0 <= i < e.len(),
        entries_wf(e),
        json_wf(v),
    ensures
        entries_wf(e.update(i, (e[i].0, v))),
{
    let u = e.update(i, (e[i].0, v));
    assert forall|t: int| 0 <= t < u.len() implies #[trigger] json_wf(u[t].1) by {
        if t != i {
            assert(u[t] == e[t]);
        }
    }
    assert forall|a: int, b: int| 0 <= a < b < u.len() implies #[trigger] u[a].0 != #[trigger] u[b].0 by {
        assert(u[a].0 == e[a].0 && u[b].0 == e[b].0);
    }
}

/// Well-formed entries stay well formed when an entry with a new key and a well-formed
/// value is added.
proof fn lemma_push_wf(e: Seq<(Seq<char>, JsonView)>, k: Seq<char>, v: JsonView)
    requires
        entries_wf(e),
        find_key(e, k) is None,
        json_wf(v),
    ensures
        entries_wf(e.push((k, v))),
{
    let p = e.push((k, v));
    lemma_find_from(e, k, 0);
    assert forall|t: int| 0 <= t < p.len() implies #[trigger] json_wf(p[t].1) by {
        if t < e.len() {
            assert(p[t] == e[t]);
        }
    }
    assert forall|a: int, b: int| 0 <= a < b < p.len() implies #[trigger] p[a].0 != #[trigger] p[b].0 by {
        assert(p[a] == e[a]);
        if b < e.len() {
            assert(p[b] == e[b]);
        }
    }
}

/// Deep merging keeps values well formed.
proof fn lemma_deep_merge_wf(state: JsonView, incoming: JsonView)
    requires
        json_wf(state),
        json_wf(incoming),
    ensures
        json_wf(deep_merge_view(state, incoming)),
    decreases incoming,
{
    match incoming {
        JsonView::Object(ie) => match state {
            JsonView::Object(se) => lemma_merge_entries_wf(se, ie),
            _ => {},
        },
        _ => {},
    }
}

/// Merging well-formed entries into well-formed entries gives well-formed entries.
proof fn lemma_merge_entries_wf(acc: Seq<(Seq<char>, JsonView)>, ie: Seq<(Seq<char>, JsonView)>)
    requires
        entries_wf(acc),
        entries_wf(ie),
    ensures
        entries_wf(merge_entries(acc, ie)),
    decreases ie,
{
    if ie.len() > 0 {
        lemma_drop_last_wf(ie);
        lemma_merge_entries_wf(acc, ie.drop_last());
        let acc1 = merge_entries(acc, ie.drop_last());
        let (k, v) = ie.last();
        lemma_find_from(acc1, k, 0);
        match find_key(acc1, k) {
            Some(i) => {
                assert(json_wf(acc1[i].1));
                lemma_deep_merge_wf(acc1[i].1, v);
                lemma_update_wf(acc1, i, deep_merge_view(acc1[i].1, v));
            },
            None => {
                lemma_push_wf(acc1, k, v);
            },
        }
    }
}

/// The value a stream push stores is well formed.
proof fn lemma_streamed_wf(old: JsonView, v: JsonView, limit: nat)
    requires
        json_wf(old),
        json_wf(v),
    ensures
        json_wf(streamed_value(old, v, limit)),
{
    match v {
        JsonView::Array(items) => {
            let all = array_items(old) + items;
            assert forall|i: int| 0 <= i < all.len() implies #[trigger] json_wf(all[i]) by {
                if i < array_items(old).len() {
                    assert(old is Array);
                }
            }
            let kept = last_n(all, limit);
            assert forall|i: int| 0 <= i < kept.len() implies #[trigger] json_wf(kept[i]) by {
                if all.len() > limit {
                    assert(kept[i] == all[all.len() - limit + i]);
                }
            }
        },
        _ => {},
    }
}

/// Streaming well-formed entries into well-formed entries gives well-formed entries.
proof fn lemma_stream_entries_wf(acc: Seq<(Seq<char>, JsonView)>, ie: Seq<(Seq<char>, JsonView)>, limit: nat)
    requires
        entries_wf(acc),
        entries_wf(ie),
    ensures
        entries_wf(stream_entries(acc, ie, limit)),
    decreases ie.len(),
{
    if ie.len() > 0 {
        lemma_drop_last_wf(ie);
        lemma_stream_entries_wf(acc, ie.drop_last(), limit);
        let acc1 = stream_entries(acc, ie.drop_last(), limit);
        let (k, v) = ie.last();
        lemma_find_from(acc1, k, 0);
        match find_key(acc1, k) {
            Some(i) => {
                assert(json_wf(acc1[i].1));
                lemma_streamed_wf(acc1[i].1, v, limit);
                lemma_update_wf(acc1, i, streamed_value(acc1[i].1, v, limit));
            },
            None => {
                lemma_streamed_wf(JsonView::Null, v, limit);
                lemma_push_wf(acc1, k, streamed_value(JsonView::Null, v, limit));
            },
        }
    }
}

/// Every push keeps the stored state well formed: a value whose objects have distinct
/// keys, merged by any strategy into a state whose objects have distinct keys, leaves a
/// state whose objects have distinct keys.
pub proof fn law_merge_keeps_keys_distinct(state: JsonView, incoming: JsonView, strategy: MergeStrategy)
    requires
        json_wf(state),
        json_wf(incoming),
    ensures
        json_wf(merged_view(state, incoming, strategy)),
{
    match strategy {
        MergeStrategy::Replace => {},
        MergeStrategy::DeepMerge => lemma_deep_merge_wf(state, incoming),
        MergeStrategy::Stream { limit } => {
            match incoming {
                JsonView::Object(ie) => {
                    let se = match state {
                        JsonView::Object(se) => se,
                        _ => Seq::empty(),
                    };
                    lemma_stream_entries_wf(se, ie, limit as nat);
                },
                _ => {},
            }
        },
    }
}

} // verus!
