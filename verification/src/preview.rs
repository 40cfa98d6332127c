//! The order in which the preview offers device models: TRMNL's own models first, then
//! the others, each group sorted by label, models that compare equal keeping their order.
use vstd::prelude::*;
use crate::text::{chars_of, str_eq};

verus! {

/// Whether `a` comes no later than `b` in the order of Rust's string comparison: by code
/// point, char by char, a prefix first.
pub open spec fn lex_le(a: Seq<char>, b: Seq<char>) -> bool
    decreases a.len(),
{
    if a.len() == 0 {
        true
    } else if b.len() == 0 {
        false
    } else if a[0] != b[0] {
        a[0] < b[0]
    } else {
        lex_le(a.skip(1), b.skip(1))
    }
}

/// Whether a model of kind `kind` is one of TRMNL's own.
pub open spec fn is_trmnl(kind: Seq<char>) -> bool {
    kind == "trmnl"@
}

/// Whether the model with key `a` (kind, label) may come before the one with key `b`:
/// TRMNL's own models before the others, then by label.
pub open spec fn key_le(a: (Seq<char>, Seq<char>), b: (Seq<char>, Seq<char>)) -> bool {
    (is_trmnl(a.0) && !is_trmnl(b.0)) || (is_trmnl(a.0) == is_trmnl(b.0) && lex_le(a.1, b.1))
}

/// The keys of a list of (kind, label) pairs, as chars.
pub open spec fn keys_view(models: Seq<(String, String)>) -> Seq<(Seq<char>, Seq<char>)> {
    models.map_values(|m: (String, String)| (m.0@, m.1@))
}

/// Whether `order` lists the indices `0..n` of `keys`, each once, sorted by key, indices
/// with equal keys in increasing order.
pub open spec fn is_stable_order(order: Seq<usize>, keys: Seq<(Seq<char>, Seq<char>)>) -> bool {
    &&& order.len() == keys.len()
    &&& forall|i: int| 0 <= i < order.len() ==> #[trigger] order[i] < keys.len()
    &&& forall|i: int, j: int| 0 <= i < j < order.len() ==> #[trigger] order[i] != #[trigger] order[j]
    &&& forall|i: int, j: int| 0 <= i < j < order.len() ==> key_le(keys[#[trigger] order[i] as int], keys[#[trigger] order[j] as int])
    &&& forall|i: int, j: int| 0 <= i < j < order.len() && key_le(keys[order[j] as int], keys[order[i] as int])
        ==> #[trigger] order[i] < #[trigger] order[j]
}

/// `lex_le` is total.
proof fn lemma_lex_total(a: Seq<char>, b: Seq<char>)
    ensures
        lex_le(a, b) || lex_le(b, a),
    decreases a.len(),
{
    if a.len() > 0 && b.len() > 0 {
        if a[0] == b[0] {
            lemma_lex_total(a.skip(1), b.skip(1));
        } else {
            assert(a[0] < b[0] || b[0] < a[0]);
        }
    }
}

/// `lex_le` is transitive.
proof fn lemma_lex_trans(a: Seq<char>, b: Seq<char>, c: Seq<char>)
    requires
        lex_le(a, b),
        lex_le(b, c),
    ensures
        lex_le(a, c),
    decreases a.len(),
{
    if a.len() > 0 && b.len() > 0 && c.len() > 0 && a[0] == b[0] && b[0] == c[0] {
        lemma_lex_trans(a.skip(1), b.skip(1), c.skip(1));
    }
}

/// The order of models is total and transitive.
proof fn lemma_key_total_trans()
    ensures
        forall|a: (Seq<char>, Seq<char>), b: (Seq<char>, Seq<char>)| #[trigger] key_le(a, b) || key_le(b, a),
        forall|a: (Seq<char>, Seq<char>), b: (Seq<char>, Seq<char>), c: (Seq<char>, Seq<char>)|
            #[trigger] key_le(a, b) && #[trigger] key_le(b, c) ==> key_le(a, c),
{
    assert forall|a: (Seq<char>, Seq<char>), b: (Seq<char>, Seq<char>)| #[trigger] key_le(a, b) || key_le(b, a) by {
        lemma_lex_total(a.1, b.1);
    }
    assert forall|a: (Seq<char>, Seq<char>), b: (Seq<char>, Seq<char>), c: (Seq<char>, Seq<char>)|
        #[trigger] key_le(a, b) && #[trigger] key_le(b, c) implies key_le(a, c) by {
        if lex_le(a.1, b.1) && lex_le(b.1, c.1) {
            lemma_lex_trans(a.1, b.1, c.1);
        }
    }
}

/// Chars equal up to `i` leave the comparison to what follows them.
proof fn lemma_lex_skip(a: Seq<char>, b: Seq<char>, i: int)
    requires
        0 <= i <= a.len(),
        i <= b.len(),
        forall|j: int| 0 <= j < i ==> a[j] == b[j],
    ensures
        lex_le(a, b) == lex_le(a.skip(i), b.skip(i)),
    decreases i,
{
    if i > 0 {
        assert(a[0] == b[0]);
        lemma_lex_skip(a.skip(1), b.skip(1), i - 1);
        assert(a.skip(1).skip(i - 1) =~= a.skip(i));
        assert(b.skip(1).skip(i - 1) =~= b.skip(i));
    } else {
        assert(a.skip(0) =~= a);
        assert(b.skip(0) =~= b);
    }
}

/// Whether `a` comes no later than `b` in Rust's string order.
pub fn str_le(a: &str, b: &str) -> (r: bool)
    ensures
        r == lex_le(a@, b@),
{
    let x = chars_of(a);
    let y = chars_of(b);
    let mut i: usize = 0;
    while i < x.len() && i < y.len()
        invariant
            x@ == a@,
            y@ == b@,
            i <= x@.len(),
            i <= y@.len(),
            forall|j: int| 0 <= j < i ==> x@[j] == y@[j],
        decreases x@.len() - i,
    {
        if x[i] != y[i] {
            proof {
                lemma_lex_skip(x@, y@, i as int);
                assert(x@.skip(i as int)[0] == x@[i as int]);
                assert(y@.skip(i as int)[0] == y@[i as int]);
            }
            return x[i] < y[i];
        }
        i = i + 1;
    }
    proof {
        lemma_lex_skip(x@, y@, i as int);
    }
    i == x.len()
}

/// The order in which to list models with the (kind, label) pairs `models`: TRMNL's own
/// models (kind `trmnl`) first, each group by label, models with equal keys in their
/// given order.
#[verifier::spinoff_prover]
pub fn picker_model_order(models: &Vec<(String, String)>) -> (order: Vec<usize>)
    ensures
        is_stable_order(order@, keys_view(models@)),
{
    let ghost keys = keys_view(models@);
    proof {
        lemma_key_total_trans();
    }
    let n = models.len();
    let mut order: Vec<usize> = Vec::new();
    let mut k: usize = 0;
    while k < n
        invariant
            n == models@.len(),
            keys == keys_view(models@),
            keys.len() == n,
            k <= n,
            order@.len() == k,
            forall|i: int| 0 <= i < order@.len() ==> #[trigger] order@[i] < k,
            forall|i: int, j: int| 0 <= i < j < order@.len() ==> #[trigger] order@[i] != #[trigger] order@[j],
            forall|i: int, j: int| 0 <= i < j < order@.len() ==> key_le(keys[#[trigger] order@[i] as int], keys[#[trigger] order@[j] as int]),
            forall|i: int, j: int| 0 <= i < j < order@.len() && key_le(keys[order@[j] as int], keys[order@[i] as int])
                ==> #[trigger] order@[i] < #[trigger] order@[j],
            forall|a: (Seq<char>, Seq<char>), b: (Seq<char>, Seq<char>)| #[trigger] key_le(a, b) || key_le(b, a),
            forall|a: (Seq<char>, Seq<char>), b: (Seq<char>, Seq<char>), c: (Seq<char>, Seq<char>)|
                #[trigger] key_le(a, b) && #[trigger] key_le(b, c) ==> key_le(a, c),
        decreases n - k,
    {
        let kt = str_eq(models[k].0.as_str(), "trmnl");
        let kl = models[k].1.as_str();
        assert(keys[k as int] == (models@[k as int].0@, models@[k as int].1@));
        let mut p: usize = 0;
        while p < order.len()
            invariant
                p <= order@.len(),
                order@.len() == k,
                k < n,
                n == models@.len(),
                keys == keys_view(models@),
                keys.len() == n,
                forall|i: int| 0 <= i < order@.len() ==> #[trigger] order@[i] < k,
                kt == is_trmnl(keys[k as int].0),
                kl@ == keys[k as int].1,
                forall|q: int| 0 <= q < p ==> key_le(keys[#[trigger] order@[q] as int], keys[k as int]),
            ensures
                p <= order@.len(),
                forall|q: int| 0 <= q < p ==> key_le(keys[#[trigger] order@[q] as int], keys[k as int]),
                p < order@.len() ==> !key_le(keys[order@[p as int] as int], keys[k as int]),
            decreases order@.len() - p,
        {
            let m = order[p];
            assert(keys[m as int] == (models@[m as int].0@, models@[m as int].1@));
            let mt = str_eq(models[m].0.as_str(), "trmnl");
            let le = (mt && !kt) || (mt == kt && str_le(models[m].1.as_str(), kl));
            assert(le == key_le(keys[m as int], keys[k as int]));
            if !le {
                break;
            }
            p = p + 1;
        }
        let ghost old_order = order@;
        proof {
            if p < old_order.len() {
                assert(!key_le(keys[old_order[p as int] as int], keys[k as int]));
            }
        }
        order.insert(p, k);
        assert(order@ == old_order.insert(p as int, k));
        assert forall|i: int| 0 <= i < order@.len() implies #[trigger] order@[i] < k + 1 by {
            if i > p {
                assert(order@[i] == old_order[i - 1]);
            } else if i < p {
                assert(order@[i] == old_order[i]);
            }
        }
        assert forall|i: int, j: int| 0 <= i < j < order@.len() implies #[trigger] order@[i] != #[trigger] order@[j] by {
            if i < p && j < p {
                assert(order@[i] == old_order[i] && order@[j] == old_order[j]);
            } else if i < p && j == p {
                assert(order@[i] == old_order[i]);
            } else if i < p && j > p {
                assert(order@[i] == old_order[i] && order@[j] == old_order[j - 1]);
            } else if i == p {
                assert(order@[j] == old_order[j - 1]);
            } else {
                assert(order@[i] == old_order[i - 1] && order@[j] == old_order[j - 1]);
            }
        }
        assert forall|i: int, j: int| 0 <= i < j < order@.len() implies key_le(
            keys[#[trigger] order@[i] as int],
            keys[#[trigger] order@[j] as int],
        ) by {
            if i < p && j < p {
                assert(order@[i] == old_order[i] && order@[j] == old_order[j]);
            } else if i < p && j == p {
                assert(order@[i] == old_order[i]);
            } else if i < p && j > p {
                assert(order@[i] == old_order[i] && order@[j] == old_order[j - 1]);
                assert(key_le(keys[old_order[i] as int], keys[old_order[p as int] as int]));
                if j - 1 > p {
                    assert(key_le(keys[old_order[p as int] as int], keys[old_order[j - 1] as int]));
                }
            } else if i == p {
                assert(order@[j] == old_order[j - 1]);
                assert(key_le(keys[k as int], keys[old_order[p as int] as int]));
                if j - 1 > p {
                    assert(key_le(keys[old_order[p as int] as int], keys[old_order[j - 1] as int]));
                }
            } else {
                assert(order@[i] == old_order[i - 1] && order@[j] == old_order[j - 1]);
            }
        }
        assert forall|i: int, j: int| 0 <= i < j < order@.len() && key_le(keys[order@[j] as int], keys[order@[i] as int])
            implies #[trigger] order@[i] < #[trigger] order@[j] by {
            if i < p && j < p {
                assert(order@[i] == old_order[i] && order@[j] == old_order[j]);
            } else if i < p && j == p {
                assert(order@[i] == old_order[i]);
            } else if i < p && j > p {
                assert(order@[i] == old_order[i] && order@[j] == old_order[j - 1]);
            } else if i == p {
                assert(order@[j] == old_order[j - 1]);
                if j - 1 > p {
                    assert(key_le(keys[old_order[p as int] as int], keys[old_order[j - 1] as int]));
                }
                assert(key_le(keys[old_order[p as int] as int], keys[k as int]));
                assert(false);
            } else {
                assert(order@[i] == old_order[i - 1] && order@[j] == old_order[j - 1]);
            }
        }
        k = k + 1;
    }
    order
}

} // verus!
