//! Code-point order on texts, and what the listing helpers (keep the first
//! item of each identity, then sort stably by a text key) guarantee.
use vstd::prelude::*;

use crate::assets::lex_lt;

verus! {

// ---------------------------------------------------------------------------
// The order
// ---------------------------------------------------------------------------
pub proof fn lemma_lex_lt_irreflexive(a: Seq<char>)
    ensures
        !lex_lt(a, a),
    decreases a.len(),
{
    if a.len() > 0 {
        lemma_lex_lt_irreflexive(a.drop_first());
    }
}

pub proof fn lemma_lex_lt_trans(a: Seq<char>, b: Seq<char>, c: Seq<char>)
    requires
        lex_lt(a, b),
        lex_lt(b, c),
    ensures
        lex_lt(a, c),
    decreases a.len(),
{
    if a.len() > 0 && b.len() > 0 && c.len() > 0 && a[0] == b[0] && b[0] == c[0] {
        lemma_lex_lt_trans(a.drop_first(), b.drop_first(), c.drop_first());
    }
}

pub proof fn lemma_lex_lt_total(a: Seq<char>, b: Seq<char>)
    requires
        a != b,
    ensures
        lex_lt(a, b) || lex_lt(b, a),
    decreases a.len(),
{
    if a.len() == 0 && b.len() == 0 {
        assert(a =~= b);
    }
    if a.len() > 0 && b.len() > 0 && a[0] == b[0] {
        if a.drop_first() =~= b.drop_first() {
            assert forall|i: int| 0 <= i < a.len() implies a[i] == b[i] by {
                if i > 0 {
                    assert(a[i] == a.drop_first()[i - 1]);
                    assert(b[i] == b.drop_first()[i - 1]);
                }
            }
            assert(a =~= b);
        }
        lemma_lex_lt_total(a.drop_first(), b.drop_first());
    }
}

// ---------------------------------------------------------------------------
// Sorting and keeping first items, on any item type
// ---------------------------------------------------------------------------
/// No item sorts before an earlier one.
pub open spec fn sorted_by<T>(s: Seq<T>, key: spec_fn(T) -> Seq<char>) -> bool {
    forall|i: int, j: int| 0 <= i < j < s.len() ==> !lex_lt(key(#[trigger] s[j]), key(#[trigger] s[i]))
}

/// No two items share an identity.
pub open spec fn unique_by<T>(s: Seq<T>, id: spec_fn(T) -> Seq<char>) -> bool {
    forall|i: int, j: int| 0 <= i < j < s.len() ==> id(#[trigger] s[i]) != id(#[trigger] s[j])
}

/// Some item has the identity `n`.
pub open spec fn taken_by<T>(s: Seq<T>, n: Seq<char>, id: spec_fn(T) -> Seq<char>) -> bool {
    exists|i: int| 0 <= i < s.len() && id(#[trigger] s[i]) == n
}

/// `x` occurs in `s` with no earlier item of the same identity.
pub open spec fn first_of<T>(s: Seq<T>, x: T, id: spec_fn(T) -> Seq<char>) -> bool {
    exists|i: int|
        0 <= i < s.len() && #[trigger] s[i] == x && forall|k: int| 0 <= k < i ==> id(#[trigger] s[k]) != id(x)
}

/// Where `x` goes in `sorted`: after every item whose key is not greater.
pub open spec fn ins_pos<T>(sorted: Seq<T>, x: T, key: spec_fn(T) -> Seq<char>) -> int
    decreases sorted.len(),
{
    if sorted.len() == 0 {
        0
    } else if lex_lt(key(x), key(sorted[0])) {
        0
    } else {
        1 + ins_pos(sorted.drop_first(), x, key)
    }
}

/// Stable insertion sort by `key`.
pub open spec fn sort_by<T>(s: Seq<T>, key: spec_fn(T) -> Seq<char>) -> Seq<T>
    decreases s.len(),
{
    if s.len() == 0 {
        Seq::empty()
    } else {
        let sorted = sort_by(s.drop_last(), key);
        sorted.insert(ins_pos(sorted, s.last(), key), s.last())
    }
}

/// The first item of each identity, in order.
pub open spec fn dedupe_by<T>(s: Seq<T>, id: spec_fn(T) -> Seq<char>) -> Seq<T>
    decreases s.len(),
{
    if s.len() == 0 {
        Seq::empty()
    } else {
        let d = dedupe_by(s.drop_last(), id);
        if taken_by(d, id(s.last()), id) {
            d
        } else {
            d.push(s.last())
        }
    }
}

proof fn lemma_ins_pos<T>(sorted: Seq<T>, x: T, key: spec_fn(T) -> Seq<char>)
    ensures
        0 <= ins_pos(sorted, x, key) <= sorted.len(),
        forall|j: int| 0 <= j < ins_pos(sorted, x, key) ==> !lex_lt(key(x), key(#[trigger] sorted[j])),
        ins_pos(sorted, x, key) == sorted.len() || lex_lt(key(x), key(sorted[ins_pos(sorted, x, key)])),
    decreases sorted.len(),
{
    if sorted.len() > 0 && !lex_lt(key(x), key(sorted[0])) {
        let t = sorted.drop_first();
        lemma_ins_pos(t, x, key);
        let p = ins_pos(t, x, key);
        assert forall|j: int| 0 <= j < p + 1 implies !lex_lt(key(x), key(#[trigger] sorted[j])) by {
            if j > 0 {
                assert(sorted[j] == t[j - 1]);
            }
        }
        if p < t.len() {
            assert(sorted[p + 1] == t[p]);
        }
    }
}

proof fn lemma_insert_keeps_sorted<T>(s: Seq<T>, key: spec_fn(T) -> Seq<char>, x: T, p: int)
    requires
        sorted_by(s, key),
        0 <= p <= s.len(),
        forall|j: int| 0 <= j < p ==> !lex_lt(key(x), key(#[trigger] s[j])),
        p == s.len() || lex_lt(key(x), key(s[p])),
    ensures
        sorted_by(s.insert(p, x), key),
{
    let t = s.insert(p, x);
    assert forall|i: int, j: int| 0 <= i < j < t.len() implies !lex_lt(key(#[trigger] t[j]), key(#[trigger] t[i])) by {
        if j < p {
            assert(t[i] == s[i] && t[j] == s[j]);
        } else if j == p {
            assert(t[i] == s[i] && t[j] == x);
        } else if i < p {
            assert(t[i] == s[i] && t[j] == s[j - 1]);
        } else if i == p {
            assert(t[i] == x && t[j] == s[j - 1]);
            if lex_lt(key(s[j - 1]), key(x)) {
                lemma_lex_lt_trans(key(s[j - 1]), key(x), key(s[p]));
                if j - 1 == p {
                    lemma_lex_lt_irreflexive(key(s[p]));
                }
            }
        } else {
            assert(t[i] == s[i - 1] && t[j] == s[j - 1]);
        }
    }
}

proof fn lemma_insert_contains<T>(s: Seq<T>, p: int, x: T, y: T)
    requires
        0 <= p <= s.len(),
    ensures
        s.insert(p, x).contains(y) <==> (s.contains(y) || y == x),
{
    let t = s.insert(p, x);
    if t.contains(y) {
        let k = choose|k: int| 0 <= k < t.len() && t[k] == y;
        if k < p {
            assert(s[k] == y);
        } else if k > p {
            assert(s[k - 1] == y);
        }
    }
    if s.contains(y) {
        let k = choose|k: int| 0 <= k < s.len() && s[k] == y;
        if k < p {
            assert(t[k] == y);
        } else {
            assert(t[k + 1] == y);
        }
    }
    if y == x {
        assert(t[p] == y);
    }
}

proof fn lemma_contains_last<T>(s: Seq<T>, y: T)
    requires
        s.len() > 0,
    ensures
        s.contains(y) <==> (s.drop_last().contains(y) || y == s.last()),
{
    if s.contains(y) {
        let k = choose|k: int| 0 <= k < s.len() && s[k] == y;
        if k < s.len() - 1 {
            assert(s.drop_last()[k] == y);
        }
    }
    if s.drop_last().contains(y) {
        let k = choose|k: int| 0 <= k < s.len() - 1 && s.drop_last()[k] == y;
        assert(s[k] == y);
    }
    if y == s.last() {
        assert(s[s.len() - 1] == y);
    }
}

/// Sorting orders the items by key and keeps exactly the same items.
pub proof fn lemma_sort_by<T>(s: Seq<T>, key: spec_fn(T) -> Seq<char>)
    ensures
        sorted_by(sort_by(s, key), key),
        sort_by(s, key).len() == s.len(),
        forall|y: T| #[trigger] sort_by(s, key).contains(y) <==> s.contains(y),
    decreases s.len(),
{
    if s.len() > 0 {
        let d = s.drop_last();
        let sorted = sort_by(d, key);
        lemma_sort_by(d, key);
        lemma_ins_pos(sorted, s.last(), key);
        let p = ins_pos(sorted, s.last(), key);
        lemma_insert_keeps_sorted(sorted, key, s.last(), p);
        assert forall|y: T| #[trigger] sort_by(s, key).contains(y) <==> s.contains(y) by {
            lemma_insert_contains(sorted, p, s.last(), y);
            lemma_contains_last(s, y);
        }
    }
}

/// Sorting keeps identities distinct.
pub proof fn lemma_sort_unique<T>(s: Seq<T>, key: spec_fn(T) -> Seq<char>, id: spec_fn(T) -> Seq<char>)
    requires
        unique_by(s, id),
    ensures
        unique_by(sort_by(s, key), id),
    decreases s.len(),
{
    if s.len() > 0 {
        let d = s.drop_last();
        assert(unique_by(d, id)) by {
            assert forall|i: int, j: int| 0 <= i < j < d.len() implies id(#[trigger] d[i]) != id(#[trigger] d[j]) by {
                assert(d[i] == s[i] && d[j] == s[j]);
            }
        }
        lemma_sort_unique(d, key, id);
        lemma_sort_by(d, key);
        let sorted = sort_by(d, key);
        let x = s.last();
        let p = ins_pos(sorted, x, key);
        lemma_ins_pos(sorted, x, key);
        let t = sorted.insert(p, x);
        assert forall|k: int| 0 <= k < sorted.len() implies id(#[trigger] sorted[k]) != id(x) by {
            assert(sorted.contains(sorted[k]));
            assert(d.contains(sorted[k]));
            let m = choose|m: int| 0 <= m < d.len() && d[m] == sorted[k];
            assert(s[m] == d[m]);
            assert(s[s.len() - 1] == x);
        }
        assert forall|i: int, j: int| 0 <= i < j < t.len() implies id(#[trigger] t[i]) != id(#[trigger] t[j]) by {
            if j < p {
                assert(t[i] == sorted[i] && t[j] == sorted[j]);
            } else if j == p {
                assert(t[i] == sorted[i] && t[j] == x);
            } else if i < p {
                assert(t[i] == sorted[i] && t[j] == sorted[j - 1]);
            } else if i == p {
                assert(t[i] == x && t[j] == sorted[j - 1]);
            } else {
                assert(t[i] == sorted[i - 1] && t[j] == sorted[j - 1]);
            }
        }
    }
}

/// Keeping the first item of each identity leaves distinct identities, keeps
/// every identity, and keeps only first occurrences.
pub proof fn lemma_dedupe_by<T>(s: Seq<T>, id: spec_fn(T) -> Seq<char>)
    ensures
        unique_by(dedupe_by(s, id), id),
        forall|i: int| 0 <= i < s.len() ==> taken_by(dedupe_by(s, id), id(#[trigger] s[i]), id),
        forall|j: int|
            0 <= j < dedupe_by(s, id).len() ==> first_of(s, #[trigger] dedupe_by(s, id)[j], id),
    decreases s.len(),
{
    if s.len() > 0 {
        let p = s.drop_last();
        let d = dedupe_by(p, id);
        lemma_dedupe_by(p, id);
        let x = s.last();
        let n = s.len() - 1;
        assert(s[n] == x);
        // Every identity of the prefix stays taken.
        assert forall|i: int| 0 <= i < s.len() implies taken_by(dedupe_by(s, id), id(#[trigger] s[i]), id) by {
            if i < n {
                assert(s[i] == p[i]);
                assert(taken_by(d, id(p[i]), id));
                let k = choose|k: int| 0 <= k < d.len() && id(#[trigger] d[k]) == id(p[i]);
                if !taken_by(d, id(x), id) {
                    assert(d.push(x)[k] == d[k]);
                }
            } else {
                if !taken_by(d, id(x), id) {
                    assert(d.push(x)[d.len() as int] == x);
                }
            }
        }
        // Items kept from the prefix are first occurrences in `s` too.
        assert forall|j: int| 0 <= j < d.len() implies first_of(s, #[trigger] d[j], id) by {
            assert(first_of(p, d[j], id));
            let i = choose|i: int|
                0 <= i < p.len() && #[trigger] p[i] == d[j] && forall|k: int| 0 <= k < i ==> id(#[trigger] p[k]) != id(d[j]);
            assert(s[i] == p[i]);
            assert forall|k: int| 0 <= k < i implies id(#[trigger] s[k]) != id(d[j]) by {
                assert(s[k] == p[k]);
            }
        }
        if !taken_by(d, id(x), id) {
            let e = d.push(x);
            assert forall|k: int| 0 <= k < n implies id(#[trigger] s[k]) != id(x) by {
                assert(s[k] == p[k]);
                if id(s[k]) == id(x) {
                    assert(taken_by(d, id(p[k]), id));
                }
            }
            assert(first_of(s, x, id));
            assert forall|j: int| 0 <= j < e.len() implies first_of(s, #[trigger] e[j], id) by {
                if j < d.len() {
                    assert(e[j] == d[j]);
                }
            }
            assert forall|i: int, j: int| 0 <= i < j < e.len() implies id(#[trigger] e[i]) != id(#[trigger] e[j]) by {
                assert(e[i] == d[i]);
                if j < d.len() {
                    assert(e[j] == d[j]);
                } else {
                    assert(e[j] == x);
                }
            }
        }
    }
}

} // verus!
