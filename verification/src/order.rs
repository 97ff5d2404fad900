//! The order of texts, and what the store builds on it: sets of texts kept as
//! strictly ascending lists, and stable orderings of records by a text key.
//!
//! Texts are ordered character by character, by code point; a proper prefix
//! comes before the longer text. This is the order in which the stored
//! timestamps sort chronologically.

use vstd::prelude::*;
use vstd::std_specs::iter::IteratorSpec;

verus! {

/// `a` comes strictly before `b`.
pub open spec fn lex_lt(a: Seq<char>, b: Seq<char>) -> bool
    decreases a.len(),
{
    if b.len() == 0 {
        false
    } else if a.len() == 0 {
        true
    } else if a[0] != b[0] {
        a[0] < b[0]
    } else {
        lex_lt(a.drop_first(), b.drop_first())
    }
}

/// `a` comes before `b` or equals it.
pub open spec fn lex_le(a: Seq<char>, b: Seq<char>) -> bool {
    a == b || lex_lt(a, b)
}

/// No text comes before itself.
pub proof fn lemma_lex_irreflexive(a: Seq<char>)
    ensures
        !lex_lt(a, a),
    decreases a.len(),
{
    if a.len() > 0 {
        lemma_lex_irreflexive(a.drop_first());
    }
}

/// Of two texts at most one comes before the other.
pub proof fn lemma_lex_asymmetric(a: Seq<char>, b: Seq<char>)
    ensures
        !(lex_lt(a, b) && lex_lt(b, a)),
    decreases a.len(),
{
    if a.len() > 0 && b.len() > 0 && a[0] == b[0] {
        lemma_lex_asymmetric(a.drop_first(), b.drop_first());
    }
}

/// The order is transitive.
pub proof fn lemma_lex_transitive(a: Seq<char>, b: Seq<char>, c: Seq<char>)
    requires
        lex_lt(a, b),
        lex_lt(b, c),
    ensures
        lex_lt(a, c),
    decreases a.len(),
{
    if a.len() > 0 && b.len() > 0 && c.len() > 0 && a[0] == b[0] && b[0] == c[0] {
        lemma_lex_transitive(a.drop_first(), b.drop_first(), c.drop_first());
    }
}

/// Two different texts are ordered one way or the other.
pub proof fn lemma_lex_total(a: Seq<char>, b: Seq<char>)
    ensures
        lex_lt(a, b) || a == b || lex_lt(b, a),
    decreases a.len(),
{
    if a.len() > 0 && b.len() > 0 && a[0] == b[0] {
        lemma_lex_total(a.drop_first(), b.drop_first());
        if a.drop_first() == b.drop_first() {
            assert(a =~= seq![a[0]] + a.drop_first());
            assert(b =~= seq![b[0]] + b.drop_first());
        }
    } else if a.len() == 0 && b.len() == 0 {
        assert(a =~= b);
    }
}

/// How one text stands to another.
#[derive(Clone, Copy, Debug, PartialEq, Eq)]
pub enum Order {
    /// The first comes before the second.
    Less,
    /// The two are the same text.
    Equal,
    /// The first comes after the second.
    Greater,
}

/// What `compare(a, b)` returns.
pub open spec fn order_of(a: Seq<char>, b: Seq<char>) -> Order {
    if a == b {
        Order::Equal
    } else if lex_lt(a, b) {
        Order::Less
    } else {
        Order::Greater
    }
}

/// How `a` stands to `b` in the order of texts.
pub fn compare(a: &str, b: &str) -> (r: Order)
    ensures
        r == order_of(a@, b@),
        r == Order::Less <==> lex_lt(a@, b@),
        r == Order::Equal <==> a@ == b@,
        r == Order::Greater <==> lex_lt(b@, a@),
{
    let mut ia = a.chars();
    let mut ib = b.chars();
    let ghost mut k: int = 0;
    proof {
        assert(a@.skip(0) == a@);
        assert(b@.skip(0) == b@);
        lemma_lex_irreflexive(a@);
        lemma_lex_asymmetric(a@, b@);
        lemma_lex_total(a@, b@);
    }
    loop
        invariant
            0 <= k <= a@.len(),
            k <= b@.len(),
            ia.obeys_prophetic_iter_laws(),
            ib.obeys_prophetic_iter_laws(),
            ia.remaining() == a@.skip(k),
            ib.remaining() == b@.skip(k),
            a@.take(k) == b@.take(k),
            lex_lt(a@, b@) == lex_lt(a@.skip(k), b@.skip(k)),
            lex_lt(b@, a@) == lex_lt(b@.skip(k), a@.skip(k)),
            !(lex_lt(a@, b@) && lex_lt(b@, a@)),
            a@ == b@ ==> !lex_lt(a@, b@) && !lex_lt(b@, a@),
            lex_lt(a@, b@) || a@ == b@ || lex_lt(b@, a@),
            ia.decrease() is Some,
        decreases ia.decrease()->0,
    {
        let x = ia.next();
        let y = ib.next();
        match (x, y) {
            (None, None) => {
                proof {
                    assert(a@.take(k) == a@);
                    assert(b@.take(k) == b@);
                }
                return Order::Equal;
            },
            (None, Some(_)) => {
                return Order::Less;
            },
            (Some(_), None) => {
                return Order::Greater;
            },
            (Some(p), Some(q)) => {
                if p < q {
                    return Order::Less;
                }
                if q < p {
                    return Order::Greater;
                }
                proof {
                    assert(a@.skip(k).drop_first() == a@.skip(k + 1));
                    assert(b@.skip(k).drop_first() == b@.skip(k + 1));
                    assert(a@.take(k + 1) == a@.take(k).push(a@[k]));
                    assert(b@.take(k + 1) == b@.take(k).push(b@[k]));
                    k = k + 1;
                }
            },
        }
    }
}

/// A list of texts in which each comes strictly before the next: a set of
/// texts, written down in order.
pub open spec fn strictly_ascending(s: Seq<Seq<char>>) -> bool {
    forall|i: int, j: int| 0 <= i < j < s.len() ==> lex_lt(#[trigger] s[i], #[trigger] s[j])
}

/// A strictly ascending list holds no text twice.
pub proof fn lemma_ascending_no_duplicates(s: Seq<Seq<char>>)
    requires
        strictly_ascending(s),
    ensures
        s.no_duplicates(),
{
    assert forall|i: int, j: int| 0 <= i < s.len() && 0 <= j < s.len() && i != j implies s[i]
        != s[j] by {
        lemma_lex_irreflexive(s[i]);
    }
}

/// Two strictly ascending lists that hold the same texts are the same list.
pub proof fn lemma_ascending_unique(s: Seq<Seq<char>>, t: Seq<Seq<char>>)
    requires
        strictly_ascending(s),
        strictly_ascending(t),
        s.to_set() == t.to_set(),
    ensures
        s == t,
    decreases s.len(),
{
    if s.len() == 0 {
        if t.len() > 0 {
            assert(t.to_set().contains(t[0]));
            assert(s.to_set().contains(t[0]));
        }
        assert(s =~= t);
    } else if t.len() == 0 {
        assert(s.to_set().contains(s[0]));
        assert(t.to_set().contains(s[0]));
    } else {
        // The first of each is the least of the common set.
        assert(s.to_set().contains(s[0]));
        assert(t.to_set().contains(s[0]));
        let a = choose|a: int| 0 <= a < t.len() && t[a] == s[0];
        assert(t.to_set().contains(t[0]));
        assert(s.to_set().contains(t[0]));
        let b = choose|b: int| 0 <= b < s.len() && s[b] == t[0];
        lemma_lex_asymmetric(s[0], t[0]);
        lemma_lex_irreflexive(s[0]);
        assert(s[0] == t[0]) by {
            if a > 0 && b > 0 {
                assert(lex_lt(t[0], t[a]));
                assert(lex_lt(s[0], s[b]));
            }
        }
        let s1 = s.drop_first();
        let t1 = t.drop_first();
        assert(strictly_ascending(s1)) by {
            assert forall|i: int, j: int| 0 <= i < j < s1.len() implies lex_lt(
                #[trigger] s1[i],
                #[trigger] s1[j],
            ) by {
                assert(lex_lt(s[i + 1], s[j + 1]));
            }
        }
        assert(strictly_ascending(t1)) by {
            assert forall|i: int, j: int| 0 <= i < j < t1.len() implies lex_lt(
                #[trigger] t1[i],
                #[trigger] t1[j],
            ) by {
                assert(lex_lt(t[i + 1], t[j + 1]));
            }
        }
        assert(s1.to_set() =~= t1.to_set()) by {
            assert forall|x: Seq<char>| s1.to_set().contains(x) <==> t1.to_set().contains(x) by {
                if s1.to_set().contains(x) {
                    let i = choose|i: int| 0 <= i < s1.len() && s1[i] == x;
                    assert(s[i + 1] == x);
                    assert(lex_lt(s[0], s[i + 1]));
                    assert(s.to_set().contains(x));
                    assert(t.to_set().contains(x));
                    let j = choose|j: int| 0 <= j < t.len() && t[j] == x;
                    assert(j > 0);
                    assert(t1[j - 1] == x);
                }
                if t1.to_set().contains(x) {
                    let i = choose|i: int| 0 <= i < t1.len() && t1[i] == x;
                    assert(t[i + 1] == x);
                    assert(lex_lt(t[0], t[i + 1]));
                    assert(t.to_set().contains(x));
                    assert(s.to_set().contains(x));
                    let j = choose|j: int| 0 <= j < s.len() && s[j] == x;
                    assert(j > 0);
                    assert(s1[j - 1] == x);
                }
            }
        }
        lemma_ascending_unique(s1, t1);
        assert(s =~= seq![s[0]] + s1);
        assert(t =~= seq![t[0]] + t1);
    }
}

/// Adds `x` to the set that the strictly ascending list `v` stands for.
pub(crate) fn insert_unique(v: &mut Vec<String>, x: String)
    requires
        strictly_ascending(old(v).deep_view()),
    ensures
        strictly_ascending(final(v).deep_view()),
        final(v).deep_view().to_set() == old(v).deep_view().to_set().insert(x@),
{
    let ghost before = v.deep_view();
    let mut i: usize = 0;
    let mut found: bool = false;
    while i < v.len() && !found
        invariant
            i <= v.len(),
            *v == *old(v),
            before == v.deep_view(),
            strictly_ascending(before),
            forall|k: int| 0 <= k < i ==> lex_lt(#[trigger] before[k], x@),
            found ==> i < v.len() && lex_lt(x@, before[i as int]),
        decreases v.len() - i, (if found { 0int } else { 1int }),
    {
        match compare(v[i].as_str(), x.as_str()) {
            Order::Less => {
                i += 1;
            },
            Order::Equal => {
                proof {
                    assert(before[i as int] == x@);
                    assert(before.to_set().contains(x@));
                    assert(before.to_set().insert(x@) =~= before.to_set());
                }
                return ;
            },
            Order::Greater => {
                found = true;
            },
        }
    }
    v.insert(i, x);
    proof {
        let after = v.deep_view();
        let p = i as int;
        assert(after.len() == before.len() + 1);
        assert(after[p] == x@);
        assert forall|k: int| 0 <= k < p implies after[k] == before[k] by {}
        assert forall|k: int| p < k < after.len() implies after[k] == before[k - 1] by {}
        assert(p < before.len() ==> lex_lt(x@, before[p]));
        assert forall|a: int, b: int| 0 <= a < b < after.len() implies lex_lt(
            #[trigger] after[a],
            #[trigger] after[b],
        ) by {
            if b < p {
                assert(lex_lt(before[a], before[b]));
            } else if b == p {
            } else if a < p {
                assert(lex_lt(before[a], before[b - 1]));
            } else if a == p {
                if b - 1 > p {
                    assert(lex_lt(before[p], before[b - 1]));
                    lemma_lex_transitive(x@, before[p], before[b - 1]);
                }
            } else {
                assert(lex_lt(before[a - 1], before[b - 1]));
            }
        }
        assert(after.to_set() =~= before.to_set().insert(x@)) by {
            assert forall|t: Seq<char>| after.to_set().contains(t) <==> before.to_set().insert(
                x@,
            ).contains(t) by {
                if after.to_set().contains(t) {
                    let k = choose|k: int| 0 <= k < after.len() && after[k] == t;
                    if k < p {
                        assert(before[k] == t);
                    } else if k > p {
                        assert(before[k - 1] == t);
                    }
                }
                if before.to_set().contains(t) {
                    let k = choose|k: int| 0 <= k < before.len() && before[k] == t;
                    if k < p {
                        assert(after[k] == t);
                    } else {
                        assert(after[k + 1] == t);
                    }
                }
                if t == x@ {
                    assert(after[p] == t);
                }
            }
        }
    }
}

/// Where `x` goes into the list `s`: before the first text that comes after
/// it, or at the end.
pub open spec fn insertion_point(s: Seq<Seq<char>>, x: Seq<char>) -> nat
    decreases s.len(),
{
    if s.len() == 0 || lex_lt(x, s[0]) {
        0
    } else {
        1 + insertion_point(s.drop_first(), x)
    }
}

/// The list `s` with `x` put in at its place. A list in ascending order
/// stays in ascending order.
pub open spec fn with_text(s: Seq<Seq<char>>, x: Seq<char>) -> Seq<Seq<char>> {
    s.insert(insertion_point(s, x) as int, x)
}

/// The insertion point lies in the list or at its end; nothing before it
/// comes after `x`, and what stands at it does.
pub proof fn lemma_insertion_point(s: Seq<Seq<char>>, x: Seq<char>)
    ensures
        insertion_point(s, x) <= s.len(),
        forall|k: int| 0 <= k < insertion_point(s, x) ==> !lex_lt(x, #[trigger] s[k]),
        insertion_point(s, x) < s.len() ==> lex_lt(x, s[insertion_point(s, x) as int]),
    decreases s.len(),
{
    if !(s.len() == 0 || lex_lt(x, s[0])) {
        let t = s.drop_first();
        lemma_insertion_point(t, x);
        assert forall|k: int| 0 <= k < insertion_point(s, x) implies !lex_lt(x, #[trigger] s[k]) by {
            if k > 0 {
                assert(s[k] == t[k - 1]);
            }
        }
        if insertion_point(s, x) < s.len() {
            assert(s[insertion_point(s, x) as int] == t[insertion_point(t, x) as int]);
        }
    }
}

/// A set of texts, written down in order, stays one when a text that it
/// does not hold is put in at its place.
pub proof fn lemma_with_text_ascending(s: Seq<Seq<char>>, x: Seq<char>)
    requires
        strictly_ascending(s),
        !s.contains(x),
    ensures
        strictly_ascending(with_text(s, x)),
{
    lemma_insertion_point(s, x);
    let p = insertion_point(s, x) as int;
    let r = with_text(s, x);
    assert forall|a: int, b: int| 0 <= a < b < r.len() implies lex_lt(
        #[trigger] r[a],
        #[trigger] r[b],
    ) by {
        if b < p {
            assert(lex_lt(s[a], s[b]));
        } else if b == p {
            assert(s.contains(s[a]));
            lemma_lex_total(s[a], x);
        } else if a < p {
            assert(lex_lt(s[a], s[b - 1]));
        } else if a == p {
            if b - 1 > p {
                assert(lex_lt(s[p], s[b - 1]));
                lemma_lex_transitive(x, s[p], s[b - 1]);
            }
        } else {
            assert(lex_lt(s[a - 1], s[b - 1]));
        }
    }
}

/// Puts `x` into the list `v` at its place: before the first text that
/// comes after it, or at the end.
pub fn insert_sorted(v: &mut Vec<String>, x: String)
    ensures
        final(v).deep_view() == with_text(old(v).deep_view(), x@),
{
    let ghost all = v.deep_view();
    let mut i: usize = 0;
    let mut found: bool = false;
    proof {
        assert(all.skip(0) == all);
    }
    while i < v.len() && !found
        invariant
            i <= v.len(),
            *v == *old(v),
            all == v.deep_view(),
            insertion_point(all, x@) == i + insertion_point(all.skip(i as int), x@),
            found ==> i < v.len() && lex_lt(x@, all[i as int]),
        decreases v.len() - i, (if found { 0int } else { 1int }),
    {
        proof {
            assert(all.skip(i as int)[0] == v[i as int]@);
            assert(all.skip(i as int).drop_first() == all.skip(i + 1));
        }
        match compare(x.as_str(), v[i].as_str()) {
            Order::Less => {
                found = true;
            },
            _ => {
                i += 1;
            },
        }
    }
    proof {
        if found {
            assert(all.skip(i as int)[0] == all[i as int]);
        }
        assert(insertion_point(all, x@) == i);
    }
    v.insert(i, x);
    proof {
        assert(v.deep_view() =~~= all.insert(i as int, x@));
    }
}

/// In a stable ordering of the positions of `keys`, position `a` comes before
/// position `b`: its key comes first (last, when descending), or the keys
/// are equal and `a` is the earlier position.
pub open spec fn key_before(keys: Seq<Seq<char>>, a: int, b: int, descending: bool) -> bool {
    if keys[a] == keys[b] {
        a < b
    } else if descending {
        lex_lt(keys[b], keys[a])
    } else {
        lex_lt(keys[a], keys[b])
    }
}

/// `perm` holds the position `k`.
pub open spec fn lists(perm: Seq<usize>, k: int) -> bool {
    exists|i: int| 0 <= i < perm.len() && #[trigger] perm[i] == k
}

/// `perm` lists every position of `keys` once, sorted by key, positions with
/// equal keys in the order of their positions.
pub open spec fn is_stable_order(keys: Seq<Seq<char>>, perm: Seq<usize>, descending: bool) -> bool {
    &&& perm.len() == keys.len()
    &&& forall|i: int| 0 <= i < perm.len() ==> (#[trigger] perm[i]) < keys.len()
    &&& forall|k: int| 0 <= k < keys.len() ==> #[trigger] lists(perm, k)
    &&& forall|i: int, j: int|
        0 <= i < j < perm.len() ==> key_before(
            keys,
            #[trigger] perm[i] as int,
            #[trigger] perm[j] as int,
            descending,
        )
}

/// There is only one stable ordering.
pub proof fn lemma_stable_order_unique(
    keys: Seq<Seq<char>>,
    p: Seq<usize>,
    q: Seq<usize>,
    descending: bool,
)
    requires
        is_stable_order(keys, p, descending),
        is_stable_order(keys, q, descending),
    ensures
        p == q,
{
    assert forall|i: int| 0 <= i < p.len() implies p[i] == q[i] by {
        lemma_stable_order_agree(keys, p, q, descending, i);
    }
    assert(p =~= q);
}

proof fn lemma_stable_order_agree(
    keys: Seq<Seq<char>>,
    p: Seq<usize>,
    q: Seq<usize>,
    descending: bool,
    i: int,
)
    requires
        is_stable_order(keys, p, descending),
        is_stable_order(keys, q, descending),
        0 <= i < p.len(),
    ensures
        p[i] == q[i],
    decreases i,
{
    assert forall|j: int| 0 <= j < i implies p[j] == q[j] by {
        lemma_stable_order_agree(keys, p, q, descending, j);
    }
    if p[i] != q[i] {
        let a = p[i] as int;
        let b = q[i] as int;
        lemma_lex_total(keys[a], keys[b]);
        lemma_lex_asymmetric(keys[a], keys[b]);
        lemma_lex_irreflexive(keys[a]);
        lemma_lex_irreflexive(keys[b]);
        // Where does each stand in the other ordering?
        assert(lists(q, a));
        assert(lists(p, b));
        let t = choose|t: int| 0 <= t < q.len() && q[t] == a;
        let u = choose|u: int| 0 <= u < p.len() && p[u] == b;
        if t < i {
            assert(p[t] == q[t]);
            assert(key_before(keys, p[t] as int, p[i] as int, descending));
        } else if u < i {
            assert(p[u] == q[u]);
            assert(key_before(keys, q[u] as int, q[i] as int, descending));
        } else {
            assert(t > i && u > i);
            assert(key_before(keys, q[i] as int, q[t] as int, descending));
            assert(key_before(keys, p[i] as int, p[u] as int, descending));
        }
    }
}

/// The stable ordering of the positions of `keys`.
pub open spec fn stable_order_of(keys: Seq<Seq<char>>, descending: bool) -> Seq<usize> {
    choose|perm: Seq<usize>| is_stable_order(keys, perm, descending)
}

/// The items of `s` in the order that `perm` gives to their positions.
pub open spec fn arranged<T>(s: Seq<T>, perm: Seq<usize>) -> Seq<T> {
    Seq::new(perm.len(), |i: int| s[perm[i] as int])
}

/// `key_before` is transitive on the positions of `keys`.
proof fn lemma_key_before_transitive(
    keys: Seq<Seq<char>>,
    a: int,
    b: int,
    c: int,
    descending: bool,
)
    requires
        key_before(keys, a, b, descending),
        key_before(keys, b, c, descending),
    ensures
        key_before(keys, a, c, descending),
{
    let (x, y, z) = (keys[a], keys[b], keys[c]);
    lemma_lex_irreflexive(x);
    lemma_lex_irreflexive(y);
    lemma_lex_irreflexive(z);
    lemma_lex_asymmetric(x, y);
    lemma_lex_asymmetric(y, z);
    lemma_lex_asymmetric(x, z);
    if x != y && y != z {
        if descending {
            lemma_lex_transitive(z, y, x);
        } else {
            lemma_lex_transitive(x, y, z);
        }
    }
}

/// The positions of `keys`, sorted by key (descending if asked), positions
/// with equal keys in the order of their positions.
pub fn stable_order(keys: &Vec<String>, descending: bool) -> (perm: Vec<usize>)
    ensures
        is_stable_order(keys.deep_view(), perm@, descending),
        perm@ == stable_order_of(keys.deep_view(), descending),
{
    let ghost kv = keys.deep_view();
    let mut perm: Vec<usize> = Vec::new();
    let mut i: usize = 0;
    while i < keys.len()
        invariant
            i <= keys.len(),
            kv == keys.deep_view(),
            is_stable_order(kv.take(i as int), perm@, descending),
        decreases keys.len() - i,
    {
        let ghost head = kv.take(i as int);
        let ghost next = kv.take(i + 1);
        let mut p: usize = 0;
        while p < perm.len() && stays_before(keys, perm[p], i, descending)
            invariant
                p <= perm.len(),
                i < keys.len(),
                kv == keys.deep_view(),
                is_stable_order(head, perm@, descending),
                head == kv.take(i as int),
                forall|t: int| 0 <= t < p ==> key_before(kv, #[trigger] perm[t] as int, i as int, descending),
            decreases perm.len() - p,
        {
            p += 1;
        }
        let ghost prior = perm@;
        perm.insert(p, i);
        proof {
            let now = perm@;
            assert(now.len() == prior.len() + 1);
            assert(now[p as int] == i);
            assert forall|t: int| 0 <= t < p implies now[t] == prior[t] by {}
            assert forall|t: int| p < t < now.len() implies now[t] == prior[t - 1] by {}
            assert forall|a: int, b: int| 0 <= a < i && 0 <= b < i implies key_before(
                head,
                a,
                b,
                descending,
            ) == key_before(kv, a, b, descending) by {}
            assert forall|t: int| p <= t < prior.len() implies key_before(
                kv,
                i as int,
                #[trigger] prior[t] as int,
                descending,
            ) by {
                lemma_lex_total(kv[prior[p as int] as int], kv[i as int]);
                assert(key_before(kv, i as int, prior[p as int] as int, descending));
                if t > p {
                    assert(key_before(head, prior[p as int] as int, prior[t] as int, descending));
                    lemma_key_before_transitive(
                        kv,
                        i as int,
                        prior[p as int] as int,
                        prior[t] as int,
                        descending,
                    );
                }
            }
            assert forall|k: int| 0 <= k < next.len() implies #[trigger] lists(now, k) by {
                if k < i {
                    assert(lists(prior, k));
                    let t = choose|t: int| 0 <= t < prior.len() && prior[t] == k;
                    if t < p {
                        assert(now[t] == k);
                    } else {
                        assert(now[t + 1] == k);
                    }
                } else {
                    assert(now[p as int] == k);
                }
            }
            assert forall|a: int, b: int| 0 <= a < b < now.len() implies key_before(
                next,
                #[trigger] now[a] as int,
                #[trigger] now[b] as int,
                descending,
            ) by {
                if b < p {
                    assert(key_before(head, prior[a] as int, prior[b] as int, descending));
                } else if b == p {
                    assert(key_before(kv, prior[a] as int, i as int, descending));
                } else if a < p {
                    assert(key_before(head, prior[a] as int, prior[b - 1] as int, descending));
                } else if a == p {
                    assert(key_before(kv, i as int, prior[b - 1] as int, descending));
                } else {
                    assert(key_before(head, prior[a - 1] as int, prior[b - 1] as int, descending));
                }
            }
        }
        i += 1;
    }
    proof {
        assert(kv.take(keys.len() as int) == kv);
        let other = stable_order_of(kv, descending);
        lemma_stable_order_unique(kv, perm@, other, descending);
    }
    perm
}

/// Whether, in the stable ordering, the earlier position `a` stays before the
/// later position `b`.
fn stays_before(keys: &Vec<String>, a: usize, b: usize, descending: bool) -> (r: bool)
    requires
        a < b < keys.len(),
    ensures
        r == key_before(keys.deep_view(), a as int, b as int, descending),
{
    proof {
        lemma_lex_irreflexive(keys.deep_view()[a as int]);
        lemma_lex_asymmetric(keys.deep_view()[a as int], keys.deep_view()[b as int]);
    }
    match compare(keys[a].as_str(), keys[b].as_str()) {
        Order::Equal => true,
        Order::Less => !descending,
        Order::Greater => descending,
    }
}

/// A list of texts in which none comes before an earlier one when read
/// from the end: each is equal to the one before it or comes before it.
pub open spec fn descending(s: Seq<Seq<char>>) -> bool {
    forall|i: int, j: int| 0 <= i < j < s.len() ==> lex_le(#[trigger] s[j], #[trigger] s[i])
}

/// A list of texts in which each is equal to the one before it or comes
/// after it.
pub open spec fn ascending(s: Seq<Seq<char>>) -> bool {
    forall|i: int, j: int| 0 <= i < j < s.len() ==> lex_le(#[trigger] s[i], #[trigger] s[j])
}

/// Two lists hold the same items, and as many.
pub open spec fn same_members<T>(a: Seq<T>, b: Seq<T>) -> bool {
    a.len() == b.len() && forall|x: T| a.contains(x) <==> b.contains(x)
}

/// Items arranged in a stable ordering are the items that were there.
pub proof fn lemma_arranged_members<T>(
    items: Seq<T>,
    keys: Seq<Seq<char>>,
    perm: Seq<usize>,
    descending: bool,
)
    requires
        items.len() == keys.len(),
        is_stable_order(keys, perm, descending),
    ensures
        same_members(arranged(items, perm), items),
{
    let a = arranged(items, perm);
    assert forall|x: T| a.contains(x) <==> items.contains(x) by {
        if a.contains(x) {
            let i = choose|i: int| 0 <= i < a.len() && a[i] == x;
            assert(items[perm[i] as int] == x);
        }
        if items.contains(x) {
            let k = choose|k: int| 0 <= k < items.len() && items[k] == x;
            assert(lists(perm, k));
            let i = choose|i: int| 0 <= i < perm.len() && perm[i] == k;
            assert(a[i] == x);
        }
    }
}

/// Keys arranged in their stable ordering are sorted.
pub proof fn lemma_arranged_keys_sorted(keys: Seq<Seq<char>>, perm: Seq<usize>, down: bool)
    requires
        is_stable_order(keys, perm, down),
    ensures
        down ==> descending(arranged(keys, perm)),
        !down ==> ascending(arranged(keys, perm)),
{
    let a = arranged(keys, perm);
    assert forall|i: int, j: int| 0 <= i < j < a.len() implies (if down {
        lex_le(#[trigger] a[j], #[trigger] a[i])
    } else {
        lex_le(a[i], a[j])
    }) by {
        assert(key_before(keys, perm[i] as int, perm[j] as int, down));
    }
}

/// The strings of `items` in the order that `perm` gives to their positions.
pub(crate) fn arrange_strings(items: &Vec<String>, perm: &Vec<usize>) -> (r: Vec<String>)
    requires
        forall|i: int| 0 <= i < perm.len() ==> (#[trigger] perm[i]) < items.len(),
    ensures
        r.deep_view() == arranged(items.deep_view(), perm@),
{
    let mut out: Vec<String> = Vec::new();
    let mut i: usize = 0;
    while i < perm.len()
        invariant
            i <= perm.len(),
            forall|k: int| 0 <= k < perm.len() ==> (#[trigger] perm[k]) < items.len(),
            out.deep_view() == arranged(items.deep_view(), perm@).take(i as int),
        decreases perm.len() - i,
    {
        let ghost prior = out.deep_view();
        out.push(items[perm[i]].clone());
        proof {
            assert(out.deep_view() =~~= prior.push(items[perm[i as int] as int]@));
            assert(arranged(items.deep_view(), perm@).take(i + 1) =~~= prior.push(
                items[perm[i as int] as int]@,
            ));
        }
        i += 1;
    }
    proof {
        assert(arranged(items.deep_view(), perm@).take(perm.len() as int) =~~= arranged(
            items.deep_view(),
            perm@,
        ));
    }
    out
}

} // verus!
