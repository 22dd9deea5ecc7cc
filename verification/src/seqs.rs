//! Sequence vocabulary shared by the contracts: sorted sets of integers and
//! order-preserving removal of repeats.
use vstd::prelude::*;

verus! {

/// Every element is smaller than every later element.
pub open spec fn strictly_increasing(s: Seq<int>) -> bool {
    forall|i: int, j: int| 0 <= i < j < s.len() ==> s[i] < s[j]
}

/// The two sequences hold the same values (ignoring order and repeats).
pub open spec fn same_elements<A>(a: Seq<A>, b: Seq<A>) -> bool {
    forall|x: A| a.contains(x) <==> b.contains(x)
}

/// Inserts `x` into a strictly increasing sequence unless it is present.
pub open spec fn insert_sorted(r: Seq<int>, x: int) -> Seq<int>
    decreases r.len(),
{
    if r.len() == 0 {
        seq![x]
    } else if x < r[0] {
        seq![x] + r
    } else if x == r[0] {
        r
    } else {
        seq![r[0]] + insert_sorted(r.drop_first(), x)
    }
}

/// The values of `s` in ascending order, each once.
pub open spec fn sort_unique(s: Seq<int>) -> Seq<int>
    decreases s.len(),
{
    if s.len() == 0 {
        seq![]
    } else {
        insert_sorted(sort_unique(s.drop_last()), s.last())
    }
}

/// The first occurrence of each value, in order of first appearance.
pub open spec fn dedup<A>(s: Seq<A>) -> Seq<A>
    decreases s.len(),
{
    if s.len() == 0 {
        seq![]
    } else {
        let d = dedup(s.drop_last());
        if d.contains(s.last()) {
            d
        } else {
            d.push(s.last())
        }
    }
}

pub proof fn lemma_insert_sorted(r: Seq<int>, x: int)
    requires
        strictly_increasing(r),
    ensures
        strictly_increasing(insert_sorted(r, x)),
        forall|y: int| #[trigger] insert_sorted(r, x).contains(y) <==> (r.contains(y) || y == x),
    decreases r.len(),
{
    if r.len() == 0 {
        assert(insert_sorted(r, x) =~= seq![x]);
        assert(seq![x][0] == x);
    } else if x < r[0] {
        let t = seq![x] + r;
        assert forall|y: int| t.contains(y) <==> (r.contains(y) || y == x) by {
            if t.contains(y) {
                let k = choose|k: int| 0 <= k < t.len() && t[k] == y;
                if k > 0 {
                    assert(r[k - 1] == y);
                }
            }
            if r.contains(y) {
                let k = choose|k: int| 0 <= k < r.len() && r[k] == y;
                assert(t[k + 1] == y);
            }
            if y == x {
                assert(t[0] == y);
            }
        }
        assert forall|i: int, j: int| 0 <= i < j < t.len() implies t[i] < t[j] by {
            if i == 0 {
                assert(r[0] <= r[j - 1]);
            }
        }
    } else if x == r[0] {
        assert(r.contains(r[0]));
    } else {
        let rest = r.drop_first();
        assert(strictly_increasing(rest));
        lemma_insert_sorted(rest, x);
        let u = insert_sorted(rest, x);
        let t = seq![r[0]] + u;
        assert forall|y: int| t.contains(y) <==> (r.contains(y) || y == x) by {
            if t.contains(y) {
                let k = choose|k: int| 0 <= k < t.len() && t[k] == y;
                if k > 0 {
                    assert(u.contains(y));
                    if rest.contains(y) {
                        let m = choose|m: int| 0 <= m < rest.len() && rest[m] == y;
                        assert(r[m + 1] == y);
                    }
                } else {
                    assert(r[0] == y);
                }
            }
            if r.contains(y) {
                let k = choose|k: int| 0 <= k < r.len() && r[k] == y;
                if k == 0 {
                    assert(t[0] == y);
                } else {
                    assert(rest[k - 1] == y);
                    assert(rest.contains(y));
                    assert(u.contains(y));
                    let m = choose|m: int| 0 <= m < u.len() && u[m] == y;
                    assert(t[m + 1] == y);
                }
            }
            if y == x {
                assert(u.contains(y));
                let m = choose|m: int| 0 <= m < u.len() && u[m] == y;
                assert(t[m + 1] == y);
            }
        }
        assert forall|i: int, j: int| 0 <= i < j < t.len() implies t[i] < t[j] by {
            if i == 0 {
                let y = u[j - 1];
                assert(u.contains(y));
                if rest.contains(y) {
                    let m = choose|m: int| 0 <= m < rest.len() && rest[m] == y;
                    assert(r[0] < r[m + 1]);
                }
            }
        }
    }
}

pub proof fn lemma_sort_unique(s: Seq<int>)
    ensures
        strictly_increasing(sort_unique(s)),
        same_elements(sort_unique(s), s),
    decreases s.len(),
{
    if s.len() > 0 {
        let p = s.drop_last();
        lemma_sort_unique(p);
        lemma_insert_sorted(sort_unique(p), s.last());
        assert forall|y: int| sort_unique(s).contains(y) <==> s.contains(y) by {
            if s.contains(y) {
                let k = choose|k: int| 0 <= k < s.len() && s[k] == y;
                if k < s.len() - 1 {
                    assert(p[k] == y);
                }
            }
            if p.contains(y) {
                let k = choose|k: int| 0 <= k < p.len() && p[k] == y;
                assert(s[k] == y);
            }
        }
    }
}

/// A strictly increasing sequence is determined by the values it holds.
pub proof fn lemma_increasing_unique(a: Seq<int>, b: Seq<int>)
    requires
        strictly_increasing(a),
        strictly_increasing(b),
        same_elements(a, b),
    ensures
        a == b,
    decreases a.len(),
{
    if a.len() == 0 {
        if b.len() > 0 {
            assert(b.contains(b[0]));
        }
        assert(a =~= b);
    } else if b.len() == 0 {
        assert(a.contains(a[0]));
    } else {
        assert(a.contains(a[0]));
        assert(b.contains(b[0]));
        let ka = choose|k: int| 0 <= k < b.len() && b[k] == a[0];
        let kb = choose|k: int| 0 <= k < a.len() && a[k] == b[0];
        assert(a[0] == b[0]) by {
            if a[0] < b[0] {
                assert(b[0] <= b[ka]);
            } else if b[0] < a[0] {
                assert(a[0] <= a[kb]);
            }
        }
        let a1 = a.drop_first();
        let b1 = b.drop_first();
        assert forall|y: int| a1.contains(y) <==> b1.contains(y) by {
            if a1.contains(y) {
                let k = choose|k: int| 0 <= k < a1.len() && a1[k] == y;
                assert(a[k + 1] == y);
                assert(b.contains(y));
                let m = choose|m: int| 0 <= m < b.len() && b[m] == y;
                if m == 0 {
                    assert(a[0] < a[k + 1]);
                }
                assert(b1[m - 1] == y);
            }
            if b1.contains(y) {
                let k = choose|k: int| 0 <= k < b1.len() && b1[k] == y;
                assert(b[k + 1] == y);
                assert(a.contains(y));
                let m = choose|m: int| 0 <= m < a.len() && a[m] == y;
                if m == 0 {
                    assert(b[0] < b[k + 1]);
                }
                assert(a1[m - 1] == y);
            }
        }
        lemma_increasing_unique(a1, b1);
        assert(a =~= seq![a[0]] + a1);
        assert(b =~= seq![b[0]] + b1);
    }
}

pub proof fn lemma_dedup<A>(s: Seq<A>)
    ensures
        dedup(s).no_duplicates(),
        same_elements(dedup(s), s),
        dedup(s).len() <= s.len(),
    decreases s.len(),
{
    if s.len() > 0 {
        let p = s.drop_last();
        lemma_dedup(p);
        let d = dedup(p);
        assert forall|y: A| dedup(s).contains(y) <==> s.contains(y) by {
            if s.contains(y) {
                let k = choose|k: int| 0 <= k < s.len() && s[k] == y;
                if k < s.len() - 1 {
                    assert(p[k] == y);
                } else if !d.contains(y) {
                    assert(dedup(s)[d.len() as int] == y);
                }
            }
            if d.contains(y) {
                let k = choose|k: int| 0 <= k < d.len() && d[k] == y;
                assert(dedup(s)[k] == y);
                assert(p.contains(y));
                let m = choose|m: int| 0 <= m < p.len() && p[m] == y;
                assert(s[m] == y);
            }
            if dedup(s).contains(y) && !d.contains(y) {
                let k = choose|k: int| 0 <= k < dedup(s).len() && dedup(s)[k] == y;
                if k < d.len() {
                    assert(d[k] == y);
                }
                assert(s[s.len() - 1] == y);
            }
        }
        if !d.contains(s.last()) {
            let e = d.push(s.last());
            assert forall|i: int, j: int| 0 <= i < e.len() && 0 <= j < e.len() && i != j implies e[i]
                != e[j] by {
                if i < d.len() && j == d.len() {
                    assert(d[i] == e[i]);
                }
                if j < d.len() && i == d.len() {
                    assert(d[j] == e[j]);
                }
            }
        }
    }
}

/// A sequence without repeats is its own `dedup`.
pub proof fn lemma_dedup_of_unique<A>(s: Seq<A>)
    requires
        s.no_duplicates(),
    ensures
        dedup(s) == s,
    decreases s.len(),
{
    if s.len() > 0 {
        let p = s.drop_last();
        assert(p.no_duplicates());
        lemma_dedup_of_unique(p);
        if p.contains(s.last()) {
            let k = choose|k: int| 0 <= k < p.len() && p[k] == s.last();
            assert(s[k] == s[s.len() - 1]);
        }
        assert(p.push(s.last()) =~= s);
    }
}

/// Removing repeats from `a + b` keeps the repeat-free form of `a` as a prefix.
pub proof fn lemma_dedup_prefix<A>(a: Seq<A>, b: Seq<A>)
    ensures
        dedup(a).len() <= dedup(a + b).len(),
        dedup(a + b).subrange(0, dedup(a).len() as int) == dedup(a),
    decreases b.len(),
{
    if b.len() == 0 {
        assert(a + b =~= a);
    } else {
        let b1 = b.drop_last();
        lemma_dedup_prefix(a, b1);
        assert((a + b).drop_last() =~= a + b1);
        let d = dedup(a + b1);
        assert(d.subrange(0, dedup(a).len() as int) =~= dedup(a + b).subrange(
            0,
            dedup(a).len() as int,
        ));
    }
}

/// Keeps the values that `s` lacks.
pub open spec fn not_in<A>(s: Seq<A>) -> spec_fn(A) -> bool {
    |x: A| !s.contains(x)
}

/// What a filter keeps comes from the filtered sequence.
proof fn lemma_filter_within<A>(e: Seq<A>, pred: spec_fn(A) -> bool)
    ensures
        forall|x: A| #[trigger] e.filter(pred).contains(x) ==> e.contains(x),
    decreases e.len(),
{
    reveal(Seq::filter);
    if e.len() > 0 {
        let e1 = e.drop_last();
        lemma_filter_within(e1, pred);
        assert forall|x: A| #[trigger] e.filter(pred).contains(x) implies e.contains(x) by {
            let f = e.filter(pred);
            let k = choose|k: int| 0 <= k < f.len() && f[k] == x;
            if k < e1.filter(pred).len() {
                assert(e1.filter(pred)[k] == x);
                assert(e1.filter(pred).contains(x));
                let m = choose|m: int| 0 <= m < e1.len() && e1[m] == x;
                assert(e[m] == x);
            } else {
                assert(e[e.len() - 1] == x);
            }
        }
    }
}

/// Removing repeats from `s + e`, where neither repeats a value, leaves `s`
/// followed by the values of `e` that `s` lacks, in their order in `e`.
pub proof fn lemma_dedup_append<A>(s: Seq<A>, e: Seq<A>)
    requires
        s.no_duplicates(),
        e.no_duplicates(),
    ensures
        dedup(s + e) == s + e.filter(not_in(s)),
    decreases e.len(),
{
    reveal(Seq::filter);
    if e.len() == 0 {
        assert(s + e =~= s);
        lemma_dedup_of_unique(s);
        assert(s + e.filter(not_in(s)) =~= s);
    } else {
        let e1 = e.drop_last();
        let x = e.last();
        assert(e1.no_duplicates()) by {
            assert forall|i: int, j: int|
                0 <= i < e1.len() && 0 <= j < e1.len() && i != j implies e1[i] != e1[j] by {
                assert(e1[i] == e[i] && e1[j] == e[j]);
            }
        }
        lemma_dedup_append(s, e1);
        assert((s + e).drop_last() =~= s + e1);
        assert((s + e).last() == x);
        let d = dedup(s + e1);
        let f1 = e1.filter(not_in(s));
        if s.contains(x) {
            let k = choose|k: int| 0 <= k < s.len() && s[k] == x;
            assert(d[k] == x);
            assert(e.filter(not_in(s)) == f1);
        } else {
            lemma_filter_within(e1, not_in(s));
            if d.contains(x) {
                let k = choose|k: int| 0 <= k < d.len() && d[k] == x;
                if k < s.len() {
                    assert(s[k] == x);
                } else {
                    assert(f1[k - s.len()] == x);
                    assert(f1.contains(x));
                    let m = choose|m: int| 0 <= m < e1.len() && e1[m] == x;
                    assert(e[m] == e[e.len() - 1]);
                }
            }
            assert(e.filter(not_in(s)) == f1.push(x));
            assert(d.push(x) =~= s + e.filter(not_in(s)));
        }
    }
}

/// The number of distinct values of a repeat-free rearrangement.
pub proof fn lemma_unique_same_len<A>(a: Seq<A>, b: Seq<A>)
    requires
        a.no_duplicates(),
        b.no_duplicates(),
        same_elements(a, b),
    ensures
        a.len() == b.len(),
{
    a.unique_seq_to_set();
    b.unique_seq_to_set();
    assert(a.to_set() =~= b.to_set());
}

} // verus!
