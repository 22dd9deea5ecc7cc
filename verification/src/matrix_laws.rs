//! Laws of the experiment matrix: ids are unique, normalisation is
//! idempotent, the product is in lexicographic order, the sparse set probes
//! the product, and a full run schedules every cell exactly once, sparse
//! cells first.
use vstd::prelude::*;

use crate::config::{config_is_valid, StudioConfig};
use crate::matrix::{
    axes_nonempty, axes_problem, candidate_id, center, ends, first_outside, full_cells,
    ints_i32, ints_u32, is_normal_form_of, ordered_cells, plane, product, row, sparse_cells,
    Cell, MatrixAxes, RunMode,
};
use crate::seqs::{
    dedup, lemma_dedup, lemma_dedup_append, lemma_dedup_of_unique, lemma_dedup_prefix,
    lemma_increasing_unique, lemma_sort_unique, lemma_unique_same_len, not_in, same_elements,
    sort_unique, strictly_increasing,
};
use crate::text::{
    decimal, is_digit_char, lemma_decimal_injective, lemma_decimal_is_digits,
    lemma_signed_decimal_injective, signed_decimal,
};

verus! {

proof fn lemma_signed_decimal_no_underscore(i: int)
    ensures
        forall|k: int| 0 <= k < signed_decimal(i).len() ==> #[trigger] signed_decimal(i)[k] != '_',
{
    if i < 0 {
        lemma_decimal_is_digits((-i) as nat);
        assert forall|k: int| 0 <= k < signed_decimal(i).len() implies #[trigger] signed_decimal(
            i,
        )[k] != '_' by {
            if k > 0 {
                assert(signed_decimal(i)[k] == decimal((-i) as nat)[k - 1]);
                assert(is_digit_char(decimal((-i) as nat)[k - 1]));
            }
        }
    } else {
        lemma_decimal_is_digits(i as nat);
        assert forall|k: int| 0 <= k < signed_decimal(i).len() implies #[trigger] signed_decimal(
            i,
        )[k] != '_' by {
            assert(is_digit_char(decimal(i as nat)[k]));
        }
    }
}

/// Splitting at the first `'_'`: heads free of `'_'` are recovered exactly.
proof fn lemma_split_at_underscore(a1: Seq<char>, r1: Seq<char>, a2: Seq<char>, r2: Seq<char>)
    requires
        forall|k: int| 0 <= k < a1.len() ==> a1[k] != '_',
        forall|k: int| 0 <= k < a2.len() ==> a2[k] != '_',
        a1 + seq!['_'] + r1 == a2 + seq!['_'] + r2,
    ensures
        a1 == a2,
        r1 == r2,
{
    let s1 = a1 + seq!['_'] + r1;
    let s2 = a2 + seq!['_'] + r2;
    if a1.len() < a2.len() {
        assert(s1[a1.len() as int] == '_');
        assert(s2[a1.len() as int] == a2[a1.len() as int]);
    } else if a2.len() < a1.len() {
        assert(s2[a2.len() as int] == '_');
        assert(s1[a2.len() as int] == a1[a2.len() as int]);
    } else {
        assert(a1 =~= s1.subrange(0, a1.len() as int));
        assert(a2 =~= s2.subrange(0, a2.len() as int));
        assert(r1 =~= s1.subrange(a1.len() as int + 1, s1.len() as int));
        assert(r2 =~= s2.subrange(a2.len() as int + 1, s2.len() as int));
    }
}

/// Distinct cells have distinct ids.
pub proof fn lemma_candidate_id_injective(x: Cell, y: Cell)
    requires
        candidate_id(x) == candidate_id(y),
    ensures
        x == y,
{
    let hx = seq!['g'] + signed_decimal(x.0 as int);
    let hy = seq!['g'] + signed_decimal(y.0 as int);
    let mx = seq!['f'] + decimal(x.1 as nat);
    let my = seq!['f'] + decimal(y.1 as nat);
    let tx = seq!['p'] + signed_decimal(x.2 as int);
    let ty = seq!['p'] + signed_decimal(y.2 as int);
    let rx = mx + seq!['_'] + tx;
    let ry = my + seq!['_'] + ty;
    assert(candidate_id(x) =~= hx + seq!['_'] + rx);
    assert(candidate_id(y) =~= hy + seq!['_'] + ry);
    lemma_signed_decimal_no_underscore(x.0 as int);
    lemma_signed_decimal_no_underscore(y.0 as int);
    assert forall|k: int| 0 <= k < hx.len() implies hx[k] != '_' by {
        if k > 0 {
            assert(hx[k] == signed_decimal(x.0 as int)[k - 1]);
        }
    }
    assert forall|k: int| 0 <= k < hy.len() implies hy[k] != '_' by {
        if k > 0 {
            assert(hy[k] == signed_decimal(y.0 as int)[k - 1]);
        }
    }
    lemma_split_at_underscore(hx, rx, hy, ry);
    assert(hx.drop_first() =~= signed_decimal(x.0 as int));
    assert(hy.drop_first() =~= signed_decimal(y.0 as int));
    lemma_signed_decimal_injective(x.0 as int, y.0 as int);
    lemma_decimal_is_digits(x.1 as nat);
    lemma_decimal_is_digits(y.1 as nat);
    assert forall|k: int| 0 <= k < mx.len() implies mx[k] != '_' by {
        if k > 0 {
            assert(mx[k] == decimal(x.1 as nat)[k - 1]);
            assert(is_digit_char(decimal(x.1 as nat)[k - 1]));
        }
    }
    assert forall|k: int| 0 <= k < my.len() implies my[k] != '_' by {
        if k > 0 {
            assert(my[k] == decimal(y.1 as nat)[k - 1]);
            assert(is_digit_char(decimal(y.1 as nat)[k - 1]));
        }
    }
    lemma_split_at_underscore(mx, tx, my, ty);
    assert(mx.drop_first() =~= decimal(x.1 as nat));
    assert(my.drop_first() =~= decimal(y.1 as nat));
    lemma_decimal_injective(x.1 as nat, y.1 as nat);
    assert(tx.drop_first() =~= signed_decimal(x.2 as int));
    assert(ty.drop_first() =~= signed_decimal(y.2 as int));
    lemma_signed_decimal_injective(x.2 as int, y.2 as int);
}

proof fn lemma_first_outside(s: Seq<int>, lo: int, hi: int)
    ensures
        0 <= first_outside(s, lo, hi) <= s.len(),
        first_outside(s, lo, hi) == s.len() ==> forall|k: int|
            0 <= k < s.len() ==> lo <= #[trigger] s[k] <= hi,
        first_outside(s, lo, hi) < s.len() ==> !(lo <= s[first_outside(s, lo, hi)] <= hi),
    decreases s.len(),
{
    if s.len() > 0 && lo <= s[0] <= hi {
        lemma_first_outside(s.drop_first(), lo, hi);
        let i = first_outside(s.drop_first(), lo, hi);
        if i < s.drop_first().len() {
            assert(s[i + 1] == s.drop_first()[i]);
        }
        if first_outside(s, lo, hi) == s.len() {
            assert forall|k: int| 0 <= k < s.len() implies lo <= #[trigger] s[k] <= hi by {
                if k > 0 {
                    assert(s[k] == s.drop_first()[k - 1]);
                }
            }
        }
    }
}

proof fn lemma_sort_unique_idempotent(s: Seq<int>)
    ensures
        sort_unique(sort_unique(s)) == sort_unique(s),
        s.len() > 0 ==> sort_unique(s).len() > 0,
{
    lemma_sort_unique(s);
    lemma_sort_unique(sort_unique(s));
    lemma_increasing_unique(sort_unique(sort_unique(s)), sort_unique(s));
    if s.len() > 0 {
        assert(s.contains(s[0]));
        assert(sort_unique(s).contains(s[0]));
    }
}

/// What `normalized` produces: each axis strictly increasing, holding the
/// same values as the input, every value within its range.
pub proof fn lemma_normal_form(a: MatrixAxes, n: MatrixAxes)
    requires
        axes_problem(a) is None,
        is_normal_form_of(n, a),
    ensures
        axes_nonempty(n),
        strictly_increasing(ints_i32(n.gradient_step@)),
        strictly_increasing(ints_u32(n.filter_speckle@)),
        strictly_increasing(ints_i32(n.color_precision@)),
        same_elements(ints_i32(n.gradient_step@), ints_i32(a.gradient_step@)),
        same_elements(ints_u32(n.filter_speckle@), ints_u32(a.filter_speckle@)),
        same_elements(ints_i32(n.color_precision@), ints_i32(a.color_precision@)),
        forall|k: int| 0 <= k < n.gradient_step@.len() ==> 0 <= #[trigger] n.gradient_step@[k] <= 255,
        forall|k: int| 0 <= k < n.filter_speckle@.len() ==> #[trigger] n.filter_speckle@[k] <= 128,
        forall|k: int| 0 <= k < n.color_precision@.len() ==> 1 <= #[trigger] n.color_precision@[k] <= 8,
{
    let g = ints_i32(a.gradient_step@);
    let f = ints_u32(a.filter_speckle@);
    let p = ints_i32(a.color_precision@);
    lemma_sort_unique(g);
    lemma_sort_unique(f);
    lemma_sort_unique(p);
    lemma_sort_unique_idempotent(g);
    lemma_sort_unique_idempotent(f);
    lemma_sort_unique_idempotent(p);
    assert(g.len() > 0 && f.len() > 0 && p.len() > 0);
    lemma_first_outside(sort_unique(g), 0, 255);
    lemma_first_outside(sort_unique(f), 0, 128);
    lemma_first_outside(sort_unique(p), 1, 8);
    assert forall|k: int| 0 <= k < n.gradient_step@.len() implies 0 <= #[trigger] n.gradient_step@[k]
        <= 255 by {
        assert(ints_i32(n.gradient_step@)[k] == n.gradient_step@[k] as int);
    }
    assert forall|k: int| 0 <= k < n.filter_speckle@.len() implies #[trigger] n.filter_speckle@[k]
        <= 128 by {
        assert(ints_u32(n.filter_speckle@)[k] == n.filter_speckle@[k] as int);
    }
    assert forall|k: int| 0 <= k < n.color_precision@.len() implies 1 <= #[trigger] n.color_precision@[k]
        <= 8 by {
        assert(ints_i32(n.color_precision@)[k] == n.color_precision@[k] as int);
    }
}

/// Every value of `s` lies in `[lo, hi]` exactly when the sorted,
/// repeat-free form of `s` has no value outside it.
proof fn lemma_sorted_within(s: Seq<int>, lo: int, hi: int)
    ensures
        first_outside(sort_unique(s), lo, hi) == sort_unique(s).len() <==> (forall|k: int|
            0 <= k < s.len() ==> lo <= #[trigger] s[k] <= hi),
{
    let u = sort_unique(s);
    lemma_sort_unique(s);
    lemma_first_outside(u, lo, hi);
    if first_outside(u, lo, hi) == u.len() {
        assert forall|k: int| 0 <= k < s.len() implies lo <= #[trigger] s[k] <= hi by {
            assert(s.contains(s[k]));
            assert(u.contains(s[k]));
        }
    } else {
        let i = first_outside(u, lo, hi);
        assert(u.contains(u[i]));
        assert(s.contains(u[i]));
    }
}

/// Axes are accepted exactly when each axis has a value and every gradient
/// step lies in [0,255], every speckle size in [0,128] and every color
/// precision in [1,8]; repeats and order do not matter.
pub proof fn lemma_axes_accepted_iff_in_ranges(a: MatrixAxes)
    ensures
        axes_problem(a) is None <==> {
            &&& a.gradient_step@.len() > 0
            &&& a.filter_speckle@.len() > 0
            &&& a.color_precision@.len() > 0
            &&& forall|k: int|
                0 <= k < a.gradient_step@.len() ==> 0 <= #[trigger] a.gradient_step@[k] <= 255
            &&& forall|k: int| 0 <= k < a.filter_speckle@.len() ==> #[trigger] a.filter_speckle@[k] <= 128
            &&& forall|k: int|
                0 <= k < a.color_precision@.len() ==> 1 <= #[trigger] a.color_precision@[k] <= 8
        },
{
    let g = ints_i32(a.gradient_step@);
    let f = ints_u32(a.filter_speckle@);
    let p = ints_i32(a.color_precision@);
    lemma_sorted_within(g, 0, 255);
    lemma_sorted_within(f, 0, 128);
    lemma_sorted_within(p, 1, 8);
    lemma_first_outside(sort_unique(g), 0, 255);
    lemma_first_outside(sort_unique(f), 0, 128);
    lemma_first_outside(sort_unique(p), 1, 8);
    if forall|k: int| 0 <= k < g.len() ==> 0 <= #[trigger] g[k] <= 255 {
        assert forall|k: int| 0 <= k < a.gradient_step@.len() implies 0 <= #[trigger] a.gradient_step@[k] <= 255 by {
            assert(g[k] == a.gradient_step@[k] as int);
        }
    }
    if forall|k: int| 0 <= k < a.gradient_step@.len() ==> 0 <= #[trigger] a.gradient_step@[k] <= 255 {
        assert forall|k: int| 0 <= k < g.len() implies 0 <= #[trigger] g[k] <= 255 by {
            assert(g[k] == a.gradient_step@[k] as int);
        }
    }
    if forall|k: int| 0 <= k < f.len() ==> 0 <= #[trigger] f[k] <= 128 {
        assert forall|k: int| 0 <= k < a.filter_speckle@.len() implies #[trigger] a.filter_speckle@[k] <= 128 by {
            assert(f[k] == a.filter_speckle@[k] as int);
        }
    }
    if forall|k: int| 0 <= k < a.filter_speckle@.len() ==> #[trigger] a.filter_speckle@[k] <= 128 {
        assert forall|k: int| 0 <= k < f.len() implies 0 <= #[trigger] f[k] <= 128 by {
            assert(f[k] == a.filter_speckle@[k] as int);
        }
    }
    if forall|k: int| 0 <= k < p.len() ==> 1 <= #[trigger] p[k] <= 8 {
        assert forall|k: int| 0 <= k < a.color_precision@.len() implies 1 <= #[trigger] a.color_precision@[k] <= 8 by {
            assert(p[k] == a.color_precision@[k] as int);
        }
    }
    if forall|k: int| 0 <= k < a.color_precision@.len() ==> 1 <= #[trigger] a.color_precision@[k] <= 8 {
        assert forall|k: int| 0 <= k < p.len() implies 1 <= #[trigger] p[k] <= 8 by {
            assert(p[k] == a.color_precision@[k] as int);
        }
    }
}

/// Normalising a normalised matrix changes nothing.
pub proof fn lemma_normalized_idempotent(a: MatrixAxes, n: MatrixAxes)
    requires
        axes_problem(a) is None,
        is_normal_form_of(n, a),
    ensures
        axes_problem(n) is None,
        is_normal_form_of(n, n),
{
    let g = ints_i32(a.gradient_step@);
    let f = ints_u32(a.filter_speckle@);
    let p = ints_i32(a.color_precision@);
    lemma_sort_unique_idempotent(g);
    lemma_sort_unique_idempotent(f);
    lemma_sort_unique_idempotent(p);
    assert(ints_i32(n.gradient_step@).len() == n.gradient_step@.len());
    assert(ints_u32(n.filter_speckle@).len() == n.filter_speckle@.len());
    assert(ints_i32(n.color_precision@).len() == n.color_precision@.len());
}

/// Lexicographic order of cells.
pub open spec fn cell_lt(a: Cell, b: Cell) -> bool {
    a.0 < b.0 || (a.0 == b.0 && (a.1 < b.1 || (a.1 == b.1 && a.2 < b.2)))
}

pub open spec fn lex_increasing(s: Seq<Cell>) -> bool {
    forall|i: int, j: int| 0 <= i < j < s.len() ==> cell_lt(s[i], s[j])
}

proof fn lemma_row(g: i32, f: u32, p: Seq<i32>)
    ensures
        row(g, f, p).len() == p.len(),
        forall|x: Cell| #[trigger] row(g, f, p).contains(x) <==> (x.0 == g && x.1 == f && p.contains(
            x.2,
        )),
        strictly_increasing(ints_i32(p)) ==> lex_increasing(row(g, f, p)),
{
    let r = row(g, f, p);
    assert forall|x: Cell| #[trigger] r.contains(x) <==> (x.0 == g && x.1 == f && p.contains(x.2)) by {
        if r.contains(x) {
            let k = choose|k: int| 0 <= k < r.len() && r[k] == x;
            assert(p[k] == x.2);
        }
        if x.0 == g && x.1 == f && p.contains(x.2) {
            let k = choose|k: int| 0 <= k < p.len() && p[k] == x.2;
            assert(r[k] == x);
        }
    }
    if strictly_increasing(ints_i32(p)) {
        assert forall|i: int, j: int| 0 <= i < j < r.len() implies cell_lt(r[i], r[j]) by {
            assert(ints_i32(p)[i] < ints_i32(p)[j]);
        }
    }
}

proof fn lemma_concat_lex(a: Seq<Cell>, b: Seq<Cell>)
    requires
        lex_increasing(a),
        lex_increasing(b),
        forall|i: int, j: int| 0 <= i < a.len() && 0 <= j < b.len() ==> cell_lt(a[i], b[j]),
    ensures
        lex_increasing(a + b),
{
    let s = a + b;
    assert forall|i: int, j: int| 0 <= i < j < s.len() implies cell_lt(s[i], s[j]) by {
        if j < a.len() {
            assert(s[i] == a[i] && s[j] == a[j]);
        } else if i >= a.len() {
            assert(s[i] == b[i - a.len()] && s[j] == b[j - a.len()]);
        } else {
            assert(s[i] == a[i] && s[j] == b[j - a.len()]);
        }
    }
}

proof fn lemma_plane(g: i32, f: Seq<u32>, p: Seq<i32>)
    ensures
        plane(g, f, p).len() == f.len() * p.len(),
        forall|x: Cell| #[trigger] plane(g, f, p).contains(x) <==> (x.0 == g && f.contains(x.1)
            && p.contains(x.2)),
        strictly_increasing(ints_u32(f)) && strictly_increasing(ints_i32(p)) ==> lex_increasing(
            plane(g, f, p),
        ),
    decreases f.len(),
{
    if f.len() == 0 {
        assert forall|x: Cell| #[trigger] plane(g, f, p).contains(x) <==> (x.0 == g && f.contains(
            x.1,
        ) && p.contains(x.2)) by {
            if f.contains(x.1) {
                let k = choose|k: int| 0 <= k < f.len() && f[k] == x.1;
            }
        }
    } else {
        let f1 = f.drop_last();
        lemma_plane(g, f1, p);
        lemma_row(g, f.last(), p);
        let a = plane(g, f1, p);
        let b = row(g, f.last(), p);
        assert(plane(g, f, p) == a + b);
        assert(f.len() * p.len() == f1.len() * p.len() + p.len()) by (nonlinear_arith)
            requires
                f.len() == f1.len() + 1,
        ;
        assert forall|x: Cell| #[trigger] plane(g, f, p).contains(x) <==> (x.0 == g && f.contains(
            x.1,
        ) && p.contains(x.2)) by {
            let s = a + b;
            if s.contains(x) {
                let k = choose|k: int| 0 <= k < s.len() && s[k] == x;
                if k < a.len() {
                    assert(a.contains(x));
                    let m = choose|m: int| 0 <= m < f1.len() && f1[m] == x.1;
                    assert(f[m] == x.1);
                } else {
                    assert(b[k - a.len()] == x);
                    assert(b.contains(x));
                    assert(f[f.len() - 1] == x.1);
                }
            }
            if x.0 == g && f.contains(x.1) && p.contains(x.2) {
                let m = choose|m: int| 0 <= m < f.len() && f[m] == x.1;
                if m < f.len() - 1 {
                    assert(f1[m] == x.1);
                    assert(a.contains(x));
                    let k = choose|k: int| 0 <= k < a.len() && a[k] == x;
                    assert(s[k] == x);
                } else {
                    assert(b.contains(x));
                    let k = choose|k: int| 0 <= k < b.len() && b[k] == x;
                    assert(s[k + a.len()] == x);
                }
            }
        }
        if strictly_increasing(ints_u32(f)) && strictly_increasing(ints_i32(p)) {
            assert(strictly_increasing(ints_u32(f1))) by {
                assert forall|i: int, j: int| 0 <= i < j < ints_u32(f1).len() implies ints_u32(
                    f1,
                )[i] < ints_u32(f1)[j] by {
                    assert(ints_u32(f)[i] < ints_u32(f)[j]);
                }
            }
            assert forall|i: int, j: int| 0 <= i < a.len() && 0 <= j < b.len() implies cell_lt(
                a[i],
                b[j],
            ) by {
                assert(a.contains(a[i]));
                assert(b.contains(b[j]));
                let m = choose|m: int| 0 <= m < f1.len() && f1[m] == a[i].1;
                assert(ints_u32(f)[m] < ints_u32(f)[f.len() - 1]);
            }
            lemma_concat_lex(a, b);
        }
    }
}

/// The product holds exactly the cells whose values come from the three
/// axes; it has `|g|·|f|·|p|` cells and, for strictly increasing axes, is
/// strictly increasing in lexicographic order (so no cell repeats).
pub proof fn lemma_product(g: Seq<i32>, f: Seq<u32>, p: Seq<i32>)
    ensures
        product(g, f, p).len() == g.len() * f.len() * p.len(),
        forall|x: Cell| #[trigger] product(g, f, p).contains(x) <==> (g.contains(x.0) && f.contains(
            x.1,
        ) && p.contains(x.2)),
        strictly_increasing(ints_i32(g)) && strictly_increasing(ints_u32(f)) && strictly_increasing(
            ints_i32(p),
        ) ==> lex_increasing(product(g, f, p)) && product(g, f, p).no_duplicates(),
    decreases g.len(),
{
    if g.len() == 0 {
        assert(g.len() * f.len() * p.len() == 0) by (nonlinear_arith)
            requires
                g.len() == 0,
        ;
        assert forall|x: Cell| #[trigger] product(g, f, p).contains(x) <==> (g.contains(x.0)
            && f.contains(x.1) && p.contains(x.2)) by {
            if g.contains(x.0) {
                let k = choose|k: int| 0 <= k < g.len() && g[k] == x.0;
            }
        }
    } else {
        let g1 = g.drop_last();
        lemma_product(g1, f, p);
        lemma_plane(g.last(), f, p);
        let a = product(g1, f, p);
        let b = plane(g.last(), f, p);
        assert(product(g, f, p) == a + b);
        assert(a.len() == g1.len() * f.len() * p.len());
        assert(b.len() == f.len() * p.len());
        assert(g.len() * f.len() * p.len() == g1.len() * f.len() * p.len() + f.len() * p.len())
            by (nonlinear_arith)
            requires
                g.len() == g1.len() + 1,
        ;
        assert forall|x: Cell| #[trigger] product(g, f, p).contains(x) <==> (g.contains(x.0)
            && f.contains(x.1) && p.contains(x.2)) by {
            let s = a + b;
            if s.contains(x) {
                let k = choose|k: int| 0 <= k < s.len() && s[k] == x;
                if k < a.len() {
                    assert(a.contains(x));
                    let m = choose|m: int| 0 <= m < g1.len() && g1[m] == x.0;
                    assert(g[m] == x.0);
                } else {
                    assert(b[k - a.len()] == x);
                    assert(b.contains(x));
                    assert(g[g.len() - 1] == x.0);
                }
            }
            if g.contains(x.0) && f.contains(x.1) && p.contains(x.2) {
                let m = choose|m: int| 0 <= m < g.len() && g[m] == x.0;
                if m < g.len() - 1 {
                    assert(g1[m] == x.0);
                    assert(a.contains(x));
                    let k = choose|k: int| 0 <= k < a.len() && a[k] == x;
                    assert(s[k] == x);
                } else {
                    assert(b.contains(x));
                    let k = choose|k: int| 0 <= k < b.len() && b[k] == x;
                    assert(s[k + a.len()] == x);
                }
            }
        }
        if strictly_increasing(ints_i32(g)) && strictly_increasing(ints_u32(f))
            && strictly_increasing(ints_i32(p)) {
            assert(strictly_increasing(ints_i32(g1))) by {
                assert forall|i: int, j: int| 0 <= i < j < ints_i32(g1).len() implies ints_i32(
                    g1,
                )[i] < ints_i32(g1)[j] by {
                    assert(ints_i32(g)[i] < ints_i32(g)[j]);
                }
            }
            assert forall|i: int, j: int| 0 <= i < a.len() && 0 <= j < b.len() implies cell_lt(
                a[i],
                b[j],
            ) by {
                assert(a.contains(a[i]));
                assert(b.contains(b[j]));
                let m = choose|m: int| 0 <= m < g1.len() && g1[m] == a[i].0;
                assert(ints_i32(g)[m] < ints_i32(g)[g.len() - 1]);
            }
            lemma_concat_lex(a, b);
        }
    }
    let s = product(g, f, p);
    if lex_increasing(s) {
        assert forall|i: int, j: int| 0 <= i < s.len() && 0 <= j < s.len() && i != j implies s[i]
            != s[j] by {
            if i < j {
                assert(cell_lt(s[i], s[j]));
            } else {
                assert(cell_lt(s[j], s[i]));
            }
        }
    }
}

proof fn lemma_ends_within<A>(v: Seq<A>)
    requires
        v.len() > 0,
    ensures
        1 <= ends(v).len() <= 2,
        forall|x: A| #[trigger] ends(v).contains(x) ==> v.contains(x),
        ends(v).contains(v[0]),
        ends(v).contains(v.last()),
{
    let e = ends(v);
    assert(e[0] == v[0]);
    if v.len() == 1 {
        assert(e[0] == v.last());
    } else {
        assert(e[1] == v.last());
    }
    assert forall|x: A| #[trigger] e.contains(x) implies v.contains(x) by {
        let k = choose|k: int| 0 <= k < e.len() && e[k] == x;
        if k == 0 {
            assert(v[0] == x);
        } else {
            assert(v[v.len() - 1] == x);
        }
    }
}

/// The sparse set: at most nine cells, no repeats, every cube corner and the
/// center among them, and nothing outside the full product.
pub proof fn lemma_sparse_set(a: MatrixAxes)
    requires
        axes_nonempty(a),
    ensures
        sparse_cells(a).len() <= 9,
        sparse_cells(a).no_duplicates(),
        sparse_cells(a).contains(center(a)),
        forall|x: Cell|
            (ends(a.gradient_step@).contains(x.0) && ends(a.filter_speckle@).contains(x.1) && ends(
                a.color_precision@,
            ).contains(x.2)) ==> #[trigger] sparse_cells(a).contains(x),
        forall|x: Cell| #[trigger] sparse_cells(a).contains(x) ==> full_cells(a).contains(x),
{
    let g = a.gradient_step@;
    let f = a.filter_speckle@;
    let p = a.color_precision@;
    lemma_ends_within(g);
    lemma_ends_within(f);
    lemma_ends_within(p);
    let corners = product(ends(g), ends(f), ends(p));
    lemma_product(ends(g), ends(f), ends(p));
    lemma_product(g, f, p);
    let all = corners.push(center(a));
    lemma_dedup(all);
    assert(corners.len() <= 8) by (nonlinear_arith)
        requires
            corners.len() == ends(g).len() * ends(f).len() * ends(p).len(),
            1 <= ends(g).len() <= 2,
            1 <= ends(f).len() <= 2,
            1 <= ends(p).len() <= 2,
    ;
    assert(all[corners.len() as int] == center(a));
    assert(all.contains(center(a)));
    assert forall|x: Cell|
        (ends(g).contains(x.0) && ends(f).contains(x.1) && ends(p).contains(
            x.2,
        )) implies #[trigger] sparse_cells(a).contains(x) by {
        assert(corners.contains(x));
        let k = choose|k: int| 0 <= k < corners.len() && corners[k] == x;
        assert(all[k] == x);
    }
    assert forall|x: Cell| #[trigger] sparse_cells(a).contains(x) implies full_cells(a).contains(
        x,
    ) by {
        assert(all.contains(x));
        let k = choose|k: int| 0 <= k < all.len() && all[k] == x;
        if k < corners.len() {
            assert(corners[k] == x);
            assert(corners.contains(x));
        } else {
            assert(g[(g.len() / 2) as int] == x.0);
            assert(f[(f.len() / 2) as int] == x.1);
            assert(p[(p.len() / 2) as int] == x.2);
        }
    }
}

/// A full run schedules the sparse set first, then each remaining cell of
/// the product; every cell of the product appears exactly once, and for
/// normalised axes the run is as long as the product.
pub proof fn lemma_full_order(a: MatrixAxes)
    requires
        axes_nonempty(a),
    ensures
        ordered_cells(a, RunMode::Full).len() >= sparse_cells(a).len(),
        ordered_cells(a, RunMode::Full).subrange(0, sparse_cells(a).len() as int) == sparse_cells(
            a,
        ),
        ordered_cells(a, RunMode::Full).no_duplicates(),
        same_elements(ordered_cells(a, RunMode::Full), full_cells(a)),
        full_cells(a).no_duplicates() ==> ordered_cells(a, RunMode::Full).len()
            == full_cells(a).len(),
        ordered_cells(a, RunMode::Sparse) == sparse_cells(a),
{
    let s = sparse_cells(a);
    let e = full_cells(a);
    lemma_sparse_set(a);
    lemma_dedup_prefix(s, e);
    lemma_dedup_of_unique(s);
    lemma_dedup(s + e);
    let o = dedup(s + e);
    assert forall|x: Cell| o.contains(x) <==> e.contains(x) by {
        if (s + e).contains(x) {
            let k = choose|k: int| 0 <= k < (s + e).len() && (s + e)[k] == x;
            if k < s.len() {
                assert(s[k] == x);
                assert(s.contains(x));
            } else {
                assert(e[k - s.len()] == x);
            }
        }
        if e.contains(x) {
            let k = choose|k: int| 0 <= k < e.len() && e[k] == x;
            assert((s + e)[k + s.len()] == x);
        }
    }
    if e.no_duplicates() {
        lemma_unique_same_len(o, e);
    }
}

/// Normalised axes give a product in which no cell repeats, so a full run
/// covers exactly `|g|·|f|·|p|` cells.
pub proof fn lemma_normalized_full_run(a: MatrixAxes, n: MatrixAxes)
    requires
        axes_problem(a) is None,
        is_normal_form_of(n, a),
    ensures
        axes_nonempty(n),
        full_cells(n).no_duplicates(),
        lex_increasing(full_cells(n)),
        ordered_cells(n, RunMode::Full).len() == n.gradient_step@.len() * n.filter_speckle@.len()
            * n.color_precision@.len(),
{
    lemma_normal_form(a, n);
    lemma_product(n.gradient_step@, n.filter_speckle@, n.color_precision@);
    lemma_full_order(n);
}

/// The order of a full run over normalised axes: the sparse set first, then
/// every other cell of the product in product (lexicographic) order.
pub proof fn lemma_full_run_order(a: MatrixAxes, n: MatrixAxes)
    requires
        axes_problem(a) is None,
        is_normal_form_of(n, a),
    ensures
        ordered_cells(n, RunMode::Full) == sparse_cells(n) + full_cells(n).filter(
            not_in(sparse_cells(n)),
        ),
{
    lemma_normal_form(a, n);
    lemma_product(n.gradient_step@, n.filter_speckle@, n.color_precision@);
    lemma_sparse_set(n);
    lemma_dedup_append(sparse_cells(n), full_cells(n));
}

/// The sparse set holds exactly the cube corners (each axis at its first or
/// last value) and the middle cell (each axis at index `len / 2`).
pub proof fn lemma_sparse_cells_are_corners_and_middle(a: MatrixAxes)
    requires
        axes_nonempty(a),
    ensures
        sparse_cells(a).contains(
            (
                a.gradient_step@[(a.gradient_step@.len() / 2) as int],
                a.filter_speckle@[(a.filter_speckle@.len() / 2) as int],
                a.color_precision@[(a.color_precision@.len() / 2) as int],
            ),
        ),
        forall|x: Cell| #[trigger]
            sparse_cells(a).contains(x) <==> {
                ||| x == (
                    a.gradient_step@[(a.gradient_step@.len() / 2) as int],
                    a.filter_speckle@[(a.filter_speckle@.len() / 2) as int],
                    a.color_precision@[(a.color_precision@.len() / 2) as int],
                )
                ||| {
                    &&& (x.0 == a.gradient_step@[0] || x.0 == a.gradient_step@.last())
                    &&& (x.1 == a.filter_speckle@[0] || x.1 == a.filter_speckle@.last())
                    &&& (x.2 == a.color_precision@[0] || x.2 == a.color_precision@.last())
                }
            },
{
    let g = a.gradient_step@;
    let f = a.filter_speckle@;
    let p = a.color_precision@;
    let corners = product(ends(g), ends(f), ends(p));
    let all = corners.push(center(a));
    lemma_sparse_set(a);
    lemma_dedup(all);
    lemma_product(ends(g), ends(f), ends(p));
    assert forall|v: i32| ends(g).contains(v) <==> (v == g[0] || v == g.last()) by {
        if v == g[0] { assert(ends(g)[0] == v); }
        if v == g.last() && g.len() > 1 { assert(ends(g)[1] == v); }
    }
    assert forall|v: u32| ends(f).contains(v) <==> (v == f[0] || v == f.last()) by {
        if v == f[0] { assert(ends(f)[0] == v); }
        if v == f.last() && f.len() > 1 { assert(ends(f)[1] == v); }
    }
    assert forall|v: i32| ends(p).contains(v) <==> (v == p[0] || v == p.last()) by {
        if v == p[0] { assert(ends(p)[0] == v); }
        if v == p.last() && p.len() > 1 { assert(ends(p)[1] == v); }
    }
    assert forall|x: Cell| #[trigger] sparse_cells(a).contains(x) implies (x == center(a) || (
    ends(g).contains(x.0) && ends(f).contains(x.1) && ends(p).contains(x.2))) by {
        assert(all.contains(x));
        let k = choose|k: int| 0 <= k < all.len() && all[k] == x;
        if k < corners.len() {
            assert(corners[k] == x);
            assert(corners.contains(x));
        }
    }
}

/// With one value per axis every corner is the center: the sparse set is
/// that single cell.
pub proof fn lemma_sparse_single_values(a: MatrixAxes)
    requires
        a.gradient_step@.len() == 1,
        a.filter_speckle@.len() == 1,
        a.color_precision@.len() == 1,
    ensures
        sparse_cells(a) == seq![(a.gradient_step@[0], a.filter_speckle@[0], a.color_precision@[0])],
{
    let g = a.gradient_step@;
    let f = a.filter_speckle@;
    let p = a.color_precision@;
    let c = (g[0], f[0], p[0]);
    assert(ends(g) =~= g);
    assert(ends(f) =~= f);
    assert(ends(p) =~= p);
    assert(row(g[0], f[0], p) =~= seq![c]);
    assert(f.drop_last().len() == 0);
    assert(plane(g[0], f.drop_last(), p) =~= Seq::<Cell>::empty());
    assert(f.last() == f[0]);
    assert(plane(g[0], f, p) =~= seq![c]);
    assert(g.drop_last().len() == 0);
    assert(product(g.drop_last(), f, p) =~= Seq::<Cell>::empty());
    assert(g.last() == g[0]);
    assert(product(g, f, p) =~= seq![c]);
    assert(center(a) == c);
    let all = seq![c].push(c);
    assert(all.drop_last() =~= seq![c]);
    assert(seq![c].drop_last() =~= Seq::<Cell>::empty());
    assert(dedup(seq![c].drop_last()) =~= Seq::<Cell>::empty());
    assert(seq![c].last() == c);
    assert(dedup(seq![c]) =~= seq![c]);
    assert(seq![c].contains(c)) by {
        assert(seq![c][0] == c);
    }
}

/// Every cell of normalised axes, applied to a valid base config, gives a
/// valid config: candidates from validated axes always pass `validate`.
pub proof fn lemma_normalized_cells_are_valid(a: MatrixAxes, n: MatrixAxes, base: StudioConfig, x: Cell)
    requires
        axes_problem(a) is None,
        is_normal_form_of(n, a),
        config_is_valid(base),
        full_cells(n).contains(x),
    ensures
        config_is_valid(
            StudioConfig {
                gradient_step: x.0,
                filter_speckle: x.1,
                color_precision: x.2,
                ..base
            },
        ),
{
    lemma_normal_form(a, n);
    lemma_product(n.gradient_step@, n.filter_speckle@, n.color_precision@);
    let kg = choose|k: int| 0 <= k < n.gradient_step@.len() && n.gradient_step@[k] == x.0;
    let kf = choose|k: int| 0 <= k < n.filter_speckle@.len() && n.filter_speckle@[k] == x.1;
    let kp = choose|k: int| 0 <= k < n.color_precision@.len() && n.color_precision@[k] == x.2;
    assert(0 <= n.gradient_step@[kg] <= 255);
    assert(n.filter_speckle@[kf] <= 128);
    assert(1 <= n.color_precision@[kp] <= 8);
}

} // verus!
