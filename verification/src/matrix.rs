//! The experiment matrix: three parameter axes, their Cartesian product, the
//! sparse probe set and the scheduling order of a run.
use vstd::prelude::*;

use crate::config::{StudioConfig, FILTER_SPECKLE_MAX};
use crate::error::{StudioError, StudioResult};
use crate::seqs::{
    dedup, lemma_dedup, lemma_dedup_of_unique, lemma_increasing_unique, lemma_sort_unique,
    sort_unique, strictly_increasing,
};
use crate::text::{decimal, push_decimal, push_signed_decimal, push_str, signed_decimal};

verus! {

/// The three experiment axes. `normalized` validates, sorts and deduplicates
/// them before any product, order or id is derived.
#[derive(Debug, Clone, PartialEq, Eq)]
pub struct MatrixAxes {
    pub gradient_step: Vec<i32>,
    pub filter_speckle: Vec<u32>,
    pub color_precision: Vec<i32>,
}

#[derive(Debug, Clone, Copy, PartialEq, Eq, Structural)]
pub enum RunMode {
    /// Cube corners + center only (at most 9 candidates).
    Sparse,
    /// Full Cartesian product, sparse candidates scheduled first.
    Full,
}

/// One cell of the matrix: the axis values plus its deterministic id.
#[derive(Debug, Clone, PartialEq, Eq)]
pub struct CandidateParams {
    pub id: String,
    pub gradient_step: i32,
    pub filter_speckle: u32,
    pub color_precision: i32,
}

/// A matrix cell as a plain tuple (gradient step, filter speckle, color precision).
pub type Cell = (i32, u32, i32);

/// The id of a cell: `g{g}_f{f}_p{p}`.
pub open spec fn candidate_id(k: Cell) -> Seq<char> {
    seq!['g'] + signed_decimal(k.0 as int) + seq!['_', 'f'] + decimal(k.1 as nat) + seq!['_', 'p']
        + signed_decimal(k.2 as int)
}

impl CandidateParams {
    pub open spec fn cell(self) -> Cell {
        (self.gradient_step, self.filter_speckle, self.color_precision)
    }

    /// The id is the one its axis values determine.
    pub open spec fn wf(self) -> bool {
        self.id@ == candidate_id(self.cell())
    }
}

pub open spec fn cells(s: Seq<CandidateParams>) -> Seq<Cell> {
    s.map_values(|c: CandidateParams| c.cell())
}

pub open spec fn all_wf(s: Seq<CandidateParams>) -> bool {
    forall|i: int| 0 <= i < s.len() ==> (#[trigger] s[i]).wf()
}

pub open spec fn ints_i32(s: Seq<i32>) -> Seq<int> {
    s.map_values(|v: i32| v as int)
}

pub open spec fn ints_u32(s: Seq<u32>) -> Seq<int> {
    s.map_values(|v: u32| v as int)
}

/// Cells `(g, f, c)` for every `c` of `p`.
pub open spec fn row(g: i32, f: u32, p: Seq<i32>) -> Seq<Cell> {
    p.map_values(|c: i32| (g, f, c))
}

/// Cells `(g, b, c)` for every `b` of `f` and `c` of `p`, `b` varying slowest.
pub open spec fn plane(g: i32, f: Seq<u32>, p: Seq<i32>) -> Seq<Cell>
    decreases f.len(),
{
    if f.len() == 0 {
        seq![]
    } else {
        plane(g, f.drop_last(), p) + row(g, f.last(), p)
    }
}

/// The Cartesian product in lexicographic axis order.
pub open spec fn product(g: Seq<i32>, f: Seq<u32>, p: Seq<i32>) -> Seq<Cell>
    decreases g.len(),
{
    if g.len() == 0 {
        seq![]
    } else {
        product(g.drop_last(), f, p) + plane(g.last(), f, p)
    }
}

/// The first and the last value (just the one when there is one).
pub open spec fn ends<A>(v: Seq<A>) -> Seq<A> {
    if v.len() == 1 {
        seq![v[0]]
    } else {
        seq![v[0], v.last()]
    }
}

/// The middle cell: each axis at index `len / 2`.
pub open spec fn center(a: MatrixAxes) -> Cell {
    (
        a.gradient_step@[(a.gradient_step@.len() / 2) as int],
        a.filter_speckle@[(a.filter_speckle@.len() / 2) as int],
        a.color_precision@[(a.color_precision@.len() / 2) as int],
    )
}

/// Cube corners then the center, each cell once, in first-occurrence order.
pub open spec fn sparse_cells(a: MatrixAxes) -> Seq<Cell> {
    dedup(
        product(ends(a.gradient_step@), ends(a.filter_speckle@), ends(a.color_precision@)).push(
            center(a),
        ),
    )
}

pub open spec fn full_cells(a: MatrixAxes) -> Seq<Cell> {
    product(a.gradient_step@, a.filter_speckle@, a.color_precision@)
}

/// The scheduling order of a run.
pub open spec fn ordered_cells(a: MatrixAxes, mode: RunMode) -> Seq<Cell> {
    match mode {
        RunMode::Sparse => sparse_cells(a),
        RunMode::Full => dedup(sparse_cells(a) + full_cells(a)),
    }
}

pub open spec fn axes_nonempty(a: MatrixAxes) -> bool {
    a.gradient_step@.len() > 0 && a.filter_speckle@.len() > 0 && a.color_precision@.len() > 0
}

/// Index of the first value outside `[lo, hi]` (the length if there is none).
pub open spec fn first_outside(s: Seq<int>, lo: int, hi: int) -> int
    decreases s.len(),
{
    if s.len() == 0 {
        0
    } else if !(lo <= s[0] <= hi) {
        0
    } else {
        1 + first_outside(s.drop_first(), lo, hi)
    }
}

/// The message of the first problem `normalized` finds, if any.
pub open spec fn axes_problem(a: MatrixAxes) -> Option<Seq<char>> {
    let g = sort_unique(ints_i32(a.gradient_step@));
    let f = sort_unique(ints_u32(a.filter_speckle@));
    let p = sort_unique(ints_i32(a.color_precision@));
    if a.gradient_step@.len() == 0 {
        Some("渐变步长 gradient_step 至少要选一个值"@)
    } else if a.filter_speckle@.len() == 0 {
        Some("斑点过滤 filter_speckle 至少要选一个值"@)
    } else if a.color_precision@.len() == 0 {
        Some("颜色精度 color_precision 至少要选一个值"@)
    } else if first_outside(g, 0, 255) < g.len() {
        Some(
            "渐变步长 gradient_step 必须在 [0,255] 内，当前含 "@ + signed_decimal(
                g[first_outside(g, 0, 255)],
            ),
        )
    } else if first_outside(f, 0, FILTER_SPECKLE_MAX as int) < f.len() {
        Some(
            "斑点过滤 filter_speckle 必须在 [0,128] 内，当前含 "@ + decimal(
                f[first_outside(f, 0, FILTER_SPECKLE_MAX as int)] as nat,
            ),
        )
    } else if first_outside(p, 1, 8) < p.len() {
        Some(
            "颜色精度 color_precision 必须在 [1,8] 内，当前含 "@ + signed_decimal(
                p[first_outside(p, 1, 8)],
            ),
        )
    } else {
        None
    }
}

/// `n` holds the sorted, repeat-free values of `a`.
pub open spec fn is_normal_form_of(n: MatrixAxes, a: MatrixAxes) -> bool {
    &&& ints_i32(n.gradient_step@) == sort_unique(ints_i32(a.gradient_step@))
    &&& ints_u32(n.filter_speckle@) == sort_unique(ints_u32(a.filter_speckle@))
    &&& ints_i32(n.color_precision@) == sort_unique(ints_i32(a.color_precision@))
}

/// A value of a matrix axis: a machine integer, ordered as the integer it
/// denotes.
pub trait AxisValue: Copy {
    spec fn as_int(self) -> int;

    fn below(&self, other: &Self) -> (b: bool)
        ensures
            b == (self.as_int() < other.as_int()),
    ;

    fn equals(&self, other: &Self) -> (b: bool)
        ensures
            b == (self.as_int() == other.as_int()),
    ;
}

impl AxisValue for i32 {
    open spec fn as_int(self) -> int {
        self as int
    }

    fn below(&self, other: &Self) -> (b: bool) {
        *self < *other
    }

    fn equals(&self, other: &Self) -> (b: bool) {
        *self == *other
    }
}

impl AxisValue for u32 {
    open spec fn as_int(self) -> int {
        self as int
    }

    fn below(&self, other: &Self) -> (b: bool) {
        *self < *other
    }

    fn equals(&self, other: &Self) -> (b: bool) {
        *self == *other
    }
}

/// The integers an axis denotes.
pub open spec fn axis_ints<T: AxisValue>(s: Seq<T>) -> Seq<int> {
    s.map_values(|v: T| v.as_int())
}

/// Sorted, repeat-free copy of an axis.
fn sort_unique_axis<T: AxisValue>(v: &Vec<T>) -> (r: Vec<T>)
    ensures
        axis_ints(r@) == sort_unique(axis_ints(v@)),
{
    let mut r: Vec<T> = Vec::new();
    let n = v.len();
    let mut i: usize = 0;
    while i < n
        invariant
            n == v@.len(),
            i <= n,
            strictly_increasing(axis_ints(r@)),
            forall|y: int| axis_ints(r@).contains(y) <==> axis_ints(v@.take(i as int)).contains(y),
        decreases n - i,
    {
        let x = v[i];
        let len = r.len();
        let mut k: usize = 0;
        while k < len && r[k].below(&x)
            invariant
                len == r@.len(),
                k <= len,
                forall|j: int| 0 <= j < k ==> r@[j].as_int() < x.as_int(),
            decreases len - k,
        {
            k = k + 1;
        }
        let ghost old_r = r@;
        if k < len && r[k].equals(&x) {
        } else {
            r.insert(k, x);
            proof {
                let o = axis_ints(old_r);
                let t = axis_ints(r@);
                assert(r@ == old_r.insert(k as int, x));
                assert(t =~= o.insert(k as int, x.as_int()));
                assert forall|a: int, b: int| 0 <= a < b < t.len() implies t[a] < t[b] by {
                    if b < k {
                        assert(t[a] == o[a] && t[b] == o[b]);
                    } else if b == k {
                        assert(t[a] == o[a]);
                    } else if a < k {
                        assert(t[a] == o[a] && t[b] == o[b - 1]);
                        assert(o[b - 1] >= x.as_int()) by {
                            if b - 1 > k {
                                assert(o[k as int] < o[b - 1]);
                            }
                        }
                    } else if a == k {
                        assert(t[b] == o[b - 1]);
                        if b - 1 > k {
                            assert(o[k as int] < o[b - 1]);
                        }
                    } else {
                        assert(t[a] == o[a - 1] && t[b] == o[b - 1]);
                    }
                }
            }
        }
        proof {
            let o = axis_ints(old_r);
            let t = axis_ints(r@);
            let pre = axis_ints(v@.take(i as int));
            let post = axis_ints(v@.take(i + 1));
            assert(post =~= pre.push(x.as_int()));
            assert forall|y: int| t.contains(y) <==> post.contains(y) by {
                if t.contains(y) {
                    let m = choose|m: int| 0 <= m < t.len() && t[m] == y;
                    if r@ == old_r {
                        assert(o.contains(y));
                    } else if m < k {
                        assert(o[m] == y);
                        assert(o.contains(y));
                    } else if m > k {
                        assert(o[m - 1] == y);
                        assert(o.contains(y));
                    }
                    if o.contains(y) {
                        let q = choose|q: int| 0 <= q < pre.len() && pre[q] == y;
                        assert(post[q] == y);
                    } else {
                        assert(post[pre.len() as int] == y);
                    }
                }
                if post.contains(y) {
                    let q = choose|q: int| 0 <= q < post.len() && post[q] == y;
                    if q < pre.len() {
                        assert(pre[q] == y);
                        assert(o.contains(y));
                        let m = choose|m: int| 0 <= m < o.len() && o[m] == y;
                        if r@ == old_r {
                            assert(t[m] == y);
                        } else if m < k {
                            assert(t[m] == y);
                        } else {
                            assert(t[m + 1] == y);
                        }
                    } else {
                        assert(y == x.as_int());
                        if r@ == old_r {
                            assert(t[k as int] == y);
                        } else {
                            assert(t[k as int] == y);
                        }
                    }
                }
            }
        }
        i = i + 1;
    }
    proof {
        assert(v@.take(n as int) =~= v@);
        lemma_sort_unique(axis_ints(v@));
        lemma_increasing_unique(axis_ints(r@), sort_unique(axis_ints(v@)));
    }
    r
}

/// Index of the first value of an axis outside `[lo, hi]`.
fn find_outside<T: AxisValue>(v: &Vec<T>, lo: T, hi: T) -> (k: usize)
    ensures
        k as int == first_outside(axis_ints(v@), lo.as_int(), hi.as_int()),
        k <= v@.len(),
{
    let n = v.len();
    let mut k: usize = 0;
    assert(axis_ints(v@).subrange(0, n as int) =~= axis_ints(v@));
    while k < n && !v[k].below(&lo) && !hi.below(&v[k])
        invariant
            n == v@.len(),
            k <= n,
            first_outside(axis_ints(v@), lo.as_int(), hi.as_int()) == k + first_outside(
                axis_ints(v@).subrange(k as int, n as int),
                lo.as_int(),
                hi.as_int(),
            ),
        decreases n - k,
    {
        proof {
            let s = axis_ints(v@).subrange(k as int, n as int);
            assert(s.drop_first() =~= axis_ints(v@).subrange(k + 1, n as int));
        }
        k = k + 1;
    }
    proof {
        let s = axis_ints(v@).subrange(k as int, n as int);
        if k < n {
            assert(s[0] == v@[k as int].as_int());
        }
    }
    assert(axis_ints(v@).subrange(0, n as int) =~= axis_ints(v@));
    k
}

fn invalid_param(text: &str) -> (e: StudioError)
    ensures
        e matches StudioError::InvalidParam(m) && m@ == text@,
{
    let mut m = String::new();
    push_str(&mut m, text);
    StudioError::InvalidParam(m)
}

impl MatrixAxes {
    /// Validates ranges, sorts ascending and deduplicates each axis.
    pub fn normalized(&self) -> (r: StudioResult<MatrixAxes>)
        ensures
            match r {
                Ok(n) => axes_problem(*self) is None && is_normal_form_of(n, *self),
                Err(e) => axes_problem(*self) matches Some(msg) && e matches StudioError::InvalidParam(
                    m,
                ) && m@ == msg,
            },
    {
        if self.gradient_step.len() == 0 {
            return Err(invalid_param("渐变步长 gradient_step 至少要选一个值"));
        }
        if self.filter_speckle.len() == 0 {
            return Err(invalid_param("斑点过滤 filter_speckle 至少要选一个值"));
        }
        if self.color_precision.len() == 0 {
            return Err(invalid_param("颜色精度 color_precision 至少要选一个值"));
        }
        let g = sort_unique_axis(&self.gradient_step);
        let f = sort_unique_axis(&self.filter_speckle);
        let p = sort_unique_axis(&self.color_precision);
        proof {
            assert(axis_ints(self.gradient_step@) =~= ints_i32(self.gradient_step@));
            assert(axis_ints(self.filter_speckle@) =~= ints_u32(self.filter_speckle@));
            assert(axis_ints(self.color_precision@) =~= ints_i32(self.color_precision@));
            assert(axis_ints(g@) =~= ints_i32(g@));
            assert(axis_ints(f@) =~= ints_u32(f@));
            assert(axis_ints(p@) =~= ints_i32(p@));
        }
        let kg = find_outside(&g, 0, 255);
        if kg < g.len() {
            let mut m = String::new();
            push_str(&mut m, "渐变步长 gradient_step 必须在 [0,255] 内，当前含 ");
            push_signed_decimal(&mut m, g[kg]);
            return Err(StudioError::InvalidParam(m));
        }
        let kf = find_outside(&f, 0, FILTER_SPECKLE_MAX);
        if kf < f.len() {
            let mut m = String::new();
            push_str(&mut m, "斑点过滤 filter_speckle 必须在 [0,128] 内，当前含 ");
            push_decimal(&mut m, f[kf] as u64);
            return Err(StudioError::InvalidParam(m));
        }
        let kp = find_outside(&p, 1, 8);
        if kp < p.len() {
            let mut m = String::new();
            push_str(&mut m, "颜色精度 color_precision 必须在 [1,8] 内，当前含 ");
            push_signed_decimal(&mut m, p[kp]);
            return Err(StudioError::InvalidParam(m));
        }
        Ok(MatrixAxes { gradient_step: g, filter_speckle: f, color_precision: p })
    }
}


/// The cells a run collects: all of them, or first occurrences only.
pub open spec fn collect(s: Seq<Cell>, unique: bool) -> Seq<Cell> {
    if unique {
        dedup(s)
    } else {
        s
    }
}

impl CandidateParams {
    /// The candidate for one cell, with its id `g{g}_f{f}_p{p}`.
    pub fn new(g: i32, f: u32, p: i32) -> (c: CandidateParams)
        ensures
            c.cell() == (g, f, p),
            c.wf(),
    {
        let mut id = String::new();
        id.push('g');
        push_signed_decimal(&mut id, g);
        id.push('_');
        id.push('f');
        push_decimal(&mut id, f as u64);
        id.push('_');
        id.push('p');
        push_signed_decimal(&mut id, p);
        let c = CandidateParams { id, gradient_step: g, filter_speckle: f, color_precision: p };
        assert(c.id@ =~= candidate_id(c.cell()));
        c
    }

    /// The full config for this candidate: base config with the axis values applied.
    pub fn apply_to(&self, base: &StudioConfig) -> (c: StudioConfig)
        ensures
            c == (StudioConfig {
                gradient_step: self.gradient_step,
                filter_speckle: self.filter_speckle,
                color_precision: self.color_precision,
                ..*base
            }),
    {
        StudioConfig {
            gradient_step: self.gradient_step,
            filter_speckle: self.filter_speckle,
            color_precision: self.color_precision,
            ..*base
        }
    }
}

fn add_candidate(
    out: &mut Vec<CandidateParams>,
    c: CandidateParams,
    unique: bool,
    Ghost(pushed): Ghost<Seq<Cell>>,
)
    requires
        all_wf(old(out)@),
        c.wf(),
        cells(old(out)@) == collect(pushed, unique),
    ensures
        all_wf(final(out)@),
        cells(final(out)@) == collect(pushed.push(c.cell()), unique),
{
    let ghost before = out@;
    assert(pushed.push(c.cell()).drop_last() =~= pushed);
    if unique {
        let n = out.len();
        let mut i: usize = 0;
        let mut found = false;
        while i < n
            invariant
                n == out@.len(),
                i <= n,
                out@ == before,
                found <==> exists|j: int| 0 <= j < i && (#[trigger] out@[j]).cell() == c.cell(),
            decreases n - i,
        {
            if out[i].gradient_step == c.gradient_step && out[i].filter_speckle == c.filter_speckle
                && out[i].color_precision == c.color_precision {
                found = true;
            }
            i = i + 1;
        }
        proof {
            if found {
                let j = choose|j: int| 0 <= j < n && (#[trigger] out@[j]).cell() == c.cell();
                assert(cells(out@)[j] == c.cell());
            } else {
                assert forall|j: int| 0 <= j < cells(out@).len() implies cells(out@)[j] != c.cell() by {
                    assert(out@[j].cell() != c.cell());
                }
            }
        }
        if !found {
            out.push(c);
            assert(cells(out@) =~= cells(before).push(c.cell()));
        }
    } else {
        out.push(c);
        assert(cells(out@) =~= cells(before).push(c.cell()));
    }
}

proof fn lemma_plane_step(g: i32, f: Seq<u32>, p: Seq<i32>, j: int)
    requires
        0 <= j < f.len(),
    ensures
        plane(g, f.take(j + 1), p) == plane(g, f.take(j), p) + row(g, f[j], p),
{
    assert(f.take(j + 1).drop_last() =~= f.take(j));
}

proof fn lemma_product_step(g: Seq<i32>, f: Seq<u32>, p: Seq<i32>, i: int)
    requires
        0 <= i < g.len(),
    ensures
        product(g.take(i + 1), f, p) == product(g.take(i), f, p) + plane(g[i], f, p),
{
    assert(g.take(i + 1).drop_last() =~= g.take(i));
}

/// Appends the cells of `product(g, f, p)` in order (first occurrences only
/// when `unique`).
fn fill_product(
    out: &mut Vec<CandidateParams>,
    g: &Vec<i32>,
    f: &Vec<u32>,
    p: &Vec<i32>,
    unique: bool,
    Ghost(base): Ghost<Seq<Cell>>,
)
    requires
        all_wf(old(out)@),
        cells(old(out)@) == collect(base, unique),
    ensures
        all_wf(final(out)@),
        cells(final(out)@) == collect(base + product(g@, f@, p@), unique),
{
    let ghost mut pushed = base;
    let ng = g.len();
    let nf = f.len();
    let np = p.len();
    let mut i: usize = 0;
    assert(base + product(g@.take(0), f@, p@) =~= base);
    while i < ng
        invariant
            ng == g@.len(),
            nf == f@.len(),
            np == p@.len(),
            i <= ng,
            pushed == base + product(g@.take(i as int), f@, p@),
            all_wf(out@),
            cells(out@) == collect(pushed, unique),
        decreases ng - i,
    {
        let gi = g[i];
        let mut j: usize = 0;
        assert(pushed + plane(gi, f@.take(0), p@) =~= pushed);
        while j < nf
            invariant
                ng == g@.len(),
                nf == f@.len(),
                np == p@.len(),
                i < ng,
                gi == g@[i as int],
                j <= nf,
                pushed == base + product(g@.take(i as int), f@, p@) + plane(gi, f@.take(j as int), p@),
                all_wf(out@),
                cells(out@) == collect(pushed, unique),
            decreases nf - j,
        {
            let fj = f[j];
            let mut k: usize = 0;
            assert(pushed + row(gi, fj, p@.take(0)) =~= pushed);
            while k < np
                invariant
                    ng == g@.len(),
                    nf == f@.len(),
                    np == p@.len(),
                    i < ng,
                    j < nf,
                    gi == g@[i as int],
                    fj == f@[j as int],
                    k <= np,
                    pushed == base + product(g@.take(i as int), f@, p@) + plane(
                        gi,
                        f@.take(j as int),
                        p@,
                    ) + row(gi, fj, p@.take(k as int)),
                    all_wf(out@),
                    cells(out@) == collect(pushed, unique),
                decreases np - k,
            {
                let c = CandidateParams::new(gi, fj, p[k]);
                add_candidate(out, c, unique, Ghost(pushed));
                proof {
                    let x = c.cell();
                    assert(row(gi, fj, p@.take(k + 1)) =~= row(gi, fj, p@.take(k as int)).push(x));
                    pushed = pushed.push(x);
                }
                k = k + 1;
            }
            proof {
                assert(p@.take(np as int) =~= p@);
                lemma_plane_step(gi, f@, p@, j as int);
                assert(pushed =~= base + product(g@.take(i as int), f@, p@) + plane(
                    gi,
                    f@.take(j + 1),
                    p@,
                ));
            }
            j = j + 1;
        }
        proof {
            assert(f@.take(nf as int) =~= f@);
            lemma_product_step(g@, f@, p@, i as int);
            assert(pushed =~= base + product(g@.take(i + 1), f@, p@));
        }
        i = i + 1;
    }
    assert(g@.take(ng as int) =~= g@);
}

fn ends_of<T: Copy>(v: &Vec<T>) -> (r: Vec<T>)
    requires
        v@.len() > 0,
    ensures
        r@ == ends(v@),
{
    let mut r = Vec::new();
    r.push(v[0]);
    if v.len() != 1 {
        r.push(v[v.len() - 1]);
    }
    assert(r@ =~= ends(v@));
    r
}

impl MatrixAxes {
    /// Full Cartesian product in lexicographic axis order.
    pub fn expand(&self) -> (out: Vec<CandidateParams>)
        ensures
            cells(out@) == full_cells(*self),
            all_wf(out@),
    {
        let mut out: Vec<CandidateParams> = Vec::new();
        assert(cells(out@) =~= Seq::<Cell>::empty());
        fill_product(
            &mut out,
            &self.gradient_step,
            &self.filter_speckle,
            &self.color_precision,
            false,
            Ghost(Seq::empty()),
        );
        assert(Seq::<Cell>::empty() + full_cells(*self) =~= full_cells(*self));
        out
    }

    /// The cube corners (min/max per axis) then the center, each cell once,
    /// in first-occurrence order.
    pub fn sparse_set(&self) -> (out: Vec<CandidateParams>)
        requires
            axes_nonempty(*self),
        ensures
            cells(out@) == sparse_cells(*self),
            all_wf(out@),
    {
        let eg = ends_of(&self.gradient_step);
        let ef = ends_of(&self.filter_speckle);
        let ep = ends_of(&self.color_precision);
        let mut out: Vec<CandidateParams> = Vec::new();
        assert(cells(out@) =~= dedup(Seq::<Cell>::empty()));
        fill_product(&mut out, &eg, &ef, &ep, true, Ghost(Seq::empty()));
        let ghost corners = product(eg@, ef@, ep@);
        assert(Seq::<Cell>::empty() + corners =~= corners);
        let c = CandidateParams::new(
            self.gradient_step[self.gradient_step.len() / 2],
            self.filter_speckle[self.filter_speckle.len() / 2],
            self.color_precision[self.color_precision.len() / 2],
        );
        add_candidate(&mut out, c, true, Ghost(corners));
        out
    }

    /// Scheduling order for a run: `Sparse` gives the sparse set only; `Full`
    /// gives the sparse set first, then every remaining cell in lexicographic
    /// order.
    pub fn ordered(&self, mode: RunMode) -> (out: Vec<CandidateParams>)
        requires
            axes_nonempty(*self),
        ensures
            cells(out@) == ordered_cells(*self, mode),
            all_wf(out@),
    {
        let mut out = self.sparse_set();
        match mode {
            RunMode::Sparse => out,
            RunMode::Full => {
                proof {
                    lemma_dedup(
                        product(
                            ends(self.gradient_step@),
                            ends(self.filter_speckle@),
                            ends(self.color_precision@),
                        ).push(center(*self)),
                    );
                    lemma_dedup_of_unique(sparse_cells(*self));
                }
                fill_product(
                    &mut out,
                    &self.gradient_step,
                    &self.filter_speckle,
                    &self.color_precision,
                    true,
                    Ghost(sparse_cells(*self)),
                );
                out
            },
        }
    }
}

} // verus!
