//! Embedding vectors and cosine similarity, carried out exactly.
//!
//! A vector component is a fixed-point integer: the remote provider's
//! floating-point component scaled by a fixed factor and rounded once at the
//! boundary, so that everything the ranker computes from the vectors is
//! exact integer arithmetic.  The component magnitude and the dimension are
//! bounded so that every product formed here fits comfortably in `i128`.
//!
//! Cosine similarity of `a` and `b` is `dot(a,b) / (|a|*|b|)`.  The library
//! never forms that quotient approximately where an order matters: the
//! ranker compares similarities by exact cross-multiplication
//! ([`crate::rank`]), and [`cosine_permille`] reports the value rounded to
//! thousandths for display and tests.  A dimension mismatch or a zero vector
//! yields similarity zero, not an error.

use vstd::prelude::*;
use vstd::arithmetic::div_mod::{lemma_div_by_multiple, lemma_div_is_ordered, lemma_div_pos_is_pos};

verus! {

/// Largest allowed magnitude of a fixed-point component.
pub const COMPONENT_LIMIT: i64 = 32768;

/// Largest allowed number of components in a vector.
pub const DIMENSION_LIMIT: usize = 4096;

/// A well-formed fixed-point vector: bounded dimension, bounded components.
pub open spec fn vec_wf(v: Seq<i64>) -> bool {
    &&& v.len() <= DIMENSION_LIMIT
    &&& forall|i: int|
        0 <= i < v.len() ==> -COMPONENT_LIMIT <= #[trigger] v[i] <= COMPONENT_LIMIT
}

/// The dot product of two equally long integer vectors.
pub open spec fn dot(a: Seq<i64>, b: Seq<i64>) -> int
    recommends
        a.len() == b.len(),
    decreases a.len(),
{
    if a.len() == 0 || b.len() == 0 {
        0
    } else {
        dot(a.drop_last(), b.drop_last()) + a.last() * b.last()
    }
}

/// The squared Euclidean magnitude of a vector.
pub open spec fn norm2(a: Seq<i64>) -> int {
    dot(a, a)
}

/// The integer square root, rounded down.
pub open spec fn sqrt_floor(x: int) -> int {
    choose|r: int| 0 <= r && #[trigger] (r * r) <= x && x < (r + 1) * (r + 1)
}

/// Cosine similarity in thousandths, rounded toward zero.  Zero when the
/// dimensions differ or either vector has zero magnitude.
pub open spec fn spec_cosine_permille(a: Seq<i64>, b: Seq<i64>) -> int {
    if a.len() != b.len() || norm2(a) == 0 || norm2(b) == 0 {
        0
    } else {
        let d = dot(a, b);
        let s = sqrt_floor(norm2(a) * norm2(b));
        if d >= 0 {
            (1000 * d) / s
        } else {
            -((1000 * (-d)) / s)
        }
    }
}

/// A fixed-point embedding vector.
pub struct Embedding {
    pub comps: Vec<i64>,
}

impl View for Embedding {
    type V = Seq<i64>;

    open spec fn view(&self) -> Seq<i64> {
        self.comps@
    }
}

impl Embedding {
    pub open spec fn wf(&self) -> bool {
        vec_wf(self@)
    }

    /// Accepts a component list if and only if it is within the library's
    /// dimension and magnitude bounds.
    pub fn from_components(comps: Vec<i64>) -> (r: Option<Embedding>)
        ensures
            r is Some <==> vec_wf(comps@),
            r matches Some(e) ==> e@ == comps@ && e.wf(),
    {
        if comps.len() > DIMENSION_LIMIT {
            return None;
        }
        let mut i: usize = 0;
        while i < comps.len()
            invariant
                0 <= i <= comps@.len(),
                forall|k: int|
                    0 <= k < i ==> -COMPONENT_LIMIT <= #[trigger] comps@[k] <= COMPONENT_LIMIT,
            decreases comps@.len() - i,
        {
            if comps[i] < -COMPONENT_LIMIT || comps[i] > COMPONENT_LIMIT {
                return None;
            }
            i = i + 1;
        }
        Some(Embedding { comps })
    }

    pub fn dimension(&self) -> (r: usize)
        ensures
            r == self@.len(),
    {
        self.comps.len()
    }

    pub fn clone_vector(&self) -> (r: Embedding)
        ensures
            r@ == self@,
    {
        let mut comps: Vec<i64> = Vec::new();
        let mut i: usize = 0;
        while i < self.comps.len()
            invariant
                0 <= i <= self@.len(),
                comps@ == self@.subrange(0, i as int),
            decreases self@.len() - i,
        {
            comps.push(self.comps[i]);
            proof {
                assert(self@.subrange(0, i + 1 as int) =~= self@.subrange(0, i as int).push(
                    self@[i as int],
                ));
            }
            i = i + 1;
        }
        proof {
            assert(self@.subrange(0, self@.len() as int) =~= self@);
        }
        Embedding { comps }
    }
}

/// `|x * y| <= bx * by` whenever `|x| <= bx` and `|y| <= by`.
pub proof fn lemma_mul_bounds(x: int, y: int, bx: int, by: int)
    requires
        -bx <= x <= bx,
        -by <= y <= by,
        0 <= bx,
        0 <= by,
    ensures
        -(bx * by) <= x * y <= bx * by,
{
    assert(-(bx * by) <= x * y <= bx * by) by (nonlinear_arith)
        requires
            -bx <= x <= bx,
            -by <= y <= by,
            0 <= bx,
            0 <= by,
    ;
}

/// The dot product of bounded vectors is bounded by `len * limit^2`.
pub proof fn lemma_dot_bound(a: Seq<i64>, b: Seq<i64>)
    requires
        a.len() == b.len(),
        vec_wf(a),
        vec_wf(b),
    ensures
        -(a.len() as int * (COMPONENT_LIMIT as int * COMPONENT_LIMIT as int)) <= dot(a, b),
        dot(a, b) <= a.len() as int * (COMPONENT_LIMIT as int * COMPONENT_LIMIT as int),
    decreases a.len(),
{
    let cl = COMPONENT_LIMIT as int;
    if a.len() > 0 {
        assert(vec_wf(a.drop_last())) by {
            assert(forall|i: int|
                0 <= i < a.len() - 1 ==> a.drop_last()[i] == #[trigger] a[i]);
        }
        assert(vec_wf(b.drop_last())) by {
            assert(forall|i: int|
                0 <= i < b.len() - 1 ==> b.drop_last()[i] == #[trigger] b[i]);
        }
        lemma_dot_bound(a.drop_last(), b.drop_last());
        lemma_mul_bounds(a.last() as int, b.last() as int, cl, cl);
    }
}

/// A squared magnitude is never negative.
pub proof fn lemma_norm2_nonneg(a: Seq<i64>)
    ensures
        norm2(a) >= 0,
    decreases a.len(),
{
    if a.len() > 0 {
        lemma_norm2_nonneg(a.drop_last());
        assert(a.last() * a.last() >= 0) by (nonlinear_arith);
    }
}

/// A vector of zero magnitude has only zero components, so its dot product
/// with anything is zero.
pub proof fn lemma_norm2_zero(a: Seq<i64>, b: Seq<i64>)
    requires
        a.len() == b.len(),
        norm2(a) == 0,
    ensures
        dot(a, b) == 0,
    decreases a.len(),
{
    if a.len() > 0 {
        lemma_norm2_nonneg(a.drop_last());
        assert(a.last() * a.last() >= 0) by (nonlinear_arith);
        assert(a.last() * a.last() == 0 ==> a.last() == 0) by (nonlinear_arith);
        lemma_norm2_zero(a.drop_last(), b.drop_last());
        assert(a.last() as int * b.last() as int == 0) by (nonlinear_arith)
            requires
                a.last() == 0int,
        ;
    }
}

/// The Cauchy-Schwarz inequality: `dot(a,b)^2 <= norm2(a) * norm2(b)`.
/// This is exactly the statement that cosine similarity lies in `[-1, 1]`.
pub proof fn lemma_cauchy_schwarz(a: Seq<i64>, b: Seq<i64>)
    requires
        a.len() == b.len(),
    ensures
        dot(a, b) * dot(a, b) <= norm2(a) * norm2(b),
    decreases a.len(),
{
    if a.len() == 0 {
    } else {
        let x = a.drop_last();
        let y = b.drop_last();
        let p = a.last() as int;
        let q = b.last() as int;
        let ca = norm2(x);
        let cb = norm2(y);
        let d = dot(x, y);
        lemma_cauchy_schwarz(x, y);
        lemma_norm2_nonneg(x);
        lemma_norm2_nonneg(y);
        // norm2 and dot extend by the last components:
        assert(norm2(a) == ca + p * p);
        assert(norm2(b) == cb + q * q);
        assert(dot(a, b) == d + p * q);
        // ca*q^2 + cb*p^2 dominates 2*d*p*q, by the arithmetic-geometric
        // mean inequality together with the induction hypothesis:
        let u = p * q;
        let t1 = ca * (q * q);
        let t2 = cb * (p * p);
        let s = t1 + t2;
        let w = 2 * (d * u);
        assert(t1 >= 0 && t2 >= 0) by (nonlinear_arith)
            requires
                ca >= 0,
                cb >= 0,
                t1 == ca * (q * q),
                t2 == cb * (p * p),
        ;
        assert(s * s >= 4 * (t1 * t2)) by (nonlinear_arith)
            requires
                s == t1 + t2,
        ;
        assert(t1 * t2 == (ca * cb) * (u * u)) by (nonlinear_arith)
            requires
                t1 == ca * (q * q),
                t2 == cb * (p * p),
                u == p * q,
        ;
        assert((ca * cb) * (u * u) >= (d * d) * (u * u)) by (nonlinear_arith)
            requires
                d * d <= ca * cb,
        ;
        assert(w * w == 4 * ((d * d) * (u * u))) by (nonlinear_arith)
            requires
                w == 2 * (d * u),
        ;
        assert(s >= w) by (nonlinear_arith)
            requires
                s >= 0,
                s * s >= w * w,
        ;
        assert((ca + p * p) * (cb + q * q) == ca * cb + t1 + t2 + (p * q) * (p * q))
            by (nonlinear_arith)
            requires
                t1 == ca * (q * q),
                t2 == cb * (p * p),
        ;
        assert((d + u) * (d + u) == d * d + w + u * u) by (nonlinear_arith)
            requires
                w == 2 * (d * u),
        ;
        assert(u * u == (p * q) * (p * q)) by (nonlinear_arith)
            requires
                u == p * q,
        ;
        assert((d + u) * (d + u) <= (ca + p * p) * (cb + q * q));
    }
}

/// Computes the exact dot product of two well-formed vectors.
pub fn dot_product(a: &Embedding, b: &Embedding) -> (r: i128)
    requires
        a.wf(),
        b.wf(),
        a@.len() == b@.len(),
    ensures
        r == dot(a@, b@),
{
    let n = a.comps.len();
    let mut acc: i128 = 0;
    let mut i: usize = 0;
    proof {
        assert(a@.take(0) =~= Seq::<i64>::empty());
        assert(b@.take(0) =~= Seq::<i64>::empty());
    }
    while i < n
        invariant
            a.wf(),
            b.wf(),
            a@.len() == b@.len() == n,
            0 <= i <= n,
            acc == dot(a@.take(i as int), b@.take(i as int)),
            -(i as int * 1073741824) <= acc <= i as int * 1073741824,
        decreases n - i,
    {
        let x = a.comps[i];
        let y = b.comps[i];
        proof {
            lemma_mul_bounds(x as int, y as int, COMPONENT_LIMIT as int, COMPONENT_LIMIT as int);
            assert(COMPONENT_LIMIT as int * COMPONENT_LIMIT as int == 1073741824)
                by (nonlinear_arith);
            assert(a@.take(i + 1 as int).drop_last() =~= a@.take(i as int));
            assert(b@.take(i + 1 as int).drop_last() =~= b@.take(i as int));
            assert(a@.take(i + 1 as int).last() == a@[i as int]);
            assert(b@.take(i + 1 as int).last() == b@[i as int]);
            assert(i as int * 1073741824 <= 4096 * 1073741824);
        }
        acc = acc + (x as i128) * (y as i128);
        i = i + 1;
    }
    proof {
        assert(a@.take(n as int) =~= a@);
        assert(b@.take(n as int) =~= b@);
    }
    acc
}

/// Computes the exact squared magnitude of a well-formed vector.
pub fn norm_squared(a: &Embedding) -> (r: i128)
    requires
        a.wf(),
    ensures
        r == norm2(a@),
        r >= 0,
{
    let r = dot_product(a, a);
    proof {
        lemma_norm2_nonneg(a@);
    }
    r
}

/// The integer square root rounded down, by binary search.
pub fn isqrt(x: u128) -> (r: u128)
    ensures
        r * r <= x < (r + 1) * (r + 1),
{
    let mut lo: u128 = 0;
    let mut hi: u128 = 0x1_0000_0000_0000_0000u128;
    proof {
        assert((hi as int) * (hi as int) == 0x1_0000_0000_0000_0000_0000_0000_0000_0000int)
            by (nonlinear_arith)
            requires
                hi == 0x1_0000_0000_0000_0000u128,
        ;
        assert(x as int <= u128::MAX as int);
    }
    while lo + 1 < hi
        invariant
            lo < hi,
            hi <= 0x1_0000_0000_0000_0000u128,
            (lo as int) * (lo as int) <= x as int,
            (x as int) < (hi as int) * (hi as int),
        decreases hi - lo,
    {
        let mid = lo + (hi - lo) / 2;
        assert(lo < mid < hi);
        assert((mid as int) * (mid as int) <= u128::MAX as int) by (nonlinear_arith)
            requires
                0 <= (mid as int) <= 0xffff_ffff_ffff_ffffint,
        ;
        if mid * mid <= x {
            lo = mid;
        } else {
            hi = mid;
        }
    }
    lo
}

/// Two integer square roots of the same number agree.
proof fn lemma_sqrt_unique(x: int, r1: int, r2: int)
    requires
        0 <= r1,
        r1 * r1 <= x < (r1 + 1) * (r1 + 1),
        0 <= r2,
        r2 * r2 <= x < (r2 + 1) * (r2 + 1),
    ensures
        r1 == r2,
{
    assert(r1 == r2) by (nonlinear_arith)
        requires
            0 <= r1,
            r1 * r1 <= x < (r1 + 1) * (r1 + 1),
            0 <= r2,
            r2 * r2 <= x < (r2 + 1) * (r2 + 1),
    ;
}

/// Cosine similarity lies in `[-1000, 1000]` thousandths: the exact form of
/// the bound `cosine(a, b) in [-1, 1]`.
pub proof fn law_cosine_bounds(a: Seq<i64>, b: Seq<i64>)
    requires
        vec_wf(a),
        vec_wf(b),
    ensures
        -1000 <= spec_cosine_permille(a, b) <= 1000,
{
    if a.len() != b.len() || norm2(a) == 0 || norm2(b) == 0 {
    } else {
        let d = dot(a, b);
        let na = norm2(a);
        let nb = norm2(b);
        let x = na * nb;
        lemma_norm2_nonneg(a);
        lemma_norm2_nonneg(b);
        lemma_cauchy_schwarz(a, b);
        assert(x > 0) by (nonlinear_arith)
            requires
                na > 0,
                nb > 0,
                x == na * nb,
        ;
        let m = if d >= 0 { d } else { -d };
        assert(m * m <= x) by (nonlinear_arith)
            requires
                d * d <= na * nb,
                x == na * nb,
                m == if d >= 0 { d } else { -d },
        ;
        let s = sqrt_floor(x);
        lemma_sqrt_exists(x);
        assert(0 <= s && s * s <= x < (s + 1) * (s + 1));
        assert(s >= 1) by (nonlinear_arith)
            requires
                0 <= s,
                x < (s + 1) * (s + 1),
                x >= 1,
        ;
        assert(m <= s) by (nonlinear_arith)
            requires
                0 <= m,
                0 <= s,
                m * m <= x,
                x < (s + 1) * (s + 1),
        ;
        lemma_div_is_ordered(1000 * m, 1000 * s, s);
        lemma_div_by_multiple(1000, s);
        lemma_div_pos_is_pos(1000 * m, s);
    }
}

/// There is an integer square root for every nonnegative number.
proof fn lemma_sqrt_exists(x: int)
    requires
        x >= 0,
    ensures
        0 <= sqrt_floor(x),
        sqrt_floor(x) * sqrt_floor(x) <= x,
        x < (sqrt_floor(x) + 1) * (sqrt_floor(x) + 1),
    decreases x,
{
    if x == 0 {
        assert(0 <= 0int && 0int * 0int <= x && x < (0int + 1) * (0int + 1)) by (nonlinear_arith)
            requires
                x == 0,
        ;
    } else {
        lemma_sqrt_exists(x - 1);
        let p = sqrt_floor(x - 1);
        if x < (p + 1) * (p + 1) {
            assert(0 <= p && p * p <= x && x < (p + 1) * (p + 1));
        } else {
            // x == (p+1)^2, so p+1 is the root.
            assert(x == (p + 1) * (p + 1)) by (nonlinear_arith)
                requires
                    p * p <= x - 1,
                    x - 1 < (p + 1) * (p + 1),
                    x >= (p + 1) * (p + 1),
            ;
            assert((p + 1) * (p + 1) <= x < (p + 2) * (p + 2)) by (nonlinear_arith)
                requires
                    x == (p + 1) * (p + 1),
                    p >= 0,
            ;
            assert(0 <= p + 1 && (p + 1) * (p + 1) <= x && x < ((p + 1) + 1) * ((p + 1) + 1));
        }
    }
}

/// Cosine similarity of a nonzero vector with itself is exactly one.
pub proof fn law_cosine_self(a: Seq<i64>)
    requires
        vec_wf(a),
        norm2(a) != 0,
    ensures
        spec_cosine_permille(a, a) == 1000,
{
    let na = norm2(a);
    lemma_norm2_nonneg(a);
    assert(na * na <= na * na < (na + 1) * (na + 1)) by (nonlinear_arith)
        requires
            na > 0,
    ;
    lemma_sqrt_exists(na * na);
    lemma_sqrt_unique(na * na, sqrt_floor(na * na), na);
    lemma_div_by_multiple(1000, na);
}

/// Cosine similarity is defined as zero on a dimension mismatch or a zero
/// vector, rather than failing.
pub proof fn law_cosine_degenerate(a: Seq<i64>, b: Seq<i64>)
    requires
        a.len() != b.len() || norm2(a) == 0 || norm2(b) == 0,
    ensures
        spec_cosine_permille(a, b) == 0,
{
}

/// Computes cosine similarity in thousandths, exactly as specified by
/// [`spec_cosine_permille`].
pub fn cosine_permille(a: &Embedding, b: &Embedding) -> (r: i64)
    requires
        a.wf(),
        b.wf(),
    ensures
        r == spec_cosine_permille(a@, b@),
        -1000 <= r <= 1000,
{
    proof {
        law_cosine_bounds(a@, b@);
    }
    if a.comps.len() != b.comps.len() {
        return 0;
    }
    let na = norm_squared(a);
    let nb = norm_squared(b);
    if na == 0 || nb == 0 {
        return 0;
    }
    let d = dot_product(a, b);
    proof {
        lemma_dot_bound(a@, b@);
        lemma_dot_bound(a@, a@);
        lemma_dot_bound(b@, b@);
        assert(a@.len() as int * (COMPONENT_LIMIT as int * COMPONENT_LIMIT as int)
            <= 0x400_0000_0000int) by (nonlinear_arith)
            requires
                a@.len() <= 4096,
        ;
        assert(b@.len() as int * (COMPONENT_LIMIT as int * COMPONENT_LIMIT as int)
            <= 0x400_0000_0000int) by (nonlinear_arith)
            requires
                b@.len() <= 4096,
        ;
        assert(na as int * (nb as int) <= u128::MAX as int) by (nonlinear_arith)
            requires
                0 < na <= 0x400_0000_0000i128,
                0 < nb <= 0x400_0000_0000i128,
        ;
        lemma_cauchy_schwarz(a@, b@);
    }
    let x: u128 = (na as u128) * (nb as u128);
    let s = isqrt(x);
    proof {
        assert(x >= 1) by (nonlinear_arith)
            requires
                x as int == na as int * (nb as int),
                na >= 1,
                nb >= 1,
        ;
        assert(s >= 1) by (nonlinear_arith)
            requires
                (s as int) * (s as int) <= x as int,
                (x as int) < ((s as int) + 1) * ((s as int) + 1),
                x >= 1,
        ;
        lemma_sqrt_exists(x as int);
        lemma_sqrt_unique(x as int, sqrt_floor(x as int), s as int);
    }
    let m: u128 = if d >= 0 {
        d as u128
    } else {
        (-d) as u128
    };
    proof {
        assert(m as int * (m as int) <= x as int) by (nonlinear_arith)
            requires
                (d as int) * (d as int) <= x as int,
                m as int == if d as int >= 0 {
                    d as int
                } else {
                    -(d as int)
                },
        ;
        assert(m <= s) by (nonlinear_arith)
            requires
                0 <= m as int,
                0 <= s as int,
                (m as int) * (m as int) <= x as int,
                (x as int) < ((s as int) + 1) * ((s as int) + 1),
        ;
        lemma_div_is_ordered(1000 * (m as int), 1000 * (s as int), s as int);
        lemma_div_by_multiple(1000, s as int);
        lemma_div_pos_is_pos(1000 * (m as int), s as int);
    }
    let q: u128 = (1000 * m) / s;
    if d >= 0 {
        q as i64
    } else {
        -(q as i64)
    }
}

} // verus!
