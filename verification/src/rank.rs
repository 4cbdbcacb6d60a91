//! The similarity ranker: scores every chunk vector against the query
//! vector by cosine similarity, sorts descending with ties broken by chunk
//! index ascending, caps the list at `top_n`, and then drops entries at or
//! below the relevance threshold (cap first, then threshold: a best-effort
//! top N, kept only where good enough).
//!
//! Similarities are never rounded where an order matters.  A chunk's score
//! is kept as the exact pair `(dot, cnorm2)`; two scores, and a score
//! against the threshold, are compared by exact cross-multiplication, using
//! that `t * |t|` is strictly monotone.  The whole ranking is a function of
//! its inputs, which [`rank`]'s contract states exactly; determinism is
//! [`law_rank_deterministic`].

use vstd::prelude::*;

use crate::vector::{dot, norm2, vec_wf, Embedding, dot_product, norm_squared, lemma_dot_bound,
    lemma_norm2_nonneg, COMPONENT_LIMIT};

verus! {

/// A chunk's text paired with its embedding vector, the pipeline's output
/// and the ranker's input.
pub struct ChunkEmbedding {
    pub text: String,
    pub vector: Embedding,
}

/// The mathematical content of a [`ChunkEmbedding`].
pub ghost struct ChunkModel {
    pub text: Seq<char>,
    pub vector: Seq<i64>,
}

impl View for ChunkEmbedding {
    type V = ChunkModel;

    open spec fn view(&self) -> ChunkModel {
        ChunkModel { text: self.text@, vector: self.vector@ }
    }
}

impl DeepView for ChunkEmbedding {
    type V = ChunkModel;

    open spec fn deep_view(&self) -> ChunkModel {
        self@
    }
}

impl ChunkEmbedding {
    pub fn new(text: String, vector: Embedding) -> (r: ChunkEmbedding)
        ensures
            r@.text == text@,
            r@.vector == vector@,
    {
        ChunkEmbedding { text, vector }
    }

    pub fn clone_chunk(&self) -> (r: ChunkEmbedding)
        ensures
            r@ == self@,
    {
        ChunkEmbedding { text: self.text.clone(), vector: self.vector.clone_vector() }
    }
}

/// Every chunk vector is within the library's bounds.
pub open spec fn chunks_wf(cs: Seq<ChunkModel>) -> bool {
    forall|i: int| 0 <= i < cs.len() ==> vec_wf((#[trigger] cs[i]).vector)
}

/// The relevance threshold, an exact rational `num / den`.
#[derive(Clone, Copy)]
pub struct Threshold {
    pub num: i64,
    pub den: i64,
}

impl Threshold {
    /// A threshold denominator is positive and small enough that every
    /// cross-multiplication in the ranker fits in `i128`; the value lies in
    /// `[-1, 1]` like a cosine.
    pub open spec fn wf(&self) -> bool {
        0 < self.den <= 1000000 && -self.den <= self.num <= self.den
    }

    /// Accepts a threshold if and only if it is within bounds.
    pub fn new(num: i64, den: i64) -> (r: Option<Threshold>)
        ensures
            r is Some <==> (0 < den <= 1000000 && -den <= num <= den),
            r matches Some(t) ==> t.num == num && t.den == den && t.wf(),
    {
        if 0 < den && den <= 1000000 && -den <= num && num <= den {
            Some(Threshold { num, den })
        } else {
            None
        }
    }
}

/// A scored chunk: the exact similarity evidence `(dot, cnorm2)` together
/// with the chunk's text and original index.
pub struct ScoredChunk {
    pub text: String,
    pub index: usize,
    pub dot: i128,
    pub cnorm2: i128,
}

/// The mathematical content of a [`ScoredChunk`].
pub ghost struct ScoredModel {
    pub text: Seq<char>,
    pub index: int,
    pub dot: int,
    pub cnorm2: int,
}

impl View for ScoredChunk {
    type V = ScoredModel;

    open spec fn view(&self) -> ScoredModel {
        ScoredModel {
            text: self.text@,
            index: self.index as int,
            dot: self.dot as int,
            cnorm2: self.cnorm2 as int,
        }
    }
}

impl DeepView for ScoredChunk {
    type V = ScoredModel;

    open spec fn deep_view(&self) -> ScoredModel {
        self@
    }
}

/// Bound on `|dot|` and `norm2` of well-formed vectors:
/// `DIMENSION_LIMIT * COMPONENT_LIMIT^2`.
pub const SCORE_MAGNITUDE_LIMIT: i128 = 0x400_0000_0000;

/// The score fields a well-formed ranking works with: a bounded dot product
/// and a positive bounded squared magnitude.
pub open spec fn scored_wf(s: ScoredModel) -> bool {
    &&& -SCORE_MAGNITUDE_LIMIT <= s.dot <= SCORE_MAGNITUDE_LIMIT
    &&& 1 <= s.cnorm2 <= SCORE_MAGNITUDE_LIMIT
}

pub open spec fn all_scored_wf(s: Seq<ScoredModel>) -> bool {
    forall|i: int| 0 <= i < s.len() ==> scored_wf(#[trigger] s[i])
}

/// The score of chunk `c` (at index `i`) against query `q`: its exact dot
/// product and squared magnitude, or the zero score `(0, 1)` when the
/// dimensions differ or either vector has zero magnitude (similarity zero,
/// not an error).
pub open spec fn score_of(q: Seq<i64>, c: ChunkModel, i: int) -> ScoredModel {
    if q.len() != c.vector.len() || norm2(q) == 0 || norm2(c.vector) == 0 {
        ScoredModel { text: c.text, index: i, dot: 0, cnorm2: 1 }
    } else {
        ScoredModel { text: c.text, index: i, dot: dot(q, c.vector), cnorm2: norm2(c.vector) }
    }
}

pub open spec fn score_all(q: Seq<i64>, cs: Seq<ChunkModel>) -> Seq<ScoredModel> {
    Seq::new(cs.len(), |i: int| score_of(q, cs[i], i))
}

/// `x * |x|`: strictly monotone, with the sign of `x`.
pub open spec fn sgn_sq(x: int) -> int {
    if x >= 0 {
        x * x
    } else {
        -(x * x)
    }
}

/// `a` ranks strictly before `b`: strictly greater similarity, or equal
/// similarity and smaller original index.  Similarities `dot_a/sqrt(q*ca)`
/// and `dot_b/sqrt(q*cb)` are compared exactly by cross-multiplication:
/// the common positive query factor cancels, and squaring through `sgn_sq`
/// preserves the order.
pub open spec fn ranks_before(a: ScoredModel, b: ScoredModel) -> bool {
    let va = sgn_sq(a.dot) * b.cnorm2;
    let vb = sgn_sq(b.dot) * a.cnorm2;
    va > vb || (va == vb && a.index < b.index)
}

/// `a` ranks at or before `b`.
pub open spec fn ranks_le(a: ScoredModel, b: ScoredModel) -> bool {
    !ranks_before(b, a)
}

/// Inserts `x` into a ranked sequence, after every entry it does not
/// strictly outrank.
pub open spec fn insert_ordered(s: Seq<ScoredModel>, x: ScoredModel) -> Seq<ScoredModel>
    decreases s.len(),
{
    if s.len() == 0 {
        seq![x]
    } else if ranks_before(x, s.last()) {
        insert_ordered(s.drop_last(), x).push(s.last())
    } else {
        s.push(x)
    }
}

/// Sorts scored chunks by [`ranks_before`]: descending similarity, ties by
/// original index ascending.  Defined as a function, so the order is unique.
pub open spec fn sort_scored(s: Seq<ScoredModel>) -> Seq<ScoredModel>
    decreases s.len(),
{
    if s.len() == 0 {
        Seq::empty()
    } else {
        insert_ordered(sort_scored(s.drop_last()), s.last())
    }
}

/// The exact threshold test: similarity strictly greater than `num / den`.
/// A zero dot product means similarity zero, which passes exactly the
/// negative thresholds; otherwise `dot * den > num * sqrt(qnorm2 * cnorm2)`
/// is decided by signed squaring.
pub open spec fn spec_above_threshold(s: ScoredModel, qnorm2: int, t: Threshold) -> bool {
    if s.dot == 0 {
        t.num < 0
    } else {
        sgn_sq(s.dot * t.den) > sgn_sq(t.num as int) * (qnorm2 * s.cnorm2)
    }
}

/// The whole ranking policy: score, sort, cap at `top_n`, keep what is
/// above the threshold, and hand back the chunk texts in that order.
pub open spec fn spec_rank(q: Seq<i64>, cs: Seq<ChunkModel>, top_n: int, t: Threshold) -> Seq<
    Seq<char>,
> {
    let sorted = sort_scored(score_all(q, cs));
    let capped = if sorted.len() <= top_n {
        sorted
    } else {
        sorted.take(top_n)
    };
    let kept = capped.filter(|s: ScoredModel| spec_above_threshold(s, norm2(q), t));
    kept.map_values(|s: ScoredModel| s.text)
}

/// Decides [`ranks_before`] executably, by exact `i128` arithmetic.
pub fn ranks_before_exec(a: &ScoredChunk, b: &ScoredChunk) -> (r: bool)
    requires
        scored_wf(a@),
        scored_wf(b@),
    ensures
        r == ranks_before(a@, b@),
{
    let sa = signed_square(a.dot);
    let sb = signed_square(b.dot);
    proof {
        lemma_mul_i128_bounds(sa as int, b.cnorm2 as int, 0x10_0000_0000_0000_0000_0000int,
            0x400_0000_0000int);
        lemma_mul_i128_bounds(sb as int, a.cnorm2 as int, 0x10_0000_0000_0000_0000_0000int,
            0x400_0000_0000int);
    }
    let va = sa * b.cnorm2;
    let vb = sb * a.cnorm2;
    va > vb || (va == vb && a.index < b.index)
}

/// `x * |x|` on bounded `i128` values.
fn signed_square(x: i128) -> (r: i128)
    requires
        -0x400_0000_0000 <= x <= 0x400_0000_0000,
    ensures
        r == sgn_sq(x as int),
        -0x10_0000_0000_0000_0000_0000 <= r <= 0x10_0000_0000_0000_0000_0000,
{
    proof {
        lemma_mul_i128_bounds(x as int, x as int, 0x400_0000_0000int, 0x400_0000_0000int);
    }
    if x >= 0 {
        x * x
    } else {
        -(x * x)
    }
}

/// `|x * y| <= bx * by` for bounded factors, stated on the literals the
/// ranker needs.
proof fn lemma_mul_i128_bounds(x: int, y: int, bx: int, by: int)
    requires
        -bx <= x <= bx,
        -by <= y <= by,
        0 <= bx,
        0 <= by,
    ensures
        -(bx * by) <= x * y <= bx * by,
{
    assert(-(bx * by) <= x * y <= bx * by) by (nonlinear_arith)
        requires
            -bx <= x <= bx,
            -by <= y <= by,
            0 <= bx,
            0 <= by,
    ;
}

/// Decides [`spec_above_threshold`] executably.
pub fn above_threshold(s: &ScoredChunk, qnorm2: i128, t: &Threshold) -> (r: bool)
    requires
        scored_wf(s@),
        0 <= qnorm2 <= SCORE_MAGNITUDE_LIMIT,
        t.wf(),
    ensures
        r == spec_above_threshold(s@, qnorm2 as int, *t),
{
    if s.dot == 0 {
        return t.num < 0;
    }
    proof {
        lemma_mul_i128_bounds(s.dot as int, t.den as int, 0x400_0000_0000int, 1000000int);
    }
    let lhs = signed_square_wide(s.dot * (t.den as i128));
    let nsq = signed_square_small(t.num);
    proof {
        lemma_mul_i128_bounds(qnorm2 as int, s.cnorm2 as int, 0x400_0000_0000int,
            0x400_0000_0000int);
        lemma_mul_i128_bounds(nsq as int, qnorm2 as int * (s.cnorm2 as int), 0x100_0000_0000int,
            0x10_0000_0000_0000_0000_0000int);
    }
    let rhs = nsq * (qnorm2 * s.cnorm2);
    lhs > rhs
}

/// `x * |x|` for `|x| <= 2^62`.
fn signed_square_wide(x: i128) -> (r: i128)
    requires
        -0x4000_0000_0000_0000 <= x <= 0x4000_0000_0000_0000,
    ensures
        r == sgn_sq(x as int),
{
    proof {
        lemma_mul_i128_bounds(x as int, x as int, 0x4000_0000_0000_0000int,
            0x4000_0000_0000_0000int);
    }
    if x >= 0 {
        x * x
    } else {
        -(x * x)
    }
}

/// `x * |x|` for an `i64` threshold numerator.
fn signed_square_small(x: i64) -> (r: i128)
    requires
        -1000000 <= x <= 1000000,
    ensures
        r == sgn_sq(x as int),
        -0x100_0000_0000 <= r <= 0x100_0000_0000,
{
    proof {
        lemma_mul_i128_bounds(x as int, x as int, 1000000int, 1000000int);
    }
    let w = x as i128;
    if w >= 0 {
        w * w
    } else {
        -(w * w)
    }
}

/// Scores every chunk against the query, preserving chunk order, exactly as
/// [`score_all`] describes.
pub fn score_chunks(query: &Embedding, chunks: &Vec<ChunkEmbedding>) -> (r: Vec<ScoredChunk>)
    requires
        query.wf(),
        chunks_wf(chunks.deep_view()),
    ensures
        r.deep_view() == score_all(query@, chunks.deep_view()),
        all_scored_wf(r.deep_view()),
{
    let qn2 = norm_squared(query);
    let mut out: Vec<ScoredChunk> = Vec::new();
    let mut i: usize = 0;
    while i < chunks.len()
        invariant
            query.wf(),
            chunks_wf(chunks.deep_view()),
            0 <= i <= chunks@.len(),
            qn2 == norm2(query@),
            out.deep_view().len() == i as int,
            forall|k: int|
                0 <= k < i ==> out.deep_view()[k] == score_of(
                    query@,
                    chunks.deep_view()[k],
                    k,
                ),
            forall|k: int| 0 <= k < i ==> scored_wf(#[trigger] out.deep_view()[k]),
        decreases chunks@.len() - i,
    {
        let c = &chunks[i];
        proof {
            assert(chunks.deep_view()[i as int] == chunks@[i as int]@);
            assert(vec_wf(chunks.deep_view()[i as int].vector));
        }
        let cn2 = norm_squared(&c.vector);
        let sc: ScoredChunk = if query.dimension() != c.vector.dimension() || qn2 == 0 || cn2
            == 0 {
            ScoredChunk { text: c.text.clone(), index: i, dot: 0, cnorm2: 1 }
        } else {
            proof {
                lemma_dot_bound(query@, c.vector@);
                lemma_dot_bound(c.vector@, c.vector@);
                assert(query@.len() as int * (COMPONENT_LIMIT as int * COMPONENT_LIMIT as int)
                    <= 0x400_0000_0000int) by (nonlinear_arith)
                    requires
                        query@.len() <= 4096,
                ;
                assert(c.vector@.len() as int * (COMPONENT_LIMIT as int * COMPONENT_LIMIT as int)
                    <= 0x400_0000_0000int) by (nonlinear_arith)
                    requires
                        c.vector@.len() <= 4096,
                ;
            }
            let d = dot_product(query, &c.vector);
            ScoredChunk { text: c.text.clone(), index: i, dot: d, cnorm2: cn2 }
        };
        proof {
            assert(sc@ == score_of(query@, chunks.deep_view()[i as int], i as int));
            assert(scored_wf(sc@));
        }
        let ghost pre = out.deep_view();
        out.push(sc);
        proof {
            assert(out.deep_view() =~= pre.push(sc@));
        }
        i = i + 1;
    }
    proof {
        assert(out.deep_view() =~= score_all(query@, chunks.deep_view()));
    }
    out
}

/// Where `x` lands when inserted: after the prefix it does not outrank,
/// before the suffix it outranks.
proof fn lemma_insert_position(s: Seq<ScoredModel>, x: ScoredModel, j: int)
    requires
        0 <= j <= s.len(),
        forall|k: int| j <= k < s.len() ==> ranks_before(x, #[trigger] s[k]),
        j > 0 ==> !ranks_before(x, s[j - 1]),
    ensures
        insert_ordered(s, x) == s.take(j) + seq![x] + s.skip(j),
    decreases s.len() - j,
{
    if j == s.len() {
        if s.len() == 0 {
            assert(insert_ordered(s, x) =~= s.take(j) + seq![x] + s.skip(j));
        } else {
            assert(!ranks_before(x, s.last()));
            assert(s.push(x) =~= s.take(j) + seq![x] + s.skip(j));
        }
    } else {
        assert(ranks_before(x, s.last()));
        let d = s.drop_last();
        assert(forall|k: int| j <= k < d.len() ==> ranks_before(x, #[trigger] d[k]));
        if j > 0 {
            assert(d[j - 1] == s[j - 1]);
        }
        lemma_insert_position(d, x, j);
        assert((d.take(j) + seq![x] + d.skip(j)).push(s.last()) =~= s.take(j) + seq![x] + s.skip(
            j,
        ));
    }
}

/// Inserts a scored chunk into a ranked vector at its unique position.
fn insert_ranked(out: &mut Vec<ScoredChunk>, x: ScoredChunk)
    requires
        all_scored_wf(old(out).deep_view()),
        scored_wf(x@),
    ensures
        final(out).deep_view() == insert_ordered(old(out).deep_view(), x@),
        all_scored_wf(final(out).deep_view()),
{
    let ghost s = out.deep_view();
    let mut j: usize = out.len();
    while j > 0 && ranks_before_exec(&x, &out[j - 1])
        invariant
            0 <= j <= out@.len(),
            out.deep_view() == s,
            s.len() == out@.len(),
            all_scored_wf(s),
            scored_wf(x@),
            forall|k: int| 0 <= k < out@.len() ==> (#[trigger] out@[k])@ == s[k],
            forall|k: int| j <= k < s.len() ==> ranks_before(x@, #[trigger] s[k]),
        decreases j,
    {
        j = j - 1;
    }
    proof {
        lemma_insert_position(s, x@, j as int);
    }
    out.insert(j, x);
    proof {
        assert(out.deep_view() =~= s.take(j as int) + seq![x@] + s.skip(j as int));
        assert forall|k: int| 0 <= k < out.deep_view().len() implies scored_wf(
            #[trigger] out.deep_view()[k],
        ) by {
            let v = out.deep_view();
            if k < j {
                assert(v[k] == s[k]);
            } else if k == j {
                assert(v[k] == x@);
            } else {
                assert(v[k] == s[k - 1]);
            }
        }
    }
}

/// Sorts scored chunks by [`ranks_before`], exactly as [`sort_scored`]
/// describes.
pub fn sort_chunks(v: Vec<ScoredChunk>) -> (r: Vec<ScoredChunk>)
    requires
        all_scored_wf(v.deep_view()),
    ensures
        r.deep_view() == sort_scored(v.deep_view()),
        all_scored_wf(r.deep_view()),
{
    let ghost s = v.deep_view();
    let mut rest = v;
    let mut out: Vec<ScoredChunk> = Vec::new();
    proof {
        assert(s.take(0) =~= Seq::<ScoredModel>::empty());
        assert(out.deep_view() =~= Seq::<ScoredModel>::empty());
    }
    let mut i: usize = 0;
    while i < rest.len()
        invariant
            0 <= i <= rest@.len(),
            rest.deep_view() == s,
            all_scored_wf(s),
            out.deep_view() == sort_scored(s.take(i as int)),
            all_scored_wf(out.deep_view()),
        decreases rest@.len() - i,
    {
        let x = clone_scored(&rest[i]);
        proof {
            assert(x@ == s[i as int]);
            assert(s.take(i + 1 as int).drop_last() =~= s.take(i as int));
            assert(s.take(i + 1 as int).last() == s[i as int]);
        }
        insert_ranked(&mut out, x);
        i = i + 1;
    }
    proof {
        assert(s.take(s.len() as int) =~= s);
    }
    out
}

fn clone_scored(x: &ScoredChunk) -> (r: ScoredChunk)
    ensures
        r@ == x@,
{
    ScoredChunk { text: x.text.clone(), index: x.index, dot: x.dot, cnorm2: x.cnorm2 }
}

/// Ranks chunks against the query: the returned texts are exactly
/// [`spec_rank`] of the inputs -- scored, sorted descending with index
/// tie-break, capped at `top_n`, and filtered by the threshold.
pub fn rank(query: &Embedding, chunks: &Vec<ChunkEmbedding>, top_n: usize, threshold: &Threshold)
    -> (r: Vec<String>)
    requires
        query.wf(),
        chunks_wf(chunks.deep_view()),
        threshold.wf(),
    ensures
        r.deep_view() == spec_rank(query@, chunks.deep_view(), top_n as int, *threshold),
{
    let scored = score_chunks(query, chunks);
    let sorted = sort_chunks(scored);
    let qn2 = norm_squared(query);
    proof {
        lemma_dot_bound(query@, query@);
        assert(query@.len() as int * (COMPONENT_LIMIT as int * COMPONENT_LIMIT as int)
            <= 0x400_0000_0000int) by (nonlinear_arith)
            requires
                query@.len() <= 4096,
        ;
    }
    let ghost sorted_model = sorted.deep_view();
    let ghost pred = |s: ScoredModel| spec_above_threshold(s, norm2(query@), *threshold);
    let cap = if sorted.len() <= top_n {
        sorted.len()
    } else {
        top_n
    };
    let ghost capped = if sorted_model.len() <= top_n as int {
        sorted_model
    } else {
        sorted_model.take(top_n as int)
    };
    proof {
        assert(capped =~= sorted_model.take(cap as int));
        assert(sorted_model.take(0).filter(pred) =~= Seq::<ScoredModel>::empty()) by {
            reveal(Seq::filter);
        }
    }
    let mut out: Vec<String> = Vec::new();
    let mut i: usize = 0;
    while i < cap
        invariant
            0 <= i <= cap <= sorted@.len(),
            sorted.deep_view() == sorted_model,
            all_scored_wf(sorted_model),
            0 <= qn2 <= SCORE_MAGNITUDE_LIMIT,
            qn2 == norm2(query@),
            threshold.wf(),
            pred == (|s: ScoredModel| spec_above_threshold(s, norm2(query@), *threshold)),
            out.deep_view() == sorted_model.take(i as int).filter(pred).map_values(
                |s: ScoredModel| s.text,
            ),
        decreases cap - i,
    {
        let ghost prefix = sorted_model.take(i as int);
        proof {
            assert(sorted@[i as int]@ == sorted_model[i as int]);
            assert(scored_wf(sorted_model[i as int]));
            assert(sorted_model.take(i + 1 as int).drop_last() =~= prefix);
            assert(sorted_model.take(i + 1 as int).last() == sorted_model[i as int]);
            reveal(Seq::filter);
        }
        let keep = above_threshold(&sorted[i], qn2, threshold);
        if keep {
            out.push(sorted[i].text.clone());
            proof {
                assert(sorted_model.take(i + 1 as int).filter(pred) =~= prefix.filter(pred).push(
                    sorted_model[i as int],
                ));
                assert(out.deep_view() =~= prefix.filter(pred).map_values(
                    |s: ScoredModel| s.text,
                ).push(sorted_model[i as int].text));
                assert(prefix.filter(pred).push(sorted_model[i as int]).map_values(
                    |s: ScoredModel| s.text,
                ) =~= prefix.filter(pred).map_values(|s: ScoredModel| s.text).push(
                    sorted_model[i as int].text,
                ));
            }
        } else {
            proof {
                assert(sorted_model.take(i + 1 as int).filter(pred) =~= prefix.filter(pred));
            }
        }
        i = i + 1;
    }
    proof {
        assert(sorted_model.take(cap as int) == capped);
        assert(out.deep_view() == capped.filter(pred).map_values(|s: ScoredModel| s.text));
    }
    out
}

/// The ranker is pure: its contract pins the output, tie-break order
/// included, to a function of the query, the chunks, the cap and the
/// threshold alone, so any two results of [`rank`] on equal inputs are
/// equal.
pub proof fn law_rank_deterministic(
    q: Seq<i64>,
    cs: Seq<ChunkModel>,
    top_n: int,
    t: Threshold,
    r1: Seq<Seq<char>>,
    r2: Seq<Seq<char>>,
)
    requires
        r1 == spec_rank(q, cs, top_n, t),
        r2 == spec_rank(q, cs, top_n, t),
    ensures
        r1 == r2,
{
}

/// Transitivity of the cross-multiplied comparison, non-strict form.
proof fn lemma_cross_ge(xa: int, ca: int, xb: int, cb: int, xc: int, cc: int)
    requires
        ca > 0,
        cb > 0,
        cc > 0,
        xa * cb >= xb * ca,
        xb * cc >= xc * cb,
    ensures
        xa * cc >= xc * ca,
{
    assert((xa * cb) * cc >= (xb * ca) * cc) by (nonlinear_arith)
        requires
            xa * cb >= xb * ca,
            cc > 0,
    ;
    assert((xb * cc) * ca >= (xc * cb) * ca) by (nonlinear_arith)
        requires
            xb * cc >= xc * cb,
            ca > 0,
    ;
    assert((xa * cb) * cc == (xa * cc) * cb) by (nonlinear_arith);
    assert((xb * ca) * cc == (xb * cc) * ca) by (nonlinear_arith);
    assert((xc * cb) * ca == (xc * ca) * cb) by (nonlinear_arith);
    assert(xa * cc >= xc * ca) by (nonlinear_arith)
        requires
            (xa * cc) * cb >= (xc * ca) * cb,
            cb > 0,
    ;
}

/// Transitivity of the cross-multiplied comparison, strict when the first
/// step is strict.
proof fn lemma_cross_gt(xa: int, ca: int, xb: int, cb: int, xc: int, cc: int)
    requires
        ca > 0,
        cb > 0,
        cc > 0,
        xa * cb > xb * ca,
        xb * cc >= xc * cb,
    ensures
        xa * cc > xc * ca,
{
    assert((xa * cb) * cc > (xb * ca) * cc) by (nonlinear_arith)
        requires
            xa * cb > xb * ca,
            cc > 0,
    ;
    assert((xb * cc) * ca >= (xc * cb) * ca) by (nonlinear_arith)
        requires
            xb * cc >= xc * cb,
            ca > 0,
    ;
    assert((xa * cb) * cc == (xa * cc) * cb) by (nonlinear_arith);
    assert((xb * ca) * cc == (xb * cc) * ca) by (nonlinear_arith);
    assert((xc * cb) * ca == (xc * ca) * cb) by (nonlinear_arith);
    assert(xa * cc > xc * ca) by (nonlinear_arith)
        requires
            (xa * cc) * cb > (xc * ca) * cb,
            cb > 0,
    ;
}

/// Transitivity of the cross-multiplied comparison, strict when the second
/// step is strict.
proof fn lemma_cross_gt_right(xa: int, ca: int, xb: int, cb: int, xc: int, cc: int)
    requires
        ca > 0,
        cb > 0,
        cc > 0,
        xa * cb >= xb * ca,
        xb * cc > xc * cb,
    ensures
        xa * cc > xc * ca,
{
    assert((xa * cb) * cc >= (xb * ca) * cc) by (nonlinear_arith)
        requires
            xa * cb >= xb * ca,
            cc > 0,
    ;
    assert((xb * cc) * ca > (xc * cb) * ca) by (nonlinear_arith)
        requires
            xb * cc > xc * cb,
            ca > 0,
    ;
    assert((xa * cb) * cc == (xa * cc) * cb) by (nonlinear_arith);
    assert((xb * ca) * cc == (xb * cc) * ca) by (nonlinear_arith);
    assert((xc * cb) * ca == (xc * ca) * cb) by (nonlinear_arith);
    assert(xa * cc > xc * ca) by (nonlinear_arith)
        requires
            (xa * cc) * cb > (xc * ca) * cb,
            cb > 0,
    ;
}

/// [`ranks_le`] is transitive on well-formed scores.
pub proof fn lemma_ranks_le_trans(a: ScoredModel, b: ScoredModel, c: ScoredModel)
    requires
        scored_wf(a),
        scored_wf(b),
        scored_wf(c),
        ranks_le(a, b),
        ranks_le(b, c),
    ensures
        ranks_le(a, c),
{
    let xa = sgn_sq(a.dot);
    let xb = sgn_sq(b.dot);
    let xc = sgn_sq(c.dot);
    // ranks_le(a, b) means xa*cb >= xb*ca, with index order breaking ties.
    assert(xa * b.cnorm2 >= xb * a.cnorm2);
    assert(xb * c.cnorm2 >= xc * b.cnorm2);
    if xa * b.cnorm2 > xb * a.cnorm2 {
        lemma_cross_gt(xa, a.cnorm2, xb, b.cnorm2, xc, c.cnorm2);
    } else if xb * c.cnorm2 > xc * b.cnorm2 {
        lemma_cross_gt_right(xa, a.cnorm2, xb, b.cnorm2, xc, c.cnorm2);
    } else {
        lemma_cross_ge(xa, a.cnorm2, xb, b.cnorm2, xc, c.cnorm2);
        if xa * c.cnorm2 == xc * a.cnorm2 {
            assert(a.index <= b.index <= c.index);
        }
    }
}

/// Any two well-formed scores are comparable by [`ranks_le`].
pub proof fn lemma_ranks_le_total(a: ScoredModel, b: ScoredModel)
    ensures
        ranks_le(a, b) || ranks_le(b, a),
{
}

/// Inserting into a ranked sequence keeps it ranked and adds exactly the
/// new element.
proof fn lemma_insert_ordered_ensures(s: Seq<ScoredModel>, x: ScoredModel)
    requires
        all_scored_wf(s),
        scored_wf(x),
        vstd::relations::sorted_by(s, |a: ScoredModel, b: ScoredModel| ranks_le(a, b)),
    ensures
        all_scored_wf(insert_ordered(s, x)),
        vstd::relations::sorted_by(
            insert_ordered(s, x),
            |a: ScoredModel, b: ScoredModel| ranks_le(a, b),
        ),
        insert_ordered(s, x).to_multiset() == s.to_multiset().insert(x),
        insert_ordered(s, x).len() == s.len() + 1,
    decreases s.len(),
{
    broadcast use vstd::seq_lib::group_to_multiset_ensures;

    let rl = |a: ScoredModel, b: ScoredModel| ranks_le(a, b);
    if s.len() == 0 {
        assert(seq![x].drop_last() =~= Seq::<ScoredModel>::empty());
        assert(seq![x] =~= Seq::<ScoredModel>::empty().push(x));
        assert(seq![x].to_multiset() =~= s.to_multiset().insert(x));
    } else if ranks_before(x, s.last()) {
        let d = s.drop_last();
        let last = s.last();
        assert(vstd::relations::sorted_by(d, rl)) by {
            assert(forall|i: int| 0 <= i < d.len() ==> d[i] == s[i]);
        }
        assert(all_scored_wf(d)) by {
            assert(forall|i: int| 0 <= i < d.len() ==> d[i] == s[i]);
        }
        lemma_insert_ordered_ensures(d, x);
        let inner = insert_ordered(d, x);
        let r = inner.push(last);
        // every element of inner ranks at or before last:
        assert forall|i: int| 0 <= i < inner.len() implies rl(inner[i], last) by {
            assert(inner.to_multiset().contains(inner[i]));
            if inner[i] == x {
                assert(ranks_le(x, last));
            } else {
                assert(d.to_multiset().contains(inner[i]));
                let j = choose|j: int| 0 <= j < d.len() && d[j] == inner[i];
                assert(rl(s[j], s.last()));
            }
        }
        assert(vstd::relations::sorted_by(r, rl)) by {
            assert forall|i: int, j: int| 0 <= i < j < r.len() implies rl(r[i], r[j]) by {
                if j < inner.len() {
                    assert(rl(inner[i], inner[j]));
                } else {
                    assert(r[j] == last);
                    assert(rl(inner[i], last));
                }
            }
        }
        assert(all_scored_wf(r)) by {
            assert forall|i: int| 0 <= i < r.len() implies scored_wf(#[trigger] r[i]) by {
                if i < inner.len() {
                    assert(scored_wf(inner[i]));
                } else {
                    assert(r[i] == last);
                    assert(scored_wf(s[s.len() - 1]));
                }
            }
        }
        assert(s =~= d.push(last));
        assert(s.to_multiset() =~= d.to_multiset().insert(last));
        assert(r.to_multiset() =~= inner.to_multiset().insert(last));
        assert(r.to_multiset() =~= s.to_multiset().insert(x)) by {
            assert(inner.to_multiset() == d.to_multiset().insert(x));
        }
    } else {
        let r = s.push(x);
        assert(ranks_le(s.last(), x));
        assert(vstd::relations::sorted_by(r, rl)) by {
            assert forall|i: int, j: int| 0 <= i < j < r.len() implies rl(r[i], r[j]) by {
                if j < s.len() {
                    assert(rl(s[i], s[j]));
                } else {
                    assert(r[j] == x);
                    assert(rl(s[i], s.last()) || i == s.len() - 1);
                    assert(scored_wf(s[i]) && scored_wf(s.last()) && scored_wf(x));
                    lemma_ranks_le_trans(s[i], s.last(), x);
                }
            }
        }
        assert(all_scored_wf(r)) by {
            assert forall|i: int| 0 <= i < r.len() implies scored_wf(#[trigger] r[i]) by {
                if i < s.len() {
                    assert(scored_wf(s[i]));
                } else {
                    assert(r[i] == x);
                }
            }
        }
        assert(r.to_multiset() =~= s.to_multiset().insert(x));
    }
}

/// The ranking order really is a sort: the sorted sequence is ordered by
/// [`ranks_le`] (descending similarity, ties by original index ascending)
/// and holds exactly the scored chunks that went in.
pub proof fn law_rank_sorted_permutation(s: Seq<ScoredModel>)
    requires
        all_scored_wf(s),
    ensures
        vstd::relations::sorted_by(sort_scored(s), |a: ScoredModel, b: ScoredModel| ranks_le(a, b)),
        sort_scored(s).to_multiset() == s.to_multiset(),
        sort_scored(s).len() == s.len(),
        all_scored_wf(sort_scored(s)),
    decreases s.len(),
{
    broadcast use vstd::seq_lib::group_to_multiset_ensures;

    if s.len() == 0 {
    } else {
        let d = s.drop_last();
        assert(all_scored_wf(d)) by {
            assert(forall|i: int| 0 <= i < d.len() ==> d[i] == s[i]);
        }
        law_rank_sorted_permutation(d);
        lemma_insert_ordered_ensures(sort_scored(d), s.last());
        assert(scored_wf(s[s.len() - 1]));
        assert(s =~= d.push(s.last()));
        assert(s.to_multiset() =~= d.to_multiset().insert(s.last()));
    }
}

} // verus!
