//! The chunker: splits extracted document text into an ordered sequence of
//! size-bounded segments.
//!
//! The policy is fixed-size character windows: the text is cut into
//! contiguous runs of at most `max_chars` characters (a boundary may fall
//! inside a word), and runs made entirely of blank characters are dropped.
//! The result is fully determined by the input text and the bound, which the
//! functional contract of [`chunk_text`] states exactly.

use vstd::prelude::*;

use crate::text::{all_space, all_space_chars, chars_to_string, is_space_char, string_to_chars,
    subvec_chars, visible_chars};

verus! {

/// The chunks of `t` under bound `m`: successive windows of `m` characters
/// (the last one shorter), with all-blank windows dropped.
pub open spec fn spec_chunk_text(t: Seq<char>, m: nat) -> Seq<Seq<char>>
    decreases t.len(),
    when m > 0
{
    if t.len() == 0 {
        Seq::empty()
    } else {
        let k = if t.len() <= m { t.len() as int } else { m as int };
        let piece = t.take(k);
        let rest = spec_chunk_text(t.skip(k), m);
        if all_space(piece) {
            rest
        } else {
            seq![piece] + rest
        }
    }
}

/// The concatenation of a sequence of character sequences, in order.
pub open spec fn concat_all(ss: Seq<Seq<char>>) -> Seq<char>
    decreases ss.len(),
{
    if ss.len() == 0 {
        Seq::empty()
    } else {
        ss[0] + concat_all(ss.drop_first())
    }
}

/// An ordered segment of a document's text: its position among the kept
/// chunks and its characters.
pub struct DocumentChunk {
    pub index: usize,
    pub text: String,
}

/// Splits `text` into chunks of at most `max_chars` characters, dropping
/// chunks that consist only of blank characters.  Pure and deterministic:
/// the result is exactly [`spec_chunk_text`] of the input.
pub fn chunk_text(text: &str, max_chars: usize) -> (r: Vec<String>)
    requires
        max_chars >= 1,
    ensures
        r.deep_view() == spec_chunk_text(text@, max_chars as nat),
{
    let cs = string_to_chars(text);
    let ghost t = cs@;
    let mut out: Vec<String> = Vec::new();
    let mut i: usize = 0;
    proof {
        assert(t.skip(0) =~= t);
        assert(out.deep_view() =~= Seq::<Seq<char>>::empty());
        assert(Seq::<Seq<char>>::empty() + spec_chunk_text(t, max_chars as nat)
            =~= spec_chunk_text(t, max_chars as nat));
    }
    while i < cs.len()
        invariant
            max_chars >= 1,
            0 <= i <= t.len(),
            cs@ == t,
            t == text@,
            spec_chunk_text(t, max_chars as nat) == out.deep_view() + spec_chunk_text(
                t.skip(i as int),
                max_chars as nat,
            ),
        decreases t.len() - i,
    {
        let end = if cs.len() - i <= max_chars {
            cs.len()
        } else {
            i + max_chars
        };
        let ghost rem = t.skip(i as int);
        let ghost k = end - i;
        proof {
            assert(rem.len() == t.len() - i);
            assert(rem.take(k) =~= t.subrange(i as int, end as int));
            assert(rem.skip(k) =~= t.skip(end as int));
        }
        let keep = !all_space_chars(&cs, i, end);
        if keep {
            let piece = subvec_chars(&cs, i, end);
            let s = chars_to_string(&piece);
            let ghost old_view = out.deep_view();
            out.push(s);
            proof {
                assert(out.deep_view() =~= old_view.push(rem.take(k)));
                assert(old_view.push(rem.take(k)) + spec_chunk_text(rem.skip(k), max_chars as nat)
                    =~= old_view + (seq![rem.take(k)] + spec_chunk_text(
                    rem.skip(k),
                    max_chars as nat,
                )));
            }
        }
        i = end;
    }
    proof {
        assert(t.skip(i as int) =~= Seq::<char>::empty());
        assert(out.deep_view() + Seq::<Seq<char>>::empty() =~= out.deep_view());
    }
    out
}

/// Pairs each kept chunk with its 0-based index, the canonical order of the
/// document's chunks.
pub fn chunk_document(text: &str, max_chars: usize) -> (r: Vec<DocumentChunk>)
    requires
        max_chars >= 1,
    ensures
        r@.len() == spec_chunk_text(text@, max_chars as nat).len(),
        forall|j: int|
            0 <= j < r@.len() ==> (#[trigger] r@[j]).index == j && r@[j].text@ == spec_chunk_text(
                text@,
                max_chars as nat,
            )[j],
{
    let texts = chunk_text(text, max_chars);
    let mut out: Vec<DocumentChunk> = Vec::new();
    let mut i: usize = 0;
    while i < texts.len()
        invariant
            0 <= i <= texts@.len(),
            out@.len() == i,
            texts.deep_view() == spec_chunk_text(text@, max_chars as nat),
            forall|j: int|
                0 <= j < i ==> (#[trigger] out@[j]).index == j && out@[j].text@
                    == texts.deep_view()[j],
        decreases texts@.len() - i,
    {
        let s = texts[i].clone();
        assert(s@ == texts.deep_view()[i as int]);
        out.push(DocumentChunk { index: i, text: s });
        i = i + 1;
    }
    out
}

/// A sequence of blank characters has no visible characters.
proof fn lemma_all_space_visible_empty(s: Seq<char>)
    requires
        all_space(s),
    ensures
        visible_chars(s) == Seq::<char>::empty(),
    decreases s.len(),
{
    reveal(Seq::filter);
    if s.len() > 0 {
        lemma_all_space_visible_empty(s.drop_last());
    }
}

/// Joining the chunks of a text in index order reproduces the text's
/// non-blank content: chunking loses nothing but blank runs.
pub proof fn law_chunk_reconstruction(t: Seq<char>, m: nat)
    requires
        m >= 1,
    ensures
        visible_chars(concat_all(spec_chunk_text(t, m))) == visible_chars(t),
    decreases t.len(),
{
    broadcast use vstd::seq_lib::group_filter_ensures;

    if t.len() == 0 {
        reveal(Seq::filter);
        assert(concat_all(spec_chunk_text(t, m)) =~= Seq::<char>::empty());
        assert(visible_chars(t) =~= Seq::<char>::empty());
    } else {
        let k = if t.len() <= m { t.len() as int } else { m as int };
        let piece = t.take(k);
        let rest = t.skip(k);
        law_chunk_reconstruction(rest, m);
        assert(t =~= piece + rest);
        Seq::filter_distributes_over_add(piece, rest, |c: char| !is_space_char(c));
        if all_space(piece) {
            lemma_all_space_visible_empty(piece);
            assert(visible_chars(piece) + visible_chars(rest) =~= visible_chars(rest));
        } else {
            let cons = seq![piece] + spec_chunk_text(rest, m);
            assert(cons[0] == piece);
            assert(cons.drop_first() =~= spec_chunk_text(rest, m));
            assert(concat_all(cons) == piece + concat_all(spec_chunk_text(rest, m)));
            Seq::filter_distributes_over_add(
                piece,
                concat_all(spec_chunk_text(rest, m)),
                |c: char| !is_space_char(c),
            );
        }
    }
}

/// The chunker is pure: its contract pins the output to a function of the
/// text and the bound alone, so any two results of [`chunk_text`] on equal
/// inputs are equal.
pub proof fn law_chunker_deterministic(
    t: Seq<char>,
    m: nat,
    r1: Seq<Seq<char>>,
    r2: Seq<Seq<char>>,
)
    requires
        r1 == spec_chunk_text(t, m),
        r2 == spec_chunk_text(t, m),
    ensures
        r1 == r2,
{
}

/// Every kept chunk is non-blank, non-empty, and at most `m` characters.
pub proof fn law_chunk_sizes(t: Seq<char>, m: nat)
    requires
        m >= 1,
    ensures
        forall|j: int|
            0 <= j < spec_chunk_text(t, m).len() ==> {
                let c = #[trigger] spec_chunk_text(t, m)[j];
                1 <= c.len() <= m && !all_space(c)
            },
    decreases t.len(),
{
    if t.len() > 0 {
        let k = if t.len() <= m { t.len() as int } else { m as int };
        let piece = t.take(k);
        let rest = spec_chunk_text(t.skip(k), m);
        law_chunk_sizes(t.skip(k), m);
        if !all_space(piece) {
            let cons = seq![piece] + rest;
            assert(cons[0] == piece);
            assert forall|j: int| 1 <= j < cons.len() implies #[trigger] cons[j] == rest[j - 1] by {}
        }
    }
}

} // verus!
