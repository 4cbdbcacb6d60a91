//! The context assembler: joins the selected chunks into one context blob,
//! or emits a fixed sentinel when nothing relevant was found.
//!
//! Chunks are joined with an explicit separator (a blank line, a
//! horizontal rule, a blank line), so a downstream consumer can re-split
//! the context; a trailing blank line closes the blob.  With no selected
//! chunks the output is the sentinel string -- never the empty string --
//! which the downstream generation step must read as "answer out of
//! scope".

use vstd::prelude::*;

verus! {

/// The separator placed between adjacent selected chunks.
pub open spec fn spec_separator() -> Seq<char> {
    "\n\n---\n\n"@
}

/// The sentinel emitted when no chunk was relevant enough.
pub open spec fn spec_sentinel() -> Seq<char> {
    "No highly relevant context found for these questions.\n\n"@
}

/// The selected chunk texts joined by the separator.
pub open spec fn spec_join_chunks(parts: Seq<Seq<char>>) -> Seq<char>
    decreases parts.len(),
{
    if parts.len() == 0 {
        Seq::empty()
    } else if parts.len() == 1 {
        parts[0]
    } else {
        spec_join_chunks(parts.drop_last()) + spec_separator() + parts.last()
    }
}

/// The assembled context: the joined chunks followed by a blank line, or
/// the sentinel when nothing was selected.
pub open spec fn spec_assemble(parts: Seq<Seq<char>>) -> Seq<char> {
    if parts.len() == 0 {
        spec_sentinel()
    } else {
        spec_join_chunks(parts) + "\n\n"@
    }
}

/// Assembles the context blob from the selected chunk texts, exactly as
/// [`spec_assemble`] describes.
pub fn assemble(selected: &Vec<String>) -> (r: String)
    ensures
        r@ == spec_assemble(selected.deep_view()),
{
    if selected.len() == 0 {
        let r = "No highly relevant context found for these questions.\n\n".to_owned();
        return r;
    }
    let ghost parts = selected.deep_view();
    let mut out = String::new();
    let mut i: usize = 0;
    proof {
        assert(parts.len() == selected@.len());
    }
    while i < selected.len()
        invariant
            0 < selected@.len(),
            0 <= i <= selected@.len(),
            parts == selected.deep_view(),
            parts.len() == selected@.len(),
            i == 0 ==> out@ == Seq::<char>::empty(),
            i > 0 ==> out@ == spec_join_chunks(parts.take(i as int)),
        decreases selected@.len() - i,
    {
        if i > 0 {
            out.append("\n\n---\n\n");
        }
        out.append(selected[i].as_str());
        proof {
            assert(selected.deep_view()[i as int] == selected@[i as int]@);
            assert(parts.take(i + 1 as int).drop_last() =~= parts.take(i as int));
            assert(parts.take(i + 1 as int).last() == parts[i as int]);
            if i == 0 {
                assert(out@ =~= parts[0]);
                assert(parts.take(1).len() == 1);
                assert(parts.take(1)[0] == parts[0]);
            }
        }
        i = i + 1;
    }
    proof {
        assert(parts.take(parts.len() as int) =~= parts);
    }
    out.append("\n\n");
    out
}

/// The sentinel is a fixed non-empty string, so the assembler's output is
/// never empty: an empty selection yields the sentinel itself.
pub proof fn law_empty_selection_is_sentinel(parts: Seq<Seq<char>>)
    requires
        parts.len() == 0,
    ensures
        spec_assemble(parts) == spec_sentinel(),
        spec_assemble(parts).len() > 0,
{
    reveal_strlit("No highly relevant context found for these questions.\n\n");
}

} // verus!
