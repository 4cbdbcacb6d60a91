//! Plain-text recovery from markup: strips tags from an XML document body
//! and tidies the result line by line.
//!
//! This is the text side of the document-conversion flow; the archive
//! reading around it is I/O and lives outside the library.

use vstd::prelude::*;

use crate::api::{join_with, spec_join};
use crate::text::{chars_to_string, spec_trim, string_to_chars, trim_chars};

verus! {

/// The text outside the angle-bracket tags of `t` from position `i` on,
/// given whether position `i` is inside a tag.
pub open spec fn strip_tags_from(t: Seq<char>, i: int, in_tag: bool) -> Seq<char>
    recommends
        0 <= i <= t.len(),
    decreases t.len() - i,
    when 0 <= i <= t.len()
{
    if i >= t.len() {
        Seq::empty()
    } else if t[i] == '<' {
        strip_tags_from(t, i + 1, true)
    } else if t[i] == '>' {
        strip_tags_from(t, i + 1, false)
    } else if !in_tag {
        seq![t[i]] + strip_tags_from(t, i + 1, in_tag)
    } else {
        strip_tags_from(t, i + 1, in_tag)
    }
}

/// The text of `t` outside its tags.
pub open spec fn spec_strip_tags(t: Seq<char>) -> Seq<char> {
    strip_tags_from(t, 0, false)
}

/// The lines of `t`, split at every line feed.
pub open spec fn split_lines(t: Seq<char>) -> Seq<Seq<char>>
    decreases t.len(),
{
    if t.len() == 0 {
        seq![Seq::<char>::empty()]
    } else if t.last() == '\n' {
        split_lines(t.drop_last()).push(Seq::empty())
    } else {
        let rest = split_lines(t.drop_last());
        rest.update(rest.len() - 1, rest.last().push(t.last()))
    }
}

/// The lines trimmed, with blank ones dropped.
pub open spec fn clean_lines(ls: Seq<Seq<char>>) -> Seq<Seq<char>> {
    ls.map_values(|l: Seq<char>| spec_trim(l)).filter(|l: Seq<char>| l.len() > 0)
}

/// What [`extract_text_from_xml`] returns: the text outside the tags,
/// each line trimmed, blank lines dropped, lines joined by line feeds.
pub open spec fn spec_extract_text_from_xml(t: Seq<char>) -> Seq<char> {
    spec_join(clean_lines(split_lines(spec_strip_tags(t))), "\n"@)
}

fn strip_tags_exec(t: &Vec<char>) -> (r: Vec<char>)
    ensures
        r@ == spec_strip_tags(t@),
{
    let mut out: Vec<char> = Vec::new();
    let mut in_tag = false;
    let mut i: usize = 0;
    while i < t.len()
        invariant
            0 <= i <= t@.len(),
            spec_strip_tags(t@) == out@ + strip_tags_from(t@, i as int, in_tag),
        decreases t@.len() - i,
    {
        let c = t[i];
        if c == '<' {
            in_tag = true;
        } else if c == '>' {
            in_tag = false;
        } else if !in_tag {
            let ghost pre = out@;
            out.push(c);
            proof {
                assert(pre + (seq![t@[i as int]] + strip_tags_from(t@, i + 1 as int, in_tag))
                    =~= out@ + strip_tags_from(t@, i + 1 as int, in_tag));
            }
        }
        i = i + 1;
    }
    proof {
        assert(strip_tags_from(t@, t@.len() as int, in_tag) =~= Seq::<char>::empty());
        assert(out@ + Seq::<char>::empty() =~= out@);
    }
    out
}

fn split_lines_exec(t: &Vec<char>) -> (r: Vec<Vec<char>>)
    ensures
        r.deep_view() == split_lines(t@),
{
    let mut out: Vec<Vec<char>> = Vec::new();
    let first_line: Vec<char> = Vec::new();
    proof {
        assert(first_line.deep_view() =~= Seq::<char>::empty());
    }
    out.push(first_line);
    proof {
        assert(t@.take(0) =~= Seq::<char>::empty());
        assert(out.deep_view() =~= split_lines(t@.take(0)));
    }
    let mut i: usize = 0;
    while i < t.len()
        invariant
            0 <= i <= t@.len(),
            out@.len() >= 1,
            out.deep_view() == split_lines(t@.take(i as int)),
        decreases t@.len() - i,
    {
        let ghost pre = out.deep_view();
        proof {
            assert(t@.take(i + 1 as int).drop_last() =~= t@.take(i as int));
            assert(t@.take(i + 1 as int).last() == t@[i as int]);
        }
        if t[i] == '\n' {
            let next_line: Vec<char> = Vec::new();
            proof {
                assert(next_line.deep_view() =~= Seq::<char>::empty());
            }
            out.push(next_line);
            proof {
                assert(out.deep_view() =~= pre.push(Seq::<char>::empty()));
            }
        } else {
            let last = out.len() - 1;
            let ghost prev_line = out.deep_view()[last as int];
            let mut line = out.remove(last);
            line.push(t[i]);
            proof {
                assert(line.deep_view() =~= prev_line.push(t@[i as int]));
            }
            out.push(line);
            proof {
                assert(out.deep_view() =~= pre.update(pre.len() - 1, prev_line.push(
                    t@[i as int],
                )));
            }
        }
        i = i + 1;
    }
    proof {
        assert(t@.take(t@.len() as int) =~= t@);
    }
    out
}

/// Recovers readable text from an XML body, exactly per
/// [`spec_extract_text_from_xml`].
pub fn extract_text_from_xml(xml_content: &str) -> (r: String)
    ensures
        r@ == spec_extract_text_from_xml(xml_content@),
{
    let chars = string_to_chars(xml_content);
    let stripped = strip_tags_exec(&chars);
    let lines = split_lines_exec(&stripped);
    let ghost ls = lines.deep_view();
    let ghost trimmed = ls.map_values(|l: Seq<char>| spec_trim(l));
    let ghost pred = |l: Seq<char>| l.len() > 0;
    let mut kept: Vec<String> = Vec::new();
    let mut i: usize = 0;
    proof {
        assert(ls.take(0).map_values(|l: Seq<char>| spec_trim(l)).filter(pred)
            =~= Seq::<Seq<char>>::empty()) by {
            reveal(Seq::filter);
            assert(ls.take(0).map_values(|l: Seq<char>| spec_trim(l)) =~= Seq::<Seq<char>>::empty());
        }
        assert(kept.deep_view() =~= Seq::<Seq<char>>::empty());
    }
    while i < lines.len()
        invariant
            0 <= i <= lines@.len(),
            ls == lines.deep_view(),
            ls.len() == lines@.len(),
            pred == (|l: Seq<char>| l.len() > 0),
            kept.deep_view() == ls.take(i as int).map_values(|l: Seq<char>| spec_trim(l)).filter(
                pred,
            ),
        decreases lines@.len() - i,
    {
        let line_trimmed = trim_chars(&lines[i]);
        let ghost prefix_mapped = ls.take(i as int).map_values(|l: Seq<char>| spec_trim(l));
        proof {
            assert(lines.deep_view()[i as int] == lines@[i as int]@);
            assert(line_trimmed@ == spec_trim(ls[i as int]));
            assert(ls.take(i + 1 as int) =~= ls.take(i as int).push(ls[i as int]));
            assert(ls.take(i + 1 as int).map_values(|l: Seq<char>| spec_trim(l)) =~= prefix_mapped
                .push(spec_trim(ls[i as int])));
            reveal(Seq::filter);
            assert(prefix_mapped.push(spec_trim(ls[i as int])).drop_last() =~= prefix_mapped);
        }
        if line_trimmed.len() > 0 {
            let ghost pre = kept.deep_view();
            kept.push(chars_to_string(&line_trimmed));
            proof {
                assert(kept.deep_view() =~= pre.push(spec_trim(ls[i as int])));
            }
        }
        i = i + 1;
    }
    proof {
        assert(ls.take(ls.len() as int) =~= ls);
    }
    join_with(&kept, "\n")
}

} // verus!
