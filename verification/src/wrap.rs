//! Greedy line wrapping for fixed-width text layout: the words of a line
//! are packed left to right, a word moving to a fresh line when appending
//! it (with its joining space) would pass the width.
//!
//! A text already within the width is kept as one line.  A single word
//! longer than the width stands on a line of its own, overlong; widths are
//! counted in characters.

use vstd::prelude::*;

use crate::text::{chars_to_string, extend_chars, is_space, is_space_char, string_to_chars,
    subvec_chars};

verus! {

/// The blank-separated words of `t`, in order.
pub open spec fn split_words(t: Seq<char>) -> Seq<Seq<char>>
    decreases t.len(),
{
    if t.len() == 0 {
        Seq::empty()
    } else {
        let r = split_words(t.drop_last());
        if is_space_char(t.last()) {
            r
        } else if t.len() >= 2 && !is_space_char(t[t.len() - 2]) {
            r.update(r.len() - 1, r.last().push(t.last()))
        } else {
            r.push(seq![t.last()])
        }
    }
}

/// Folds the words from position `i` into wrapped lines: `lines` holds the
/// finished lines so far and `cur` the one being filled.
pub open spec fn wrap_fold(
    ws: Seq<Seq<char>>,
    i: int,
    lines: Seq<Seq<char>>,
    cur: Seq<char>,
    limit: int,
) -> (Seq<Seq<char>>, Seq<char>)
    decreases ws.len() - i,
    when 0 <= i <= ws.len()
{
    if i >= ws.len() {
        (lines, cur)
    } else {
        let w = ws[i];
        let flushed = cur.len() + w.len() + 1 > limit && cur.len() > 0;
        let lines2 = if flushed {
            lines.push(cur)
        } else {
            lines
        };
        let cur2 = if flushed {
            Seq::<char>::empty()
        } else {
            cur
        };
        let cur3 = if cur2.len() > 0 {
            cur2 + seq![' '] + w
        } else {
            w
        };
        wrap_fold(ws, i + 1, lines2, cur3, limit)
    }
}

/// The wrapped lines of `t` under width `limit`: the text itself when it
/// already fits, else its words packed greedily.
pub open spec fn spec_wrap_text(t: Seq<char>, limit: int) -> Seq<Seq<char>> {
    if t.len() <= limit {
        seq![t]
    } else {
        let p = wrap_fold(split_words(t), 0, Seq::empty(), Seq::empty(), limit);
        if p.1.len() > 0 {
            p.0.push(p.1)
        } else {
            p.0
        }
    }
}

fn split_words_exec(t: &Vec<char>) -> (r: Vec<Vec<char>>)
    ensures
        r.deep_view() == split_words(t@),
{
    let mut out: Vec<Vec<char>> = Vec::new();
    let mut i: usize = 0;
    proof {
        assert(t@.take(0) =~= Seq::<char>::empty());
        assert(out.deep_view() =~= split_words(t@.take(0)));
    }
    while i < t.len()
        invariant
            0 <= i <= t@.len(),
            out.deep_view() == split_words(t@.take(i as int)),
            (i > 0 && !is_space_char(t@[i - 1])) ==> out@.len() >= 1,
        decreases t@.len() - i,
    {
        let ghost pre = out.deep_view();
        proof {
            assert(t@.take(i + 1 as int).drop_last() =~= t@.take(i as int));
            assert(t@.take(i + 1 as int).last() == t@[i as int]);
            if i > 0 {
                assert(t@.take(i + 1 as int)[i - 1] == t@[i - 1]);
            }
        }
        let c = t[i];
        if is_space(c) {
            // word boundary; nothing to add
        } else if i > 0 && !is_space(t[i - 1]) {
            let last = out.len() - 1;
            let ghost prev_word = out.deep_view()[last as int];
            let mut word = out.remove(last);
            word.push(c);
            proof {
                assert(word.deep_view() =~= prev_word.push(t@[i as int]));
            }
            out.push(word);
            proof {
                assert(out.deep_view() =~= pre.update(pre.len() - 1, prev_word.push(
                    t@[i as int],
                )));
            }
        } else {
            let mut word: Vec<char> = Vec::new();
            word.push(c);
            proof {
                assert(word.deep_view() =~= seq![t@[i as int]]);
            }
            out.push(word);
            proof {
                assert(out.deep_view() =~= pre.push(seq![t@[i as int]]));
            }
        }
        i = i + 1;
    }
    proof {
        assert(t@.take(t@.len() as int) =~= t@);
    }
    out
}

/// Wraps `text` into lines of at most `chars_per_line` characters, exactly
/// per [`spec_wrap_text`].
pub fn wrap_text(text: &str, chars_per_line: usize) -> (r: Vec<String>)
    ensures
        r.deep_view() == spec_wrap_text(text@, chars_per_line as int),
{
    let cs = string_to_chars(text);
    if cs.len() <= chars_per_line {
        let mut out: Vec<String> = Vec::new();
        out.push(chars_to_string(&cs));
        proof {
            assert(out.deep_view() =~= seq![text@]);
        }
        return out;
    }
    let words = split_words_exec(&cs);
    let ghost ws = words.deep_view();
    let ghost limit = chars_per_line as int;
    let mut lines: Vec<Vec<char>> = Vec::new();
    let mut cur: Vec<char> = Vec::new();
    let mut i: usize = 0;
    proof {
        assert(lines.deep_view() =~= Seq::<Seq<char>>::empty());
        assert(cur@ =~= Seq::<char>::empty());
    }
    while i < words.len()
        invariant
            0 <= i <= words@.len(),
            ws == words.deep_view(),
            ws.len() == words@.len(),
            limit == chars_per_line as int,
            wrap_fold(ws, 0, Seq::empty(), Seq::empty(), limit) == wrap_fold(
                ws,
                i as int,
                lines.deep_view(),
                cur@,
                limit,
            ),
        decreases words@.len() - i,
    {
        let ghost lines0 = lines.deep_view();
        let ghost cur0 = cur@;
        let ghost w_v = ws[i as int];
        let ghost flushed_spec = cur0.len() + w_v.len() + 1 > limit && cur0.len() > 0;
        let ghost lines2 = if flushed_spec { lines0.push(cur0) } else { lines0 };
        let ghost cur2 = if flushed_spec { Seq::<char>::empty() } else { cur0 };
        let ghost cur3 = if cur2.len() > 0 { cur2 + seq![' '] + w_v } else { w_v };
        let w = &words[i];
        proof {
            assert(words.deep_view()[i as int] == words@[i as int]@);
        }
        let flush = (cur.len() as u128) + (w.len() as u128) + 1 > (chars_per_line as u128)
            && cur.len() > 0;
        proof {
            assert(flush == flushed_spec);
        }
        if flush {
            let ghost pre_lines = lines.deep_view();
            let full = cur;
            let ghost full_view = full@;
            proof {
                assert(full.deep_view() =~= full_view);
            }
            lines.push(full);
            cur = Vec::new();
            proof {
                assert(lines.deep_view() =~= pre_lines.push(full_view));
            }
        }
        proof {
            assert(lines.deep_view() == lines2);
            assert(cur@ == cur2);
        }
        if cur.len() > 0 {
            cur.push(' ');
            extend_chars(&mut cur, w);
            proof {
                assert(cur@ =~= cur2 + seq![' '] + w_v);
            }
        } else {
            cur = subvec_chars(w, 0, w.len());
            proof {
                assert(cur@ =~= w_v);
            }
        }
        proof {
            assert(cur@ == cur3);
            assert(wrap_fold(ws, i as int, lines0, cur0, limit) == wrap_fold(
                ws,
                i + 1,
                lines2,
                cur3,
                limit,
            ));
        }
        i = i + 1;
    }
    proof {
        assert(wrap_fold(ws, ws.len() as int, lines.deep_view(), cur@, limit) == (
        lines.deep_view(),
        cur@,
        ));
    }
    if cur.len() > 0 {
        let ghost pre_lines = lines.deep_view();
        let ghost cur_view = cur@;
        proof {
            assert(cur.deep_view() =~= cur_view);
        }
        lines.push(cur);
        proof {
            assert(lines.deep_view() =~= pre_lines.push(cur_view));
        }
    }
    let mut out: Vec<String> = Vec::new();
    let mut k: usize = 0;
    let ghost final_lines = lines.deep_view();
    proof {
        assert(out.deep_view() =~= final_lines.take(0));
    }
    while k < lines.len()
        invariant
            0 <= k <= lines@.len(),
            final_lines == lines.deep_view(),
            final_lines.len() == lines@.len(),
            out.deep_view() == final_lines.take(k as int),
        decreases lines@.len() - k,
    {
        let ghost pre = out.deep_view();
        out.push(chars_to_string(&lines[k]));
        proof {
            assert(lines.deep_view()[k as int] == lines@[k as int]@);
            assert(out.deep_view() =~= pre.push(final_lines[k as int]));
            assert(final_lines.take(k + 1 as int) =~= final_lines.take(k as int).push(
                final_lines[k as int],
            ));
        }
        k = k + 1;
    }
    proof {
        assert(final_lines.take(final_lines.len() as int) =~= final_lines);
    }
    out
}

} // verus!
