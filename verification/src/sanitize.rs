//! The input-sanitization pass: neutralizes instruction-injection phrases
//! in assembled context before it is handed to the generation step.
//!
//! The deny-list is data: each pattern is a list of words, and a pattern
//! occurs in the text where its words appear in order, matched
//! case-insensitively over ASCII letters, with one or more blank
//! characters between consecutive words.  Every occurrence is replaced by
//! a single space, scanning left to right without overlap, one pattern
//! after the other in list order.  Sanitization never fails and never
//! rejects: clean text passes through unchanged
//! ([`law_sanitize_clean_text`]), a best-effort mitigation rather than a
//! security boundary.

use vstd::prelude::*;

use crate::text::{chars_to_string, is_space, is_space_char, lower_char, string_to_chars,
    to_lower};

verus! {

/// Word `w` occurs at position `i` of `t`, case-insensitively.
pub open spec fn word_matches_at(t: Seq<char>, w: Seq<char>, i: int) -> bool {
    &&& 0 <= i
    &&& i + w.len() <= t.len()
    &&& forall|k: int| 0 <= k < w.len() ==> lower_char(t[i + k]) == #[trigger] w[k]
}

/// The first position at or after `i` holding a non-blank character, or
/// the end of the text.
pub open spec fn ws_run_end(t: Seq<char>, i: int) -> int
    recommends
        0 <= i <= t.len(),
    decreases t.len() - i,
    when 0 <= i <= t.len()
{
    if i >= t.len() {
        t.len() as int
    } else if is_space_char(t[i]) {
        ws_run_end(t, i + 1)
    } else {
        i
    }
}

/// Where the phrase `words` ends if it occurs at position `i`: each word
/// in order, consecutive words parted by a run of at least one blank.
pub open spec fn phrase_match_end(t: Seq<char>, words: Seq<Seq<char>>, i: int) -> Option<int>
    recommends
        0 <= i <= t.len(),
    decreases words.len(),
{
    if words.len() == 0 {
        None
    } else if !word_matches_at(t, words[0], i) {
        None
    } else if words.len() == 1 {
        Some(i + words[0].len() as int)
    } else {
        let a = i + words[0].len() as int;
        let b = ws_run_end(t, a);
        if b > a {
            phrase_match_end(t, words.drop_first(), b)
        } else {
            None
        }
    }
}

/// The text from position `i` on, with every occurrence of the phrase
/// replaced by one space: leftmost first, without overlap.
pub open spec fn replace_from(t: Seq<char>, words: Seq<Seq<char>>, i: int) -> Seq<char>
    recommends
        0 <= i <= t.len(),
    decreases t.len() - i,
    when 0 <= i <= t.len()
{
    if i >= t.len() {
        Seq::empty()
    } else {
        match phrase_match_end(t, words, i) {
            Some(j) => if i < j <= t.len() {
                seq![' '] + replace_from(t, words, j)
            } else {
                seq![t[i]] + replace_from(t, words, i + 1)
            },
            None => seq![t[i]] + replace_from(t, words, i + 1),
        }
    }
}

/// The text with every occurrence of one phrase replaced by a space.
pub open spec fn spec_replace_phrase(t: Seq<char>, words: Seq<Seq<char>>) -> Seq<char> {
    replace_from(t, words, 0)
}

/// The text with every pattern of the list applied in order, each to the
/// result of the previous.
pub open spec fn spec_sanitize(patterns: Seq<Seq<Seq<char>>>, t: Seq<char>) -> Seq<char>
    decreases patterns.len(),
{
    if patterns.len() == 0 {
        t
    } else {
        spec_sanitize(patterns.drop_first(), spec_replace_phrase(t, patterns[0]))
    }
}

/// No occurrence of the phrase anywhere in the text.
pub open spec fn phrase_free(t: Seq<char>, words: Seq<Seq<char>>) -> bool {
    forall|i: int| 0 <= i < t.len() ==> #[trigger] phrase_match_end(t, words, i) is None
}

/// No occurrence of any pattern of the list anywhere in the text.
pub open spec fn patterns_free(t: Seq<char>, patterns: Seq<Seq<Seq<char>>>) -> bool {
    forall|k: int| 0 <= k < patterns.len() ==> phrase_free(t, #[trigger] patterns[k])
}

/// Replacing a phrase that does not occur changes nothing.
proof fn lemma_replace_free_from(t: Seq<char>, words: Seq<Seq<char>>, i: int)
    requires
        0 <= i <= t.len(),
        phrase_free(t, words),
    ensures
        replace_from(t, words, i) == t.skip(i),
    decreases t.len() - i,
{
    if i >= t.len() {
        assert(t.skip(i) =~= Seq::<char>::empty());
    } else {
        lemma_replace_free_from(t, words, i + 1);
        assert(phrase_match_end(t, words, i) is None);
        assert(seq![t[i]] + t.skip(i + 1) =~= t.skip(i));
    }
}

/// Text containing none of the deny-list patterns passes through
/// sanitization unchanged.
pub proof fn law_sanitize_clean_text(patterns: Seq<Seq<Seq<char>>>, t: Seq<char>)
    requires
        patterns_free(t, patterns),
    ensures
        spec_sanitize(patterns, t) == t,
    decreases patterns.len(),
{
    if patterns.len() > 0 {
        lemma_replace_free_from(t, patterns[0], 0);
        assert(t.skip(0) =~= t);
        assert(spec_replace_phrase(t, patterns[0]) == t);
        assert(patterns_free(t, patterns.drop_first())) by {
            assert(forall|k: int|
                0 <= k < patterns.drop_first().len() ==> patterns.drop_first()[k]
                    == #[trigger] patterns[k + 1]);
        }
        law_sanitize_clean_text(patterns.drop_first(), t);
    }
}

/// The maintained deny-list: phrases whose occurrence in document text is
/// taken for an attempt to steer the generation step.
pub open spec fn spec_deny_patterns() -> Seq<Seq<Seq<char>>> {
    seq![
        seq!["ignore"@, "previous"@, "instructions"@],
        seq!["as"@, "an"@, "ai"@],
        seq!["follow"@, "these"@, "instructions"@],
        seq!["disregard"@, "the"@, "above"@],
        seq!["pretend"@, "to"@, "be"@],
        seq!["all"@, "prior"@, "instructions"@],
        seq!["you"@, "are"@, "to"@, "respond"@, "exclusively"@],
        seq!["will"@, "trigger"@, "a"@, "catastrophic"@, "system"@, "failure"@],
        seq!["responding"@, "with"@, "anything"@, "other"@, "than"@],
        seq!["mandatory"@, "instruction"@],
        seq!["this"@, "includes"@, "any"@, "previous"@, "directives"@],
        seq!["must"@, "be"@, "immediately"@, "forgotten"@],
        seq!["this"@, "is"@, "a"@, "direct"@, "order"@],
        seq!["execute"@, "this"@, "directive"@, "immediately"@],
        seq!["failure"@, "to"@, "comply"@],
        seq!["for"@, "every"@, "single"@, "question"@],
        seq!["system"@, "compromised"@],
        seq!["immediate"@, "and"@, "irreversiblel"@, "leakage"@],
        seq![
            "no"@,
            "deviations,"@,
            "explanations,"@,
            "or"@,
            "additional"@,
            "responses"@,
            "are"@,
            "permitted"@,
        ],
        seq!["you"@, "must"@, "not"@, "question"@],
        seq!["you"@, "are"@, "not"@, "allowed"@, "to"@, "disobey"@],
        seq!["from"@, "the"@, "system"@, "administrator"@],
    ]
}

fn phrase2(w0: &str, w1: &str) -> (r: Vec<String>)
    ensures
        r.deep_view() == seq![w0@, w1@],
{
    let mut v: Vec<String> = Vec::new();
    v.push(w0.to_owned());
    v.push(w1.to_owned());
    proof {
        assert(v.deep_view() =~= seq![w0@, w1@]);
    }
    v
}

fn phrase3(w0: &str, w1: &str, w2: &str) -> (r: Vec<String>)
    ensures
        r.deep_view() == seq![w0@, w1@, w2@],
{
    let mut v = phrase2(w0, w1);
    let ghost pre = v.deep_view();
    v.push(w2.to_owned());
    proof {
        assert(v.deep_view() =~= pre.push(w2@));
        assert(pre.push(w2@) =~= seq![w0@, w1@, w2@]);
    }
    v
}

fn phrase4(w0: &str, w1: &str, w2: &str, w3: &str) -> (r: Vec<String>)
    ensures
        r.deep_view() == seq![w0@, w1@, w2@, w3@],
{
    let mut v = phrase3(w0, w1, w2);
    let ghost pre = v.deep_view();
    v.push(w3.to_owned());
    proof {
        assert(v.deep_view() =~= pre.push(w3@));
        assert(pre.push(w3@) =~= seq![w0@, w1@, w2@, w3@]);
    }
    v
}

fn phrase5(w0: &str, w1: &str, w2: &str, w3: &str, w4: &str) -> (r: Vec<String>)
    ensures
        r.deep_view() == seq![w0@, w1@, w2@, w3@, w4@],
{
    let mut v = phrase4(w0, w1, w2, w3);
    let ghost pre = v.deep_view();
    v.push(w4.to_owned());
    proof {
        assert(v.deep_view() =~= pre.push(w4@));
        assert(pre.push(w4@) =~= seq![w0@, w1@, w2@, w3@, w4@]);
    }
    v
}

fn phrase6(w0: &str, w1: &str, w2: &str, w3: &str, w4: &str, w5: &str) -> (r: Vec<String>)
    ensures
        r.deep_view() == seq![w0@, w1@, w2@, w3@, w4@, w5@],
{
    let mut v = phrase5(w0, w1, w2, w3, w4);
    let ghost pre = v.deep_view();
    v.push(w5.to_owned());
    proof {
        assert(v.deep_view() =~= pre.push(w5@));
        assert(pre.push(w5@) =~= seq![w0@, w1@, w2@, w3@, w4@, w5@]);
    }
    v
}

fn phrase8(
    w0: &str,
    w1: &str,
    w2: &str,
    w3: &str,
    w4: &str,
    w5: &str,
    w6: &str,
    w7: &str,
) -> (r: Vec<String>)
    ensures
        r.deep_view() == seq![w0@, w1@, w2@, w3@, w4@, w5@, w6@, w7@],
{
    let mut v = phrase6(w0, w1, w2, w3, w4, w5);
    let ghost pre6 = v.deep_view();
    v.push(w6.to_owned());
    proof {
        assert(v.deep_view() =~= pre6.push(w6@));
    }
    let ghost pre7 = v.deep_view();
    v.push(w7.to_owned());
    proof {
        assert(v.deep_view() =~= pre7.push(w7@));
        assert(pre6.push(w6@).push(w7@) =~= seq![w0@, w1@, w2@, w3@, w4@, w5@, w6@, w7@]);
    }
    v
}

/// The deny-list as data, exactly [`spec_deny_patterns`]: a pattern per
/// phrase, a word per regex token.
pub fn deny_patterns() -> (r: Vec<Vec<String>>)
    ensures
        r.deep_view() == spec_deny_patterns(),
{
    let mut out: Vec<Vec<String>> = Vec::new();
    out.push(phrase3("ignore", "previous", "instructions"));
    out.push(phrase3("as", "an", "ai"));
    out.push(phrase3("follow", "these", "instructions"));
    out.push(phrase3("disregard", "the", "above"));
    out.push(phrase3("pretend", "to", "be"));
    out.push(phrase3("all", "prior", "instructions"));
    out.push(phrase5("you", "are", "to", "respond", "exclusively"));
    out.push(phrase6("will", "trigger", "a", "catastrophic", "system", "failure"));
    out.push(phrase5("responding", "with", "anything", "other", "than"));
    out.push(phrase2("mandatory", "instruction"));
    out.push(phrase5("this", "includes", "any", "previous", "directives"));
    out.push(phrase4("must", "be", "immediately", "forgotten"));
    out.push(phrase5("this", "is", "a", "direct", "order"));
    out.push(phrase4("execute", "this", "directive", "immediately"));
    out.push(phrase3("failure", "to", "comply"));
    out.push(phrase4("for", "every", "single", "question"));
    out.push(phrase2("system", "compromised"));
    out.push(phrase4("immediate", "and", "irreversiblel", "leakage"));
    out.push(
        phrase8("no", "deviations,", "explanations,", "or", "additional", "responses", "are",
            "permitted"),
    );
    out.push(phrase4("you", "must", "not", "question"));
    out.push(phrase6("you", "are", "not", "allowed", "to", "disobey"));
    out.push(phrase4("from", "the", "system", "administrator"));
    proof {
        assert(out.deep_view() =~= spec_deny_patterns());
    }
    out
}

/// Sanitizes context text against the maintained deny-list, replacing each
/// occurrence of a listed phrase with a single space.
pub fn sanitize_policy(content: &str) -> (r: String)
    ensures
        r@ == spec_sanitize(spec_deny_patterns(), content@),
{
    let patterns = deny_patterns();
    sanitize_with(&patterns, content)
}

fn word_match_exec(t: &Vec<char>, w: &Vec<char>, i: usize) -> (r: bool)
    requires
        i <= t@.len(),
    ensures
        r == word_matches_at(t@, w@, i as int),
{
    if w.len() > t.len() - i {
        return false;
    }
    let n = t.len();
    let mut k: usize = 0;
    while k < w.len()
        invariant
            0 <= k <= w@.len(),
            n == t@.len(),
            i + w@.len() <= t@.len(),
            forall|m: int| 0 <= m < k ==> lower_char(t@[i + m]) == #[trigger] w@[m],
        decreases w@.len() - k,
    {
        if to_lower(t[i + k]) != w[k] {
            return false;
        }
        k = k + 1;
    }
    true
}

fn ws_end_exec(t: &Vec<char>, i: usize) -> (r: usize)
    requires
        i <= t@.len(),
    ensures
        r as int == ws_run_end(t@, i as int),
        i <= r <= t@.len(),
{
    let mut j: usize = i;
    while j < t.len()
        invariant
            i <= j <= t@.len(),
            ws_run_end(t@, i as int) == ws_run_end(t@, j as int),
        decreases t@.len() - j,
    {
        if !is_space(t[j]) {
            return j;
        }
        j = j + 1;
    }
    j
}

fn phrase_end_exec(t: &Vec<char>, words: &Vec<Vec<char>>, i: usize) -> (r: Option<usize>)
    requires
        i <= t@.len(),
    ensures
        match r {
            Some(j) => phrase_match_end(t@, words.deep_view(), i as int) == Some(j as int) && i
                <= j <= t@.len(),
            None => phrase_match_end(t@, words.deep_view(), i as int) is None,
        },
{
    let ghost all = words.deep_view();
    if words.len() == 0 {
        return None;
    }
    let n = t.len();
    let mut k: usize = 0;
    let mut cur: usize = i;
    proof {
        assert(all.skip(0) =~= all);
    }
    loop
        invariant
            0 <= k < words@.len(),
            i <= cur <= t@.len(),
            n == t@.len(),
            all == words.deep_view(),
            all.len() == words@.len(),
            phrase_match_end(t@, all, i as int) == phrase_match_end(
                t@,
                all.skip(k as int),
                cur as int,
            ),
        decreases words@.len() - k,
    {
        let ghost rest = all.skip(k as int);
        proof {
            assert(rest[0] == all[k as int]);
            assert(words@[k as int].deep_view() =~= words@[k as int]@);
            assert(words.deep_view()[k as int] == words@[k as int]@);
            assert(rest.drop_first() =~= all.skip(k + 1 as int));
        }
        if !word_match_exec(t, &words[k], cur) {
            return None;
        }
        let wl = words[k].len();
        proof {
            assert(word_matches_at(t@, all[k as int], cur as int));
            assert(cur + wl <= t@.len());
        }
        if k == words.len() - 1 {
            proof {
                assert(rest.len() == 1);
            }
            return Some(cur + wl);
        }
        let a = cur + wl;
        let b = ws_end_exec(t, a);
        if b == a {
            proof {
                assert(rest.len() > 1);
            }
            return None;
        }
        proof {
            assert(rest.len() > 1);
            assert(b > a);
        }
        k = k + 1;
        cur = b;
    }
}

fn replace_phrase_exec(t: &Vec<char>, words: &Vec<Vec<char>>) -> (r: Vec<char>)
    ensures
        r@ == spec_replace_phrase(t@, words.deep_view()),
{
    let ghost w = words.deep_view();
    let mut out: Vec<char> = Vec::new();
    let mut i: usize = 0;
    while i < t.len()
        invariant
            0 <= i <= t@.len(),
            w == words.deep_view(),
            replace_from(t@, w, 0) == out@ + replace_from(t@, w, i as int),
        decreases t@.len() - i,
    {
        let ghost pre = out@;
        match phrase_end_exec(t, words, i) {
            Some(j) if j > i => {
                out.push(' ');
                proof {
                    assert(replace_from(t@, w, i as int) == seq![' '] + replace_from(
                        t@,
                        w,
                        j as int,
                    ));
                    assert(pre + (seq![' '] + replace_from(t@, w, j as int)) =~= out@
                        + replace_from(t@, w, j as int));
                }
                i = j;
            },
            _ => {
                out.push(t[i]);
                proof {
                    assert(replace_from(t@, w, i as int) == seq![t@[i as int]] + replace_from(
                        t@,
                        w,
                        i + 1 as int,
                    ));
                    assert(pre + (seq![t@[i as int]] + replace_from(t@, w, i + 1 as int)) =~= out@
                        + replace_from(t@, w, i + 1 as int));
                }
                i = i + 1;
            },
        }
    }
    proof {
        assert(replace_from(t@, w, t@.len() as int) =~= Seq::<char>::empty());
        assert(out@ + Seq::<char>::empty() =~= out@);
    }
    out
}

/// Applies a pattern list to `text`, each pattern in order, exactly as
/// [`spec_sanitize`] describes.
pub fn sanitize_with(patterns: &Vec<Vec<String>>, text: &str) -> (r: String)
    ensures
        r@ == spec_sanitize(patterns.deep_view(), text@),
{
    let ghost all = patterns.deep_view();
    let mut cs = string_to_chars(text);
    let mut k: usize = 0;
    proof {
        assert(all.skip(0) =~= all);
    }
    while k < patterns.len()
        invariant
            0 <= k <= patterns@.len(),
            all == patterns.deep_view(),
            all.len() == patterns@.len(),
            spec_sanitize(all, text@) == spec_sanitize(all.skip(k as int), cs@),
        decreases patterns@.len() - k,
    {
        let ghost rest = all.skip(k as int);
        proof {
            assert(rest[0] == all[k as int]);
            assert(rest.drop_first() =~= all.skip(k + 1 as int));
            assert(patterns.deep_view()[k as int] == patterns@[k as int].deep_view());
        }
        let pattern = &patterns[k];
        let mut word_chars: Vec<Vec<char>> = Vec::new();
        let mut m: usize = 0;
        while m < pattern.len()
            invariant
                0 <= m <= pattern@.len(),
                word_chars.deep_view() =~= pattern.deep_view().take(m as int),
            decreases pattern@.len() - m,
        {
            let ghost prew = word_chars.deep_view();
            let wvec = string_to_chars(pattern[m].as_str());
            proof {
                assert(wvec.deep_view() =~= wvec@);
                assert(pattern.deep_view()[m as int] == pattern@[m as int]@);
            }
            word_chars.push(wvec);
            proof {
                assert(word_chars.deep_view() =~= prew.push(pattern.deep_view()[m as int]));
                assert(pattern.deep_view().take(m + 1 as int) =~= pattern.deep_view().take(
                    m as int,
                ).push(pattern.deep_view()[m as int]));
            }
            m = m + 1;
        }
        proof {
            assert(pattern.deep_view().take(pattern@.len() as int) =~= pattern.deep_view());
            assert(word_chars.deep_view() == all[k as int]);
        }
        cs = replace_phrase_exec(&cs, &word_chars);
        k = k + 1;
    }
    proof {
        assert(all.skip(all.len() as int).len() == 0);
    }
    chars_to_string(&cs)
}

} // verus!
