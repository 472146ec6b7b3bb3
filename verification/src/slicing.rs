//! Verified word-level helpers over borrowed strings.
//!
//! A word is a maximal run of non-whitespace characters.  The model is
//! [`scan_words`], a left-to-right scan that carries the finished words
//! and the currently open run; [`words`] closes the final run.  Strings
//! are modelled by their character sequences, so positions and lengths
//! count characters.

use vstd::prelude::*;
use vstd::string::StrSliceExecFns;
use vstd::string::StringExecFns;

verus! {

/// Whether a character separates words.
pub uninterp spec fn is_unicode_ws(c: char) -> bool;

/// Relies on `char::is_whitespace`: whether the character has the
/// Unicode `White_Space` property.  The result depends on the character
/// alone, so it is only given a name here.
pub assume_specification[ char::is_whitespace ](c: char) -> (r: bool)
    ensures
        r == is_unicode_ws(c),
;

/// The words of the first `i` characters of `s`, paired with the run of
/// non-whitespace characters still open at position `i`.
pub open spec fn scan_words(s: Seq<char>, i: int) -> (Seq<Seq<char>>, Seq<char>)
    decreases i,
{
    if i <= 0 {
        (seq![], seq![])
    } else {
        let prev = scan_words(s, i - 1);
        if is_unicode_ws(s[i - 1]) {
            if prev.1.len() > 0 {
                (prev.0.push(prev.1), seq![])
            } else {
                prev
            }
        } else {
            (prev.0, prev.1.push(s[i - 1]))
        }
    }
}

/// The whitespace-separated words of `s`, in order.
pub open spec fn words(s: Seq<char>) -> Seq<Seq<char>> {
    let full = scan_words(s, s.len() as int);
    if full.1.len() > 0 {
        full.0.push(full.1)
    } else {
        full.0
    }
}

/// The character spans of the words of `text`, in order: word `j` of the
/// text is the slice between positions `spans[j].0` and `spans[j].1`.
fn word_spans(text: &str) -> (spans: Vec<(usize, usize)>)
    ensures
        spans@.len() == words(text@).len(),
        forall|j: int|
            0 <= j < spans@.len() ==> (#[trigger] spans@[j]).0 < spans@[j].1 <= text@.len()
                && text@.subrange(spans@[j].0 as int, spans@[j].1 as int) == words(text@)[j],
{
    let ghost s = text@;
    let n = text.unicode_len();
    let mut spans: Vec<(usize, usize)> = Vec::new();
    let mut run_start: usize = 0;
    let mut in_run: bool = false;
    let mut i: usize = 0;
    while i < n
        invariant
            i <= n,
            n == s.len(),
            s == text@,
            spans@.len() == scan_words(s, i as int).0.len(),
            forall|j: int|
                0 <= j < spans@.len() ==> (#[trigger] spans@[j]).0 < spans@[j].1 <= i
                    && s.subrange(spans@[j].0 as int, spans@[j].1 as int) == scan_words(
                    s,
                    i as int,
                ).0[j],
            in_run <==> scan_words(s, i as int).1.len() > 0,
            in_run ==> run_start < i && scan_words(s, i as int).1 == s.subrange(
                run_start as int,
                i as int,
            ),
        decreases n - i,
    {
        let ghost prev = scan_words(s, i as int);
        let c = text.get_char(i);
        if c.is_whitespace() {
            if in_run {
                spans.push((run_start, i));
                in_run = false;
                proof {
                    assert(scan_words(s, i as int + 1).0 == prev.0.push(prev.1));
                    assert(scan_words(s, i as int + 1).1.len() == 0);
                    assert forall|j: int|
                        0 <= j < spans@.len() implies (#[trigger] spans@[j]).0 < spans@[j].1 <= i
                            + 1 && s.subrange(spans@[j].0 as int, spans@[j].1 as int) == scan_words(
                        s,
                        i as int + 1,
                    ).0[j] by {
                        if j < spans@.len() - 1 {
                            assert(spans@[j] == spans@.drop_last()[j]);
                            assert(scan_words(s, i as int + 1).0[j] == prev.0[j]);
                        } else {
                            assert(spans@[j] == (run_start, i));
                            assert(scan_words(s, i as int + 1).0[j] == prev.1);
                        }
                    }
                }
            } else {
                proof {
                    assert(scan_words(s, i as int + 1) == prev);
                }
            }
        } else {
            if !in_run {
                run_start = i;
                in_run = true;
            }
            proof {
                assert(scan_words(s, i as int + 1).0 == prev.0);
                assert(scan_words(s, i as int + 1).1 == prev.1.push(s[i as int]));
                assert(s.subrange(run_start as int, i as int + 1) =~= s.subrange(
                    run_start as int,
                    i as int,
                ).push(s[i as int]));
                if prev.1.len() == 0 {
                    assert(s.subrange(run_start as int, run_start as int) =~= prev.1);
                }
            }
        }
        i += 1;
    }
    if in_run {
        spans.push((run_start, n));
        proof {
            let full = scan_words(s, n as int);
            assert(words(s) == full.0.push(full.1));
            assert forall|j: int|
                0 <= j < spans@.len() implies (#[trigger] spans@[j]).0 < spans@[j].1 <= s.len()
                    && s.subrange(spans@[j].0 as int, spans@[j].1 as int) == words(s)[j] by {
                if j < spans@.len() - 1 {
                    assert(spans@[j] == spans@.drop_last()[j]);
                    assert(words(s)[j] == full.0[j]);
                } else {
                    assert(spans@[j] == (run_start, n));
                    assert(words(s)[j] == full.1);
                }
            }
        }
    } else {
        proof {
            assert(words(s) == scan_words(s, n as int).0);
        }
    }
    spans
}

/// The number of whitespace-separated words in the text.
pub fn count_words(text: &str) -> (r: usize)
    ensures
        r == words(text@).len(),
{
    let spans = word_spans(text);
    spans.len()
}

/// The longest word of the text, or `None` when it holds no word.  Among
/// words of equal greatest length, the last one is returned.
pub fn find_longest_word<'a>(text: &'a str) -> (r: Option<&'a str>)
    ensures
        r is None <==> words(text@).len() == 0,
        r matches Some(w) ==> exists|k: int|
            0 <= k < words(text@).len() && w@ == words(text@)[k] && (forall|j: int|
                0 <= j < words(text@).len() ==> (#[trigger] words(text@)[j]).len() <= words(
                    text@,
                )[k].len()) && (forall|j: int|
                k < j < words(text@).len() ==> (#[trigger] words(text@)[j]).len() < words(
                    text@,
                )[k].len()),
{
    let spans = word_spans(text);
    let m = spans.len();
    if m == 0 {
        return None;
    }
    let ghost ws = words(text@);
    proof {
        assert forall|j: int| 0 <= j < m implies (#[trigger] ws[j]).len() == spans@[j].1
            - spans@[j].0 by {
            assert(ws[j] == text@.subrange(spans@[j].0 as int, spans@[j].1 as int));
        }
    }
    let mut best: usize = 0;
    let mut idx: usize = 1;
    while idx < m
        invariant
            1 <= idx <= m,
            best < idx,
            m == spans@.len() == ws.len(),
            ws == words(text@),
            forall|j: int|
                0 <= j < m ==> (#[trigger] spans@[j]).0 < spans@[j].1 <= text@.len()
                    && text@.subrange(spans@[j].0 as int, spans@[j].1 as int) == ws[j],
            forall|j: int| 0 <= j < m ==> (#[trigger] ws[j]).len() == spans@[j].1 - spans@[j].0,
            forall|j: int| 0 <= j < idx ==> (#[trigger] ws[j]).len() <= ws[best as int].len(),
            forall|j: int| best < j < idx ==> (#[trigger] ws[j]).len() < ws[best as int].len(),
        decreases m - idx,
    {
        let span = spans[idx];
        let best_span = spans[best];
        if span.1 - span.0 >= best_span.1 - best_span.0 {
            best = idx;
        }
        idx += 1;
    }
    let span = spans[best];
    let w = text.substring_char(span.0, span.1);
    proof {
        assert(w@ == ws[best as int]);
    }
    Some(w)
}

/// The words of a sequence joined by single spaces, last word first.
pub open spec fn join_reversed(ws: Seq<Seq<char>>) -> Seq<char>
    decreases ws.len(),
{
    if ws.len() == 0 {
        Seq::empty()
    } else if ws.len() == 1 {
        ws[0]
    } else {
        join_reversed(ws.drop_first()) + seq![' '] + ws[0]
    }
}

/// The text with its word order reversed, the words joined by single
/// spaces; surrounding and repeated whitespace collapses.
pub fn reverse_words(text: &str) -> (r: String)
    ensures
        r@ == join_reversed(words(text@)),
{
    let ghost ws = words(text@);
    let spans = word_spans(text);
    let m = spans.len();
    let mut out = String::new();
    if m == 0 {
        return out;
    }
    proof {
        reveal_strlit(" ");
    }
    let mut j: usize = m;
    while j > 0
        invariant
            j <= m,
            1 <= m == spans@.len() == ws.len(),
            ws == words(text@),
            forall|jj: int|
                0 <= jj < m ==> (#[trigger] spans@[jj]).0 < spans@[jj].1 <= text@.len()
                    && text@.subrange(spans@[jj].0 as int, spans@[jj].1 as int) == ws[jj],
            out@ == join_reversed(ws.subrange(j as int, m as int)),
        decreases j,
    {
        j -= 1;
        let span = spans[j];
        let w = text.substring_char(span.0, span.1);
        let ghost tail = ws.subrange(j as int, m as int);
        proof {
            assert(tail[0] == ws[j as int]);
            assert(tail.drop_first() =~= ws.subrange(j as int + 1, m as int));
        }
        if j + 1 < m {
            let sep = " ";
            proof {
                reveal_strlit(" ");
                assert(sep@ =~= seq![' ']);
            }
            out.append(sep);
        }
        out.append(w);
        proof {
            if j + 1 < m {
                assert(out@ == join_reversed(tail.drop_first()) + seq![' '] + tail[0]);
                assert(out@ == join_reversed(tail));
            } else {
                assert(tail.len() == 1);
                assert(join_reversed(ws.subrange(j as int + 1, m as int)) =~= Seq::<char>::empty());
                assert(out@ =~= tail[0]);
            }
        }
    }
    proof {
        assert(ws.subrange(0, m as int) =~= ws);
    }
    out
}

/// The domain part of an e-mail address: what follows the first `'@'`.
/// `None` when there is no `'@'` or nothing follows it.
pub fn extract_domain<'a>(email: &'a str) -> (r: Option<&'a str>)
    ensures
        r matches Some(d) ==> exists|p: int|
            0 <= p < email@.len() && #[trigger] email@[p] == '@' && (forall|q: int|
                0 <= q < p ==> email@[q] != '@') && p + 1 < email@.len() && d@ == email@.subrange(
                p + 1,
                email@.len() as int,
            ),
        r is None ==> (forall|p: int| 0 <= p < email@.len() ==> email@[p] != '@') || (exists|p: int|
            0 <= p < email@.len() && #[trigger] email@[p] == '@' && (forall|q: int|
                0 <= q < p ==> email@[q] != '@') && p + 1 >= email@.len()),
{
    let n = email.unicode_len();
    let mut i: usize = 0;
    while i < n
        invariant
            i <= n,
            n == email@.len(),
            forall|q: int| 0 <= q < i ==> email@[q] != '@',
        decreases n - i,
    {
        if email.get_char(i) == '@' {
            if i + 1 >= n {
                proof {
                    assert(email@[i as int] == '@');
                }
                return None;
            }
            let d = email.substring_char(i + 1, n);
            proof {
                assert(email@[i as int] == '@');
            }
            return Some(d);
        }
        i += 1;
    }
    None
}

} // verus!
