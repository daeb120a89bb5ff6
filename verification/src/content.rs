//! What wrapping keeps of a text: its characters, and its words where
//! none of them is longer than a line.

use crate::text::{drop_trailing_spaces, is_space};
use crate::wrap::{last_space, lemma_last_space_bounds, wrap, wrap_lines};
use vstd::prelude::*;
use vstd::seq_lib::lemma_flatten_concat;

verus! {

/// The characters of `s` that are not white space, in order.
pub open spec fn solid(s: Seq<char>) -> Seq<char> {
    s.filter(|c: char| !is_space(c))
}

/// `s` with every run of white space replaced by one space, and with no
/// white space at either end.
pub open spec fn collapse(s: Seq<char>) -> Seq<char>
    decreases s.len(),
{
    if s.len() == 0 {
        Seq::empty()
    } else {
        let before = collapse(s.drop_last());
        let c = s.last();
        if is_space(c) {
            before
        } else if before.len() > 0 && is_space(s[s.len() - 2]) {
            before.push(' ').push(c)
        } else {
            before.push(c)
        }
    }
}

/// The lines with one space between each two of them.
pub open spec fn join(lines: Seq<Seq<char>>) -> Seq<char>
    decreases lines.len(),
{
    if lines.len() == 0 {
        Seq::empty()
    } else if lines.len() == 1 {
        lines[0]
    } else {
        lines[0] + seq![' '] + join(lines.skip(1))
    }
}

/// No word of `s` is longer than `max`: wherever more than `max`
/// characters have been read, one of the last `max + 1` is white space.
pub open spec fn words_fit(s: Seq<char>, max: int) -> bool {
    forall|n: int| max < n <= s.len() ==> #[trigger] last_space(s, n) >= n - max - 1
}

/// `p` and `q` with one space between them, where neither is empty.
pub open spec fn glue(p: Seq<char>, q: Seq<char>) -> Seq<char> {
    if p.len() == 0 {
        q
    } else if q.len() == 0 {
        p
    } else {
        p + seq![' '] + q
    }
}

proof fn lemma_solid_single(c: char)
    ensures
        solid(seq![c]) == if is_space(c) {
            Seq::<char>::empty()
        } else {
            seq![c]
        },
{
    let pred = |c: char| !is_space(c);
    let s = seq![c];
    assert(s.drop_last() =~= Seq::<char>::empty());
    reveal_with_fuel(Seq::filter, 2);
    assert(s.drop_last().filter(pred) =~= Seq::<char>::empty());
    assert(s.filter(pred) =~= if is_space(c) {
        Seq::<char>::empty()
    } else {
        seq![c]
    });
}

proof fn lemma_solid_concat(a: Seq<char>, b: Seq<char>)
    ensures
        solid(a + b) == solid(a) + solid(b),
{
    Seq::filter_distributes_over_add(a, b, |c: char| !is_space(c));
}

proof fn lemma_solid_around_space(s: Seq<char>, i: int)
    requires
        0 <= i < s.len(),
        is_space(s[i]),
    ensures
        solid(s) == solid(s.take(i)) + solid(s.skip(i + 1)),
{
    assert(s =~= s.take(i) + seq![s[i]] + s.skip(i + 1));
    lemma_solid_concat(s.take(i) + seq![s[i]], s.skip(i + 1));
    lemma_solid_concat(s.take(i), seq![s[i]]);
    lemma_solid_single(s[i]);
    assert(solid(s.take(i)) + Seq::<char>::empty() =~= solid(s.take(i)));
}

proof fn lemma_solid_trailing(s: Seq<char>)
    ensures
        solid(drop_trailing_spaces(s)) == solid(s),
    decreases s.len(),
{
    if s.len() > 0 && is_space(s.last()) {
        lemma_solid_trailing(s.drop_last());
        lemma_solid_around_space(s, s.len() - 1);
        assert(s.take(s.len() - 1) =~= s.drop_last());
        assert(s.skip(s.len() as int) =~= Seq::<char>::empty());
        assert(solid(s.drop_last()) + solid(Seq::<char>::empty()) =~= solid(s.drop_last()));
    }
}

proof fn lemma_wrap_solid(t: Seq<char>, max: int)
    ensures
        solid(wrap(t, max).flatten()) == solid(t),
    decreases t.len(),
{
    if t.len() == 0 {
        assert(wrap(t, max).flatten() =~= t);
    } else if is_space(t[0]) {
        lemma_wrap_solid(t.skip(1), max);
        lemma_solid_around_space(t, 0);
        assert(solid(t.take(0)) + solid(t.skip(1)) =~= solid(t.skip(1)));
    } else if t.len() <= max || max <= 0 {
        seq![t].lemma_flatten_one_element();
    } else {
        let cut = last_space(t, max);
        lemma_last_space_bounds(t, max);
        if cut >= 0 {
            let rest = wrap(t.skip(cut + 1), max);
            lemma_wrap_solid(t.skip(cut + 1), max);
            lemma_flatten_concat(seq![t.take(cut)], rest);
            seq![t.take(cut)].lemma_flatten_one_element();
            lemma_solid_concat(t.take(cut), rest.flatten());
            lemma_solid_around_space(t, cut);
        } else {
            let rest = wrap(t.skip(max), max);
            lemma_wrap_solid(t.skip(max), max);
            lemma_flatten_concat(seq![t.take(max)], rest);
            seq![t.take(max)].lemma_flatten_one_element();
            lemma_solid_concat(t.take(max), rest.flatten());
            assert(t =~= t.take(max) + t.skip(max));
            lemma_solid_concat(t.take(max), t.skip(max));
        }
    }
}

/// Wrapping loses and repeats no character but white space: the characters
/// of the lines that are not white space are those of the text, in order,
/// whatever the limit and wherever a long word was cut.
pub proof fn lemma_wrap_keeps_characters(text: Seq<char>, max: int)
    ensures
        solid(wrap_lines(text, max).flatten()) == solid(text),
{
    lemma_wrap_solid(drop_trailing_spaces(text), max);
    lemma_solid_trailing(text);
}

proof fn lemma_collapse_open_end(s: Seq<char>)
    requires
        s.len() > 0,
        !is_space(s.last()),
    ensures
        collapse(s).len() > 0,
{
}

proof fn lemma_collapse_around_space(a: Seq<char>, w: char, b: Seq<char>)
    requires
        is_space(w),
    ensures
        collapse(a + seq![w] + b) == glue(collapse(a), collapse(b)),
    decreases b.len(),
{
    let s = a + seq![w] + b;
    if b.len() == 0 {
        assert(s.drop_last() =~= a);
    } else {
        let shorter = a + seq![w] + b.drop_last();
        assert(s.drop_last() =~= shorter);
        lemma_collapse_around_space(a, w, b.drop_last());
        let ca = collapse(a);
        let cb = collapse(b.drop_last());
        let c = b.last();
        assert(s.last() == c);
        if !is_space(c) {
            if b.len() == 1 {
                assert(s[s.len() - 2] == w);
                assert(b.drop_last() =~= Seq::<char>::empty());
                assert(collapse(b) =~= seq![c]);
                assert(collapse(s) =~= glue(ca, collapse(b)));
            } else {
                assert(s[s.len() - 2] == b[b.len() - 2]);
                if is_space(b[b.len() - 2]) {
                    assert(collapse(s) =~= glue(ca, collapse(b)));
                } else {
                    lemma_collapse_open_end(b.drop_last());
                    assert(collapse(s) =~= glue(ca, collapse(b)));
                }
            }
        }
    }
}

proof fn lemma_last_space_of_suffix(s: Seq<char>, k: int, n: int)
    requires
        0 <= k,
        0 <= n,
        k + n <= s.len(),
    ensures
        last_space(s.skip(k), n) == if last_space(s, n + k) >= k {
            last_space(s, n + k) - k
        } else {
            -1
        },
    decreases n,
{
    lemma_last_space_bounds(s, k);
    if n > 0 {
        assert(s.skip(k)[n - 1] == s[n + k - 1]);
        if !is_space(s[n + k - 1]) {
            lemma_last_space_of_suffix(s, k, n - 1);
        }
    } else {
        lemma_last_space_bounds(s, n + k);
    }
}

proof fn lemma_words_fit_suffix(s: Seq<char>, max: int, k: int)
    requires
        words_fit(s, max),
        0 <= max,
        0 <= k <= s.len(),
    ensures
        words_fit(s.skip(k), max),
{
    assert forall|n: int| max < n <= s.skip(k).len() implies #[trigger] last_space(s.skip(k), n)
        >= n - max - 1 by {
        lemma_last_space_of_suffix(s, k, n);
        assert(last_space(s, n + k) >= n + k - max - 1);
    }
}

proof fn lemma_words_fit_trailing(s: Seq<char>, max: int)
    requires
        words_fit(s, max),
        0 <= max,
    ensures
        words_fit(drop_trailing_spaces(s), max),
    decreases s.len(),
{
    if s.len() > 0 && is_space(s.last()) {
        let shorter = s.drop_last();
        assert forall|n: int| max < n <= shorter.len() implies #[trigger] last_space(shorter, n)
            >= n - max - 1 by {
            lemma_last_space_of_prefix(s, s.len() - 1, n);
            assert(s.take(s.len() - 1) =~= shorter);
            assert(last_space(s, n) >= n - max - 1);
        }
        lemma_words_fit_trailing(shorter, max);
    }
}

proof fn lemma_last_space_of_prefix(s: Seq<char>, k: int, n: int)
    requires
        0 <= n <= k <= s.len(),
    ensures
        last_space(s.take(k), n) == last_space(s, n),
    decreases n,
{
    if n > 0 {
        assert(s.take(k)[n - 1] == s[n - 1]);
        lemma_last_space_of_prefix(s, k, n - 1);
    }
}

proof fn lemma_collapse_trailing(s: Seq<char>)
    ensures
        collapse(drop_trailing_spaces(s)) == collapse(s),
    decreases s.len(),
{
    if s.len() > 0 && is_space(s.last()) {
        lemma_collapse_trailing(s.drop_last());
    }
}

proof fn lemma_collapse_leading(s: Seq<char>)
    requires
        s.len() > 0,
        is_space(s[0]),
    ensures
        collapse(s) == collapse(s.skip(1)),
{
    assert(s =~= Seq::<char>::empty() + seq![s[0]] + s.skip(1));
    lemma_collapse_around_space(Seq::empty(), s[0], s.skip(1));
}

proof fn lemma_collapse_split(s: Seq<char>, i: int)
    requires
        0 <= i < s.len(),
        is_space(s[i]),
    ensures
        collapse(s) == glue(collapse(s.take(i)), collapse(s.skip(i + 1))),
{
    assert(s =~= s.take(i) + seq![s[i]] + s.skip(i + 1));
    lemma_collapse_around_space(s.take(i), s[i], s.skip(i + 1));
}

proof fn lemma_collapse_join(first: Seq<char>, rest: Seq<Seq<char>>)
    ensures
        collapse(join(seq![first] + rest)) == glue(collapse(first), collapse(join(rest))),
{
    let lines = seq![first] + rest;
    if rest.len() == 0 {
        assert(lines =~= seq![first]);
    } else {
        assert(lines.skip(1) =~= rest);
        assert(is_space(' '));
        lemma_collapse_around_space(first, ' ', join(rest));
    }
}

proof fn lemma_wrap_collapse(t: Seq<char>, max: int)
    requires
        max > 0,
        words_fit(t, max),
    ensures
        collapse(join(wrap(t, max))) == collapse(t),
    decreases t.len(),
{
    if t.len() == 0 {
    } else if is_space(t[0]) {
        lemma_words_fit_suffix(t, max, 1);
        lemma_wrap_collapse(t.skip(1), max);
        lemma_collapse_leading(t);
    } else if t.len() <= max {
    } else {
        let cut = last_space(t, max);
        lemma_last_space_bounds(t, max);
        if cut >= 0 {
            lemma_words_fit_suffix(t, max, cut + 1);
            lemma_wrap_collapse(t.skip(cut + 1), max);
            lemma_collapse_join(t.take(cut), wrap(t.skip(cut + 1), max));
            lemma_collapse_split(t, cut);
        } else {
            assert(last_space(t, max + 1) >= 0);
            assert(is_space(t[max]));
            lemma_words_fit_suffix(t, max, max);
            lemma_wrap_collapse(t.skip(max), max);
            lemma_collapse_join(t.take(max), wrap(t.skip(max), max));
            lemma_collapse_split(t, max);
            lemma_collapse_leading(t.skip(max));
            assert(t.skip(max).skip(1) =~= t.skip(max + 1));
        }
    }
}

/// Where no word is longer than the limit, the lines joined by single
/// spaces read as the text does once white space is collapsed.
pub proof fn lemma_wrap_keeps_words(text: Seq<char>, max: int)
    requires
        max > 0,
        words_fit(text, max),
    ensures
        collapse(join(wrap_lines(text, max))) == collapse(text),
{
    lemma_words_fit_trailing(text, max);
    lemma_wrap_collapse(drop_trailing_spaces(text), max);
    lemma_collapse_trailing(text);
}

/// Every white-space character of `s` is a single space between two
/// words.
pub open spec fn single_spaced(s: Seq<char>) -> bool {
    forall|i: int|
        0 <= i < s.len() && is_space(#[trigger] s[i]) ==> s[i] == ' ' && 0 < i < s.len() - 1
            && !is_space(s[i + 1])
}

proof fn lemma_collapse_spaced(s: Seq<char>)
    requires
        s.len() > 0 ==> !is_space(s[0]),
        forall|i: int|
            0 <= i < s.len() && is_space(#[trigger] s[i]) ==> s[i] == ' ' && (i + 1 < s.len()
                ==> !is_space(s[i + 1])),
    ensures
        collapse(s) == if s.len() > 0 && is_space(s.last()) {
            s.drop_last()
        } else {
            s
        },
    decreases s.len(),
{
    if s.len() > 0 {
        let r = s.drop_last();
        assert forall|i: int| 0 <= i < r.len() && is_space(#[trigger] r[i]) implies r[i] == ' ' && (
        i + 1 < r.len() ==> !is_space(r[i + 1])) by {
            assert(r[i] == s[i]);
        }
        lemma_collapse_spaced(r);
        if r.len() > 0 {
            assert(r.last() == s[s.len() - 2]);
            assert(r[0] == s[0]);
        }
        if is_space(s.last()) {
        } else if r.len() > 0 && is_space(r.last()) {
            assert(collapse(s) =~= s);
        } else {
            assert(collapse(s) =~= s);
        }
    }
}

/// Collapsing white space leaves a single-spaced text as it is.
pub proof fn lemma_collapse_single_spaced(s: Seq<char>)
    requires
        single_spaced(s),
    ensures
        collapse(s) == s,
{
    lemma_collapse_spaced(s);
}

proof fn lemma_wrap_join(t: Seq<char>, max: int)
    requires
        max > 0,
        words_fit(t, max),
        single_spaced(t),
    ensures
        join(wrap(t, max)) == t,
    decreases t.len(),
{
    if t.len() == 0 {
    } else if t.len() <= max {
    } else {
        let cut = last_space(t, max);
        lemma_last_space_bounds(t, max);
        let at = if cut >= 0 {
            cut
        } else {
            max
        };
        if cut < 0 {
            assert(last_space(t, max + 1) >= 0);
        }
        assert(is_space(t[at]));
        let rest = t.skip(at + 1);
        assert forall|i: int| 0 <= i < rest.len() && is_space(#[trigger] rest[i]) implies rest[i]
            == ' ' && 0 < i < rest.len() - 1 && !is_space(rest[i + 1]) by {
            assert(rest[i] == t[i + at + 1]);
        }
        lemma_words_fit_suffix(t, max, at + 1);
        lemma_wrap_join(rest, max);
        assert(rest[0] == t[at + 1]);
        assert(wrap(rest, max).len() > 0);
        let tail = if cut >= 0 {
            wrap(t.skip(cut + 1), max)
        } else {
            wrap(t.skip(max), max)
        };
        if cut < 0 {
            assert(t.skip(max).skip(1) =~= rest);
        }
        assert(tail == wrap(rest, max));
        let lines = seq![t.take(at)] + tail;
        assert(lines.skip(1) =~= tail);
        assert(t =~= t.take(at) + seq![' '] + rest);
    }
}

/// Where no word is longer than the limit, the lines of a single-spaced
/// text joined by single spaces are the text itself.
pub proof fn lemma_wrap_rejoins(text: Seq<char>, max: int)
    requires
        max > 0,
        words_fit(text, max),
        single_spaced(text),
    ensures
        join(wrap_lines(text, max)) == text,
        join(wrap_lines(text, max)) == collapse(text),
{
    lemma_wrap_join(text, max);
    lemma_collapse_single_spaced(text);
}

proof fn lemma_join_collapsed(lines: Seq<Seq<char>>)
    requires
        forall|i: int| 0 <= i < lines.len() ==> (#[trigger] lines[i]).len() > 0,
        forall|i: int| 0 <= i < lines.len() ==> collapse(#[trigger] lines[i]) == lines[i],
    ensures
        collapse(join(lines)) == join(lines),
        lines.len() > 0 ==> join(lines).len() > 0,
    decreases lines.len(),
{
    if lines.len() > 0 {
        let rest = lines.skip(1);
        assert forall|i: int| 0 <= i < rest.len() implies (#[trigger] rest[i]).len() > 0
            && collapse(rest[i]) == rest[i] by {
            assert(rest[i] == lines[i + 1]);
        }
        lemma_join_collapsed(rest);
        assert(lines =~= seq![lines[0]] + rest);
        lemma_collapse_join(lines[0], rest);
    }
}

/// Where no word is longer than the limit and no line holds white space
/// other than single spaces between its words, the lines joined by single
/// spaces are the text with its white space collapsed.
pub proof fn lemma_wrap_rejoins_collapsed(text: Seq<char>, max: int)
    requires
        max > 0,
        words_fit(text, max),
        forall|i: int|
            0 <= i < wrap_lines(text, max).len() ==> collapse(#[trigger] wrap_lines(text, max)[i])
                == wrap_lines(text, max)[i],
    ensures
        join(wrap_lines(text, max)) == collapse(text),
{
    let lines = wrap_lines(text, max);
    assert forall|i: int| 0 <= i < lines.len() implies (#[trigger] lines[i]).len() > 0 by {
        crate::wrap::lemma_wrap_line_shape(text, max, i);
    }
    lemma_join_collapsed(lines);
    lemma_wrap_keeps_words(text, max);
}

} // verus!
