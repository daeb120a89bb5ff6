//! The line wrapper: a text is cut into lines of a limited number of
//! characters, at white space where it can be and within a word where it
//! must.

use crate::geometry::ConfigurationError;
use crate::text::{
    chars_of, drop_trailing_spaces, is_space, is_whitespace, lemma_trailing_spaces, string_of,
};
use vstd::prelude::*;

verus! {

/// The index of the last white-space character among the first `n`
/// characters of `s`, or -1 if there is none.
pub open spec fn last_space(s: Seq<char>, n: int) -> int
    decreases n,
{
    if n <= 0 {
        -1
    } else if is_space(s[n - 1]) {
        n - 1
    } else {
        last_space(s, n - 1)
    }
}

/// The last white space among the first `n` characters lies among them.
pub proof fn lemma_last_space_bounds(s: Seq<char>, n: int)
    ensures
        -1 <= last_space(s, n),
        n > 0 ==> last_space(s, n) < n,
        last_space(s, n) >= 0 ==> is_space(s[last_space(s, n)]),
        forall|i: int| last_space(s, n) < i < n ==> !is_space(#[trigger] s[i]),
    decreases n,
{
    if n > 0 && !is_space(s[n - 1]) {
        lemma_last_space_bounds(s, n - 1);
    }
}

/// Greedy wrapping of `t` into lines of at most `max` characters.
///
/// White space at the start of what is left is skipped.  Text that fits is
/// one line.  Otherwise the line ends before the last white space among the
/// first `max` characters, which is dropped; where there is none, the line
/// is the first `max` characters.  Without a positive limit nothing is
/// wrapped.
pub open spec fn wrap(t: Seq<char>, max: int) -> Seq<Seq<char>>
    decreases t.len(),
{
    if t.len() == 0 {
        Seq::empty()
    } else if is_space(t[0]) {
        wrap(t.skip(1), max)
    } else if t.len() <= max || max <= 0 {
        seq![t]
    } else {
        let cut = last_space(t, max);
        if cut >= 0 {
            proof {
                lemma_last_space_bounds(t, max);
            }
            seq![t.take(cut)] + wrap(t.skip(cut + 1), max)
        } else {
            seq![t.take(max)] + wrap(t.skip(max), max)
        }
    }
}

/// The lines of `text` on a page that holds `max` characters per line:
/// the text is trimmed at both ends and wrapped.
pub open spec fn wrap_lines(text: Seq<char>, max: int) -> Seq<Seq<char>> {
    wrap(drop_trailing_spaces(text), max)
}

proof fn lemma_wrap_shape(t: Seq<char>, max: int, i: int)
    requires
        max > 0,
        0 <= i < wrap(t, max).len(),
    ensures
        0 < wrap(t, max)[i].len() <= max,
        !is_space(wrap(t, max)[i][0]),
    decreases t.len(),
{
    if t.len() == 0 {
    } else if is_space(t[0]) {
        lemma_wrap_shape(t.skip(1), max, i);
    } else if t.len() <= max {
    } else {
        let cut = last_space(t, max);
        lemma_last_space_bounds(t, max);
        if cut >= 0 {
            if i > 0 {
                lemma_wrap_shape(t.skip(cut + 1), max, i - 1);
            }
        } else {
            if i > 0 {
                lemma_wrap_shape(t.skip(max), max, i - 1);
            }
        }
    }
}

/// No line is empty, none is longer than the limit, and each starts with
/// a character that is not white space.
pub proof fn lemma_wrap_line_shape(text: Seq<char>, max: int, i: int)
    requires
        max > 0,
        0 <= i < wrap_lines(text, max).len(),
    ensures
        0 < wrap_lines(text, max)[i].len() <= max,
        !is_space(wrap_lines(text, max)[i][0]),
{
    lemma_wrap_shape(drop_trailing_spaces(text), max, i);
}

proof fn lemma_wrap_blank(t: Seq<char>, max: int)
    ensures
        wrap(t, max).len() == 0 <==> forall|i: int| 0 <= i < t.len() ==> is_space(t[i]),
    decreases t.len(),
{
    if t.len() == 0 {
    } else if is_space(t[0]) {
        lemma_wrap_blank(t.skip(1), max);
        if wrap(t, max).len() == 0 {
            assert forall|i: int| 0 <= i < t.len() implies is_space(t[i]) by {
                if i > 0 {
                    assert(t.skip(1)[i - 1] == t[i]);
                }
            }
        } else {
            let j = choose|j: int| 0 <= j < t.skip(1).len() && !is_space(t.skip(1)[j]);
            assert(!is_space(t[j + 1]));
        }
    } else {
        if max > 0 && t.len() > max {
            lemma_last_space_bounds(t, max);
        }
    }
}

proof fn lemma_trailing_prefix(s: Seq<char>)
    ensures
        drop_trailing_spaces(s).len() <= s.len(),
        drop_trailing_spaces(s) == s.take(drop_trailing_spaces(s).len() as int),
        forall|i: int| drop_trailing_spaces(s).len() <= i < s.len() ==> is_space(s[i]),
    decreases s.len(),
{
    if s.len() > 0 && is_space(s.last()) {
        let r = s.drop_last();
        lemma_trailing_prefix(r);
        let n = drop_trailing_spaces(r).len() as int;
        assert(r.take(n) =~= s.take(n));
        assert forall|i: int| n <= i < s.len() implies is_space(s[i]) by {
            if i < s.len() - 1 {
                assert(r[i] == s[i]);
            }
        }
    } else {
        assert(s.take(s.len() as int) =~= s);
    }
}

/// A text gives no line at all exactly when it holds nothing but white
/// space.
pub proof fn lemma_wrap_no_lines(text: Seq<char>, max: int)
    ensures
        wrap_lines(text, max).len() == 0 <==> forall|i: int|
            0 <= i < text.len() ==> is_space(text[i]),
{
    let d = drop_trailing_spaces(text);
    lemma_wrap_blank(d, max);
    lemma_trailing_prefix(text);
    if forall|i: int| 0 <= i < d.len() ==> is_space(d[i]) {
        assert forall|i: int| 0 <= i < text.len() implies is_space(text[i]) by {
            if i < d.len() {
                assert(d[i] == text[i]);
            }
        }
    }
    if forall|i: int| 0 <= i < text.len() ==> is_space(text[i]) {
        assert forall|i: int| 0 <= i < d.len() implies is_space(d[i]) by {
            assert(d[i] == text[i]);
        }
    }
}

proof fn lemma_last_space_found(s: Seq<char>, n: int, j: int)
    requires
        0 <= j <= n <= s.len(),
        forall|i: int| j <= i < n ==> !is_space(s[i]),
    ensures
        last_space(s, n) == last_space(s, j),
    decreases n - j,
{
    if j < n {
        lemma_last_space_found(s, n - 1, j);
    }
}

/// Wraps `text` into lines of at most `max_chars` characters.
///
/// A limit of zero is rejected with `LineTooNarrow`.
pub fn wrap_text(text: &str, max_chars: u64) -> (r: Result<Vec<String>, ConfigurationError>)
    ensures
        match r {
            Ok(lines) => max_chars > 0 && lines.deep_view() == wrap_lines(text@, max_chars as int),
            Err(e) => max_chars == 0 && e == ConfigurationError::LineTooNarrow,
        },
{
    if max_chars == 0 {
        return Err(ConfigurationError::LineTooNarrow);
    }
    let chars = chars_of(text);
    let mut end: usize = chars.len();
    while end > 0 && is_whitespace(chars[end - 1])
        invariant
            end <= chars.len(),
            forall|i: int| end <= i < chars.len() ==> is_space(chars@[i]),
        decreases end,
    {
        end -= 1;
    }
    proof {
        lemma_trailing_spaces(chars@, end as int);
    }
    let ghost body = chars@.take(end as int);
    let ghost max = max_chars as int;
    let mut lines: Vec<String> = Vec::new();
    let mut pos: usize = 0;
    assert(body.subrange(0, end as int) =~= body);
    while pos < end
        invariant
            pos <= end <= chars.len(),
            max == max_chars,
            max > 0,
            body == chars@.take(end as int),
            lines.deep_view() + wrap(body.subrange(pos as int, end as int), max) == wrap(body, max),
        decreases end - pos,
    {
        let ghost rest = body.subrange(pos as int, end as int);
        let ghost done = lines.deep_view();
        if is_whitespace(chars[pos]) {
            assert(rest.skip(1) =~= body.subrange(pos + 1, end as int));
            pos += 1;
        } else if (end - pos) as u64 <= max_chars {
            let line = string_of(&chars, pos, end);
            assert(line@ =~= rest);
            lines.push(line);
            assert(lines.deep_view() =~= done + seq![rest]);
            assert(wrap(rest, max) =~= seq![rest]);
            pos = end;
            assert(body.subrange(pos as int, end as int) =~= Seq::<char>::empty());
        } else {
            let limit: usize = pos + max_chars as usize;
            let mut j: usize = limit;
            while j > pos && !is_whitespace(chars[j - 1])
                invariant
                    pos <= j <= limit <= end <= chars.len(),
                    rest == chars@.take(end as int).subrange(pos as int, end as int),
                    forall|i: int| j - pos <= i < limit - pos ==> !is_space(rest[i]),
                decreases j,
            {
                j -= 1;
            }
            proof {
                lemma_last_space_found(rest, max, j - pos);
            }
            if j > pos {
                let cut: usize = j - 1;
                assert(last_space(rest, max) == cut - pos);
                let line = string_of(&chars, pos, cut);
                assert(line@ =~= rest.take(cut - pos));
                lines.push(line);
                assert(lines.deep_view() =~= done + seq![rest.take(cut - pos)]);
                assert(rest.skip(cut - pos + 1) =~= body.subrange(cut + 1, end as int));
                pos = cut + 1;
                assert(done + (seq![rest.take(cut - pos + 1)] + wrap(
                    body.subrange(pos as int, end as int),
                    max,
                )) =~= (done + seq![rest.take(cut - pos + 1)]) + wrap(
                    body.subrange(pos as int, end as int),
                    max,
                ));
            } else {
                assert(last_space(rest, max) == -1);
                let line = string_of(&chars, pos, limit);
                assert(line@ =~= rest.take(max));
                lines.push(line);
                assert(lines.deep_view() =~= done + seq![rest.take(max)]);
                assert(rest.skip(max) =~= body.subrange(limit as int, end as int));
                pos = limit;
                assert(done + (seq![rest.take(max)] + wrap(
                    body.subrange(pos as int, end as int),
                    max,
                )) =~= (done + seq![rest.take(max)]) + wrap(
                    body.subrange(pos as int, end as int),
                    max,
                ));
            }
        }
    }
    assert(body.subrange(pos as int, end as int) =~= Seq::<char>::empty());
    assert(lines.deep_view() + Seq::<Seq<char>>::empty() =~= lines.deep_view());
    Ok(lines)
}

} // verus!
