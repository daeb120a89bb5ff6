//! Naive analysis of a text: its most frequent words and its longest
//! sentences.

use crate::text::{chars_of, is_space, is_whitespace, push_char, string_of, trim, trimmed};
use vstd::prelude::*;
use vstd::utf8::encode_utf8;

verus! {

/// The lower-case form of a text, as the standard library gives it.
pub uninterp spec fn lowercase_of(s: Seq<char>) -> Seq<char>;

/// Whether a character is a letter or a number, as the standard library
/// has it.
pub uninterp spec fn alphanumeric(c: char) -> bool;

/// `str::to_lowercase`: the result is the lower-case form of the argument.
/// Nothing more is claimed of it than that it depends on the argument
/// alone.
#[verifier::external_body]
fn to_lowercase(s: &str) -> (r: String)
    ensures
        r@ == lowercase_of(s@),
{
    s.to_lowercase()
}

/// `char::is_alphanumeric`: the result is the character's class.  Nothing
/// more is claimed of it than that it depends on the character alone.
#[verifier::external_body]
fn is_alphanumeric(c: char) -> (b: bool)
    ensures
        b == alphanumeric(c),
{
    c.is_alphanumeric()
}

/// What becomes of `c`, given whether it is a letter or a number: a
/// character that is neither that nor white space becomes a space.
pub open spec fn scrub_as(c: char, letter_or_number: bool) -> char {
    if !letter_or_number && !is_space(c) {
        ' '
    } else {
        c
    }
}

/// What becomes of `c` in a scrubbed text.
pub open spec fn scrub(c: char) -> char {
    scrub_as(c, alphanumeric(c))
}

/// The text with every character scrubbed.
pub open spec fn scrubbed(s: Seq<char>) -> Seq<char> {
    s.map_values(|c: char| scrub(c))
}

/// The words of `s`: its longest runs of characters that are not white
/// space, in order.
pub open spec fn words(s: Seq<char>) -> Seq<Seq<char>>
    decreases s.len(),
{
    if s.len() == 0 {
        Seq::empty()
    } else {
        let before = words(s.drop_last());
        let c = s.last();
        if is_space(c) {
            before
        } else if s.len() >= 2 && !is_space(s[s.len() - 2]) {
            before.drop_last().push(before.last().push(c))
        } else {
            before.push(seq![c])
        }
    }
}

/// The length of `s` in bytes.
pub open spec fn byte_len(s: Seq<char>) -> usize {
    encode_utf8(s).len() as usize
}

/// A word counts where it is longer than three bytes.
pub open spec fn is_long(w: Seq<char>) -> bool {
    byte_len(w) > 3
}

/// Where `w` stands among the entries, or -1.
pub open spec fn position(entries: Seq<(Seq<char>, int)>, w: Seq<char>) -> int
    decreases entries.len(),
{
    if entries.len() == 0 {
        -1
    } else {
        let p = position(entries.drop_last(), w);
        if p >= 0 {
            p
        } else if entries.last().0 == w {
            entries.len() - 1
        } else {
            -1
        }
    }
}

/// The entries after one more occurrence of `w`: its count goes up by
/// one, or it is entered behind the others with a count of one.
pub open spec fn bump(entries: Seq<(Seq<char>, int)>, w: Seq<char>) -> Seq<(Seq<char>, int)> {
    let p = position(entries, w);
    if p >= 0 {
        entries.update(p, (w, entries[p].1 + 1))
    } else {
        entries.push((w, 1))
    }
}

/// Each long word with the number of times it occurs, in the order in
/// which the words are first seen.
pub open spec fn tally(ws: Seq<Seq<char>>) -> Seq<(Seq<char>, int)>
    decreases ws.len(),
{
    if ws.len() == 0 {
        Seq::empty()
    } else if is_long(ws.last()) {
        bump(tally(ws.drop_last()), ws.last())
    } else {
        tally(ws.drop_last())
    }
}

/// The index of the first item whose number is the greatest.
pub open spec fn first_max(items: Seq<(Seq<char>, int)>) -> int
    decreases items.len(),
{
    if items.len() <= 1 {
        0
    } else {
        let b = first_max(items.drop_last());
        if items.last().1 > items[b].1 {
            items.len() - 1
        } else {
            b
        }
    }
}

/// The texts of the `k` items with the greatest numbers, greatest first;
/// of two items with the same number the earlier comes first.
pub open spec fn top(items: Seq<(Seq<char>, int)>, k: nat) -> Seq<Seq<char>>
    decreases k,
{
    if k == 0 || items.len() == 0 {
        Seq::empty()
    } else {
        let b = first_max(items);
        seq![items[b].0] + top(items.remove(b), (k - 1) as nat)
    }
}

/// The five most frequent long words of a scrubbed text.
pub open spec fn keywords_in(cleaned: Seq<char>) -> Seq<Seq<char>> {
    top(tally(words(cleaned)), 5)
}

/// Whether `c` ends a sentence.
pub open spec fn is_mark(c: char) -> bool {
    c == '.' || c == '!' || c == '?'
}

/// What stands between the sentence marks of `s`: one piece more than
/// there are marks.
pub open spec fn pieces(s: Seq<char>) -> Seq<Seq<char>>
    decreases s.len(),
{
    if s.len() == 0 {
        seq![Seq::empty()]
    } else {
        let before = pieces(s.drop_last());
        let c = s.last();
        if is_mark(c) {
            before.push(Seq::empty())
        } else {
            before.drop_last().push(before.last().push(c))
        }
    }
}

/// Each text with its length in bytes.
pub open spec fn measured(texts: Seq<Seq<char>>) -> Seq<(Seq<char>, int)> {
    texts.map_values(|t: Seq<char>| (t, byte_len(t) as int))
}

/// The three longest pieces of `text`, longest first, each trimmed.
pub open spec fn summary_of(text: Seq<char>) -> Seq<Seq<char>> {
    top(measured(pieces(text)), 3).map_values(|t: Seq<char>| trimmed(t))
}

/// The entries as mathematical values.
pub open spec fn pairs(items: Seq<(String, usize)>) -> Seq<(Seq<char>, int)> {
    items.map_values(|p: (String, usize)| (p.0@, p.1 as int))
}

/// The first maximum is in range, no number is greater, and every number
/// before it is smaller.
pub proof fn lemma_first_max(items: Seq<(Seq<char>, int)>)
    requires
        items.len() > 0,
    ensures
        0 <= first_max(items) < items.len(),
        forall|i: int|
            0 <= i < items.len() ==> (#[trigger] items[i]).1 <= items[first_max(items)].1,
        forall|i: int|
            0 <= i < first_max(items) ==> (#[trigger] items[i]).1 < items[first_max(items)].1,
    decreases items.len(),
{
    if items.len() > 1 {
        let r = items.drop_last();
        lemma_first_max(r);
        assert forall|i: int| 0 <= i < items.len() implies (#[trigger] items[i]).1 <= items[first_max(
            items,
        )].1 by {
            if i < r.len() {
                assert(r[i] == items[i]);
            }
        }
        assert forall|i: int| 0 <= i < first_max(items) implies (#[trigger] items[i]).1
            < items[first_max(items)].1 by {
            assert(r[i] == items[i]);
        }
    }
}

/// Scrubs one character, given whether it is a letter or a number.
pub fn scrub_char(c: char, letter_or_number: bool) -> (r: char)
    ensures
        r == scrub_as(c, letter_or_number),
{
    if !letter_or_number && !is_whitespace(c) {
        ' '
    } else {
        c
    }
}

/// As many texts are taken as are asked for, or all where there are
/// fewer.
pub proof fn lemma_top_len(items: Seq<(Seq<char>, int)>, k: nat)
    ensures
        top(items, k).len() == if k <= items.len() {
            k
        } else {
            items.len()
        },
    decreases k,
{
    if k > 0 && items.len() > 0 {
        lemma_first_max(items);
        lemma_top_len(items.remove(first_max(items)), (k - 1) as nat);
    }
}

/// A text has at least one piece.
pub proof fn lemma_pieces_len(s: Seq<char>)
    ensures
        pieces(s).len() >= 1,
    decreases s.len(),
{
    if s.len() > 0 {
        lemma_pieces_len(s.drop_last());
    }
}

/// The text with every character that is neither a letter, a number nor
/// white space replaced by a space.
pub fn scrub_text(text: &str) -> (r: String)
    ensures
        r@ == scrubbed(text@),
{
    let mut r = String::new();
    for c in it: text.chars()
        invariant
            it.seq() == text@,
            r@ == scrubbed(text@.take(it.index() as int)),
    {
        let ghost read = text@.take(it.index() as int);
        assert(text@.take(it.index() + 1) =~= read.push(c));
        assert(scrubbed(read.push(c)) =~= scrubbed(read).push(scrub(c)));
        push_char(&mut r, scrub_char(c, is_alphanumeric(c)));
    }
    assert(text@.take(text@.len() as int) =~= text@);
    r
}

/// The words of `text`, in order.
pub fn split_words(text: &str) -> (out: Vec<String>)
    ensures
        out.deep_view() == words(text@),
{
    let chars = chars_of(text);
    let mut out: Vec<String> = Vec::new();
    let mut start: usize = 0;
    let mut in_word = false;
    let mut i: usize = 0;
    assert(chars@.take(0) =~= Seq::<char>::empty());
    assert(out.deep_view() =~= Seq::<Seq<char>>::empty());
    while i < chars.len()
        invariant
            i <= chars.len(),
            chars@ == text@,
            in_word <==> (i > 0 && !is_space(chars@[i - 1])),
            in_word ==> start < i && words(chars@.take(i as int)) == out.deep_view().push(
                chars@.subrange(start as int, i as int),
            ),
            !in_word ==> words(chars@.take(i as int)) == out.deep_view(),
        decreases chars.len() - i,
    {
        let ghost done = out.deep_view();
        let ghost next = chars@.take(i + 1);
        assert(next.drop_last() =~= chars@.take(i as int));
        if is_whitespace(chars[i]) {
            if in_word {
                let word = string_of(&chars, start, i);
                out.push(word);
                assert(out.deep_view() =~= done.push(chars@.subrange(start as int, i as int)));
                in_word = false;
            }
        } else {
            if in_word {
                let ghost so_far = done.push(chars@.subrange(start as int, i as int));
                assert(so_far.drop_last() =~= done);
                assert(chars@.subrange(start as int, i as int).push(chars@[i as int])
                    =~= chars@.subrange(start as int, i + 1));
            } else {
                start = i;
                in_word = true;
                assert(seq![chars@[i as int]] =~= chars@.subrange(i as int, i + 1));
            }
        }
        i += 1;
    }
    assert(chars@.take(i as int) =~= chars@);
    if in_word {
        let ghost done = out.deep_view();
        let word = string_of(&chars, start, i);
        out.push(word);
        assert(out.deep_view() =~= done.push(chars@.subrange(start as int, i as int)));
    }
    out
}

/// The pieces of `text` between its sentence marks, in order.
pub fn split_sentences(text: &str) -> (out: Vec<String>)
    ensures
        out.deep_view() == pieces(text@),
{
    let chars = chars_of(text);
    let mut out: Vec<String> = Vec::new();
    let mut start: usize = 0;
    let mut i: usize = 0;
    assert(chars@.take(0) =~= Seq::<char>::empty());
    assert(out.deep_view().push(chars@.subrange(0, 0)) =~= seq![Seq::<char>::empty()]);
    while i < chars.len()
        invariant
            start <= i <= chars.len(),
            chars@ == text@,
            pieces(chars@.take(i as int)) == out.deep_view().push(
                chars@.subrange(start as int, i as int),
            ),
        decreases chars.len() - i,
    {
        let ghost done = out.deep_view();
        let ghost next = chars@.take(i + 1);
        let ghost so_far = done.push(chars@.subrange(start as int, i as int));
        assert(next.drop_last() =~= chars@.take(i as int));
        assert(so_far.drop_last() =~= done);
        let c = chars[i];
        if c == '.' || c == '!' || c == '?' {
            let piece = string_of(&chars, start, i);
            out.push(piece);
            assert(out.deep_view() =~= so_far);
            start = i + 1;
            assert(chars@.subrange(start as int, i + 1) =~= Seq::<char>::empty());
        } else {
            assert(chars@.subrange(start as int, i as int).push(c) =~= chars@.subrange(
                start as int,
                i + 1,
            ));
        }
        i += 1;
    }
    assert(chars@.take(i as int) =~= chars@);
    let ghost done = out.deep_view();
    let piece = string_of(&chars, start, i);
    out.push(piece);
    assert(out.deep_view() =~= done.push(chars@.subrange(start as int, i as int)));
    out
}

/// Counts the long words, in the order in which they are first seen.
pub fn count_words(ws: &Vec<String>) -> (entries: Vec<(String, usize)>)
    ensures
        pairs(entries@) == tally(ws.deep_view()),
{
    let mut entries: Vec<(String, usize)> = Vec::new();
    let ghost all = ws.deep_view();
    let mut i: usize = 0;
    assert(all.take(0) =~= Seq::<Seq<char>>::empty());
    assert(pairs(entries@) =~= Seq::<(Seq<char>, int)>::empty());
    while i < ws.len()
        invariant
            i <= ws.len(),
            all == ws.deep_view(),
            pairs(entries@) == tally(all.take(i as int)),
            forall|j: int| 0 <= j < entries.len() ==> (#[trigger] entries[j]).1 <= i,
        decreases ws.len() - i,
    {
        let ghost before = pairs(entries@);
        let ghost w = ws[i as int]@;
        assert(all.take(i + 1).drop_last() =~= all.take(i as int));
        assert(all.take(i + 1).last() == w);
        if ws[i].as_str().len() > 3 {
            let mut found: Option<usize> = None;
            let mut j: usize = 0;
            assert(before.take(0) =~= Seq::<(Seq<char>, int)>::empty());
            while j < entries.len() && found.is_none()
                invariant
                    j <= entries.len(),
                    i < ws.len(),
                    w == ws[i as int]@,
                    before == pairs(entries@),
                    found is None ==> position(before.take(j as int), w) == -1,
                    found matches Some(p) ==> p < entries.len() && position(before, w) == p
                        && before[p as int].0 == w,
                decreases
                        entries.len() - j + if found is None {
                            1int
                        } else {
                            0int
                        },
            {
                assert(before.take(j + 1).drop_last() =~= before.take(j as int));
                assert(before.take(j + 1).last() == before[j as int]);
                if entries[j].0 == ws[i] {
                    found = Some(j);
                    proof {
                        lemma_position_prefix(before, w, j + 1);
                    }
                } else {
                    j += 1;
                }
            }
            match found {
                Some(p) => {
                    let n: usize = entries[p].1 + 1;
                    entries[p].1 = n;
                    assert(pairs(entries@) =~= before.update(p as int, (w, before[p as int].1 + 1)));
                },
                None => {
                    assert(before.take(j as int) =~= before);
                    entries.push((ws[i].clone(), 1));
                    assert(pairs(entries@) =~= before.push((w, 1int)));
                },
            }
        }
        i += 1;
    }
    assert(all.take(i as int) =~= all);
    entries
}

proof fn lemma_position_prefix(entries: Seq<(Seq<char>, int)>, w: Seq<char>, n: int)
    requires
        0 <= n <= entries.len(),
        position(entries.take(n), w) >= 0,
    ensures
        position(entries, w) == position(entries.take(n), w),
    decreases entries.len() - n,
{
    if n < entries.len() {
        assert(entries.take(n + 1).drop_last() =~= entries.take(n));
        lemma_position_prefix(entries, w, n + 1);
    } else {
        assert(entries.take(n) =~= entries);
    }
}

/// Takes the texts of the `k` items with the greatest numbers, greatest
/// first and the earlier first among equals.
pub fn take_top(items: Vec<(String, usize)>, k: usize) -> (out: Vec<String>)
    ensures
        out.deep_view() == top(pairs(items@), k as nat),
{
    let mut items = items;
    let ghost all = pairs(items@);
    let mut out: Vec<String> = Vec::new();
    assert(out.deep_view() =~= Seq::<Seq<char>>::empty());
    while out.len() < k && items.len() > 0
        invariant
            out.len() <= k,
            out.deep_view() + top(pairs(items@), (k - out.len()) as nat) == top(all, k as nat),
        decreases k - out.len(),
    {
        let ghost rest = pairs(items@);
        let ghost done = out.deep_view();
        let mut best: usize = 0;
        let mut j: usize = 1;
        assert(rest.take(1).drop_last() =~= rest.take(0));
        while j < items.len()
            invariant
                1 <= j <= items.len(),
                rest == pairs(items@),
                best < j,
                best == first_max(rest.take(j as int)),
            decreases items.len() - j,
        {
            assert(rest.take(j + 1).drop_last() =~= rest.take(j as int));
            assert(rest.take(j + 1).last() == rest[j as int]);
            assert(rest.take(j as int)[best as int] == rest[best as int]);
            if items[j].1 > items[best].1 {
                best = j;
            }
            j += 1;
        }
        assert(rest.take(j as int) =~= rest);
        let picked = items.remove(best);
        assert(pairs(items@) =~= rest.remove(best as int));
        out.push(picked.0);
        assert(out.deep_view() =~= done.push(rest[best as int].0));
        assert(done + (seq![rest[best as int].0] + top(
            rest.remove(best as int),
            (k - out.len()) as nat,
        )) =~= done.push(rest[best as int].0) + top(
            rest.remove(best as int),
            (k - out.len()) as nat,
        ));
    }
    assert(out.deep_view() + Seq::<Seq<char>>::empty() =~= out.deep_view());
    out
}

/// The five most frequent long words of a scrubbed text, most frequent
/// first; of two words that occur equally often the one first seen comes
/// first.
pub fn top_keywords(cleaned: &str) -> (keywords: Vec<String>)
    ensures
        keywords.deep_view() == keywords_in(cleaned@),
{
    let ws = split_words(cleaned);
    let entries = count_words(&ws);
    take_top(entries, 5)
}

/// The three longest pieces between the sentence marks of `text`, longest
/// first and the earlier first among equals, each trimmed.
pub fn top_sentences(text: &str) -> (summary: Vec<String>)
    ensures
        summary.deep_view() == summary_of(text@),
{
    let ps = split_sentences(text);
    let ghost all = ps.deep_view();
    let mut items: Vec<(String, usize)> = Vec::new();
    let mut i: usize = 0;
    assert(pairs(items@) =~= measured(all.take(0)));
    while i < ps.len()
        invariant
            i <= ps.len(),
            all == ps.deep_view(),
            pairs(items@) == measured(all.take(i as int)),
        decreases ps.len() - i,
    {
        let ghost before = pairs(items@);
        let n: usize = ps[i].as_str().len();
        items.push((ps[i].clone(), n));
        assert(pairs(items@) =~= before.push((ps[i as int]@, n as int)));
        assert(measured(all.take(i + 1)) =~= measured(all.take(i as int)).push(
            (all[i as int], byte_len(all[i as int]) as int),
        ));
        i += 1;
    }
    assert(all.take(i as int) =~= all);
    let longest = take_top(items, 3);
    let ghost chosen = longest.deep_view();
    let mut summary: Vec<String> = Vec::new();
    let mut j: usize = 0;
    while j < longest.len()
        invariant
            j <= longest.len(),
            chosen == longest.deep_view(),
            summary.len() == j,
            forall|m: int| 0 <= m < j ==> (#[trigger] summary[m])@ == trimmed(chosen[m]),
        decreases longest.len() - j,
    {
        summary.push(trim(longest[j].as_str()));
        j += 1;
    }
    assert(summary.deep_view() =~= chosen.map_values(|t: Seq<char>| trimmed(t)));
    summary
}

/// The keywords and the summary of a text.
///
/// The keywords are the five most frequent long words of the text in lower
/// case, scrubbed of all but letters, numbers and white space.  The summary
/// is made of its three longest sentences.
pub fn summarize(text: &str) -> (r: (Vec<String>, Vec<String>))
    ensures
        r.0.deep_view() == keywords_in(scrubbed(lowercase_of(text@))),
        r.1.deep_view() == summary_of(text@),
        r.0.len() <= 5,
        1 <= r.1.len() <= 3,
{
    proof {
        lemma_top_len(tally(words(scrubbed(lowercase_of(text@)))), 5);
        lemma_top_len(measured(pieces(text@)), 3);
        lemma_pieces_len(text@);
    }
    let lowered = to_lowercase(text);
    let cleaned = scrub_text(lowered.as_str());
    let keywords = top_keywords(cleaned.as_str());
    let summary = top_sentences(text);
    assert(keywords.deep_view().len() == keywords.len());
    assert(summary.deep_view().len() == summary.len());
    assert(measured(pieces(text@)).len() == pieces(text@).len());
    (keywords, summary)
}

} // verus!
