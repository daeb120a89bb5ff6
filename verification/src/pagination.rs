//! What holds of every layout: lines stay within the margins, pages are
//! only added, what was placed stays as it is, and a bulleted block carries
//! its bullet once.

use crate::document::{
    advance, block_lines, bullet_prefix, empty_document, has_room, lemma_place_well_formed,
    line_in_margins, lines_descend, next_y, place, place_all, placed, render, render_all, well_formed, BlockView,
    Document, DocumentView, LineView,
};
use crate::geometry::{max_chars, FontWeight, PageGeometry};
use crate::wrap::wrap_lines;
use vstd::prelude::*;
use vstd::seq_lib::lemma_flatten_concat;

verus! {

/// A document with no page is well formed.
pub proof fn lemma_empty_well_formed(g: PageGeometry)
    requires
        g.valid(),
    ensures
        well_formed(empty_document(g)),
{
}

/// Moving the cursor keeps a document well formed and touches no page.
pub proof fn lemma_advance_well_formed(d: DocumentView, gap: int)
    requires
        well_formed(d),
        gap >= 0,
    ensures
        well_formed(advance(d, gap)),
        advance(d, gap).pages == d.pages,
        advance(d, gap).geometry == d.geometry,
{
}

/// Placing a line adds a page exactly when the active page has no room,
/// and leaves at least one page.
pub proof fn lemma_place_pages(d: DocumentView, text: Seq<char>, weight: FontWeight, size: int)
    requires
        well_formed(d),
    ensures
        place(d, text, weight, size).pages.len() == d.pages.len() + if has_room(d) {
            0int
        } else {
            1int
        },
        place(d, text, weight, size).pages.len() >= 1,
        place(d, text, weight, size).cursor == Some(next_y(d) - d.geometry.line_height),
        has_room(d) ==> next_y(d) == d.cursor->0,
        !has_room(d) ==> next_y(d) == d.geometry.top_y(),
{
}

/// Placing lines keeps a document well formed, keeps its geometry, and
/// never takes a page away.
pub proof fn lemma_place_all_well_formed(
    d: DocumentView,
    texts: Seq<Seq<char>>,
    weight: FontWeight,
    size: int,
)
    requires
        well_formed(d),
    ensures
        well_formed(place_all(d, texts, weight, size)),
        place_all(d, texts, weight, size).geometry == d.geometry,
        place_all(d, texts, weight, size).pages.len() >= d.pages.len(),
        texts.len() > 0 ==> place_all(d, texts, weight, size).pages.len() >= 1,
    decreases texts.len(),
{
    if texts.len() > 0 {
        let before = place_all(d, texts.drop_last(), weight, size);
        lemma_place_all_well_formed(d, texts.drop_last(), weight, size);
        lemma_place_well_formed(before, texts.last(), weight, size);
        lemma_place_pages(before, texts.last(), weight, size);
    }
}

/// Rendering a block keeps every line within the margins, and the number
/// of pages does not go down; it is at least one once the block has given
/// a line.
pub proof fn lemma_render_well_formed(d: DocumentView, block: BlockView)
    requires
        well_formed(d),
    ensures
        well_formed(render(d, block)),
        render(d, block).geometry == d.geometry,
        render(d, block).pages.len() >= d.pages.len(),
        wrap_lines(block.text, max_chars(d.geometry.usable_width(), block.style.size as int)).len()
            > 0 ==> render(d, block).pages.len() >= 1,
{
    let max = max_chars(d.geometry.usable_width(), block.style.size as int);
    lemma_place_all_well_formed(
        d,
        block_lines(block.text, block.style.bullet, max),
        block.style.weight,
        block.style.size as int,
    );
}

/// Rendering blocks keeps every line within the margins, and the number
/// of pages does not go down.
pub proof fn lemma_render_all_well_formed(d: DocumentView, blocks: Seq<BlockView>)
    requires
        well_formed(d),
    ensures
        well_formed(render_all(d, blocks)),
        render_all(d, blocks).geometry == d.geometry,
        render_all(d, blocks).pages.len() >= d.pages.len(),
    decreases blocks.len(),
{
    if blocks.len() > 0 {
        lemma_render_all_well_formed(d, blocks.drop_last());
        lemma_render_well_formed(render_all(d, blocks.drop_last()), blocks.last());
    }
}

/// The number of pages grows with the blocks: rendering more of them
/// never gives fewer pages.
pub proof fn lemma_pages_grow(d: DocumentView, blocks: Seq<BlockView>, n: int)
    requires
        well_formed(d),
        0 <= n <= blocks.len(),
    ensures
        render_all(d, blocks.take(n)).pages.len() <= render_all(d, blocks).pages.len(),
    decreases blocks.len() - n,
{
    if n < blocks.len() {
        assert(blocks.take(n + 1).drop_last() =~= blocks.take(n));
        lemma_render_all_well_formed(d, blocks.take(n));
        lemma_render_well_formed(render_all(d, blocks.take(n)), blocks[n]);
        lemma_pages_grow(d, blocks, n + 1);
    } else {
        assert(blocks.take(n) =~= blocks);
    }
}

/// Every line of a well-formed document stands within the margins.
pub proof fn lemma_lines_in_margins(d: DocumentView, p: int, i: int)
    requires
        well_formed(d),
        0 <= p < d.pages.len(),
        0 <= i < d.pages[p].len(),
    ensures
        d.pages[p][i].x == d.geometry.margin_left,
        d.geometry.margin_bottom <= d.pages[p][i].y <= d.geometry.height - d.geometry.margin_top,
{
    assert(line_in_margins(d.geometry, d.pages[p][i]));
}

/// On every page the first line stands at the top of the usable area, and
/// a later line at least one line height below an earlier one.
pub proof fn lemma_lines_descend(d: DocumentView, p: int, i: int, j: int)
    requires
        well_formed(d),
        0 <= p < d.pages.len(),
        0 <= i < j < d.pages[p].len(),
    ensures
        d.pages[p][0].y == d.geometry.height - d.geometry.margin_top,
        d.pages[p][j].y <= d.pages[p][i].y - d.geometry.line_height,
{
    assert(lines_descend(d.geometry, d.pages[p]));
}

/// However the blocks are chosen, every line of their layout stands at
/// the left margin, between the bottom margin and the top of the usable
/// area, and no page of it is empty.
pub proof fn lemma_layout_in_margins(g: PageGeometry, blocks: Seq<BlockView>, p: int, i: int)
    requires
        g.valid(),
        0 <= p < render_all(empty_document(g), blocks).pages.len(),
        0 <= i < render_all(empty_document(g), blocks).pages[p].len(),
    ensures
        render_all(empty_document(g), blocks).pages[p][i].x == g.margin_left,
        g.margin_bottom <= render_all(empty_document(g), blocks).pages[p][i].y <= g.height
            - g.margin_top,
        render_all(empty_document(g), blocks).pages[p].len() > 0,
{
    lemma_render_all_well_formed(empty_document(g), blocks);
    lemma_lines_in_margins(render_all(empty_document(g), blocks), p, i);
}

/// Placing a line changes nothing of what was placed before: the lines of
/// the document are the old ones and the new one behind them.
pub proof fn lemma_place_appends(d: DocumentView, text: Seq<char>, weight: FontWeight, size: int)
    requires
        well_formed(d),
    ensures
        placed(place(d, text, weight, size)) == placed(d).push(
            LineView { text, x: d.geometry.margin_left as int, y: next_y(d), weight, size },
        ),
{
    let line = LineView { text, x: d.geometry.margin_left as int, y: next_y(d), weight, size };
    let e = crate::document::with_room(d);
    if !has_room(d) {
        assert(e.pages =~= d.pages + seq![Seq::<LineView>::empty()]);
        lemma_flatten_concat(d.pages, seq![Seq::<LineView>::empty()]);
        seq![Seq::<LineView>::empty()].lemma_flatten_one_element();
        assert(placed(e) =~= placed(d));
    }
    let front = e.pages.drop_last();
    let last = e.pages.last();
    assert(e.pages =~= front + seq![last]);
    assert(place(d, text, weight, size).pages =~= front + seq![last.push(line)]);
    lemma_flatten_concat(front, seq![last]);
    lemma_flatten_concat(front, seq![last.push(line)]);
    seq![last].lemma_flatten_one_element();
    seq![last.push(line)].lemma_flatten_one_element();
    assert(front.flatten() + last.push(line) =~= (front.flatten() + last).push(line));
}

/// Placing lines puts them behind what was placed before, one line each,
/// in order, with the text, weight and size given.
pub proof fn lemma_place_all_appends(
    d: DocumentView,
    texts: Seq<Seq<char>>,
    weight: FontWeight,
    size: int,
)
    requires
        well_formed(d),
    ensures
        placed(place_all(d, texts, weight, size)).len() == placed(d).len() + texts.len(),
        placed(place_all(d, texts, weight, size)).take(placed(d).len() as int) == placed(d),
        forall|i: int|
            0 <= i < texts.len() ==> {
                let line = #[trigger] placed(place_all(d, texts, weight, size))[placed(d).len() + i];
                line.text == texts[i] && line.weight == weight && line.size == size
            },
    decreases texts.len(),
{
    let after = place_all(d, texts, weight, size);
    if texts.len() > 0 {
        let before = place_all(d, texts.drop_last(), weight, size);
        lemma_place_all_appends(d, texts.drop_last(), weight, size);
        lemma_place_all_well_formed(d, texts.drop_last(), weight, size);
        lemma_place_appends(before, texts.last(), weight, size);
        assert(placed(after).take(placed(d).len() as int) =~= placed(before).take(
            placed(d).len() as int,
        ));
        assert forall|i: int| 0 <= i < texts.len() implies {
            let line = #[trigger] placed(after)[placed(d).len() + i];
            line.text == texts[i] && line.weight == weight && line.size == size
        } by {
            if i < texts.len() - 1 {
                assert(placed(after)[placed(d).len() + i] == placed(before)[placed(d).len() + i]);
                assert(texts.drop_last()[i] == texts[i]);
            }
        }
    } else {
        assert(placed(d).take(placed(d).len() as int) =~= placed(d));
    }
}

/// A bulleted block that gives at least one line carries the bullet prefix
/// once: before its first line.  Its other lines are placed as wrapped.
pub proof fn lemma_bullet_once(d: DocumentView, block: BlockView)
    requires
        well_formed(d),
        block.style.bullet,
        wrap_lines(block.text, max_chars(d.geometry.usable_width(), block.style.size as int)).len()
            > 0,
    ensures
        ({
            let lines = wrap_lines(
                block.text,
                max_chars(d.geometry.usable_width(), block.style.size as int),
            );
            let after = placed(render(d, block));
            let base = placed(d).len() as int;
            &&& after.len() == base + lines.len()
            &&& after.take(base) == placed(d)
            &&& after[base].text == bullet_prefix() + lines[0]
            &&& forall|i: int| 1 <= i < lines.len() ==> (#[trigger] after[base + i]).text == lines[i]
        }),
{
    let max = max_chars(d.geometry.usable_width(), block.style.size as int);
    let texts = block_lines(block.text, true, max);
    lemma_place_all_appends(d, texts, block.style.weight, block.style.size as int);
    let after = placed(render(d, block));
    let base = placed(d).len() as int;
    assert(after[base + 0].text == texts[0]);
}

/// A block that is not bulleted is placed as wrapped, line for line.
pub proof fn lemma_plain_block(d: DocumentView, block: BlockView)
    requires
        well_formed(d),
        !block.style.bullet,
    ensures
        ({
            let lines = wrap_lines(
                block.text,
                max_chars(d.geometry.usable_width(), block.style.size as int),
            );
            let after = placed(render(d, block));
            let base = placed(d).len() as int;
            &&& after.len() == base + lines.len()
            &&& after.take(base) == placed(d)
            &&& forall|i: int| 0 <= i < lines.len() ==> (#[trigger] after[base + i]).text == lines[i]
        }),
{
    let max = max_chars(d.geometry.usable_width(), block.style.size as int);
    let texts = block_lines(block.text, false, max);
    lemma_place_all_appends(d, texts, block.style.weight, block.style.size as int);
}

/// Two layouts of the same blocks on the same geometry are the same
/// document: the same pages, the same lines at the same places, and the
/// same cursor.
pub proof fn lemma_layout_deterministic(
    a: Document,
    b: Document,
    g: PageGeometry,
    blocks: Seq<BlockView>,
)
    requires
        a@ == render_all(empty_document(g), blocks),
        b@ == render_all(empty_document(g), blocks),
    ensures
        a@ == b@,
        a@.pages.len() == b@.pages.len(),
        forall|p: int, i: int|
            0 <= p < a@.pages.len() && 0 <= i < a@.pages[p].len() ==> a@.pages[p][i]
                == b@.pages[p][i],
{
}

} // verus!
