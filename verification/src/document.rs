//! The document under construction: pages of placed lines and a cursor.
//!
//! The functions on `DocumentView` say what each step does; the methods of
//! `Document` carry the steps out.

use crate::geometry::{
    max_chars, max_chars_per_line, style_defect, ConfigurationError, FontWeight, PageGeometry,
    StyleSpec,
};
use crate::wrap::{wrap_lines, wrap_text};
use vstd::prelude::*;

verus! {

/// One line of text at its place on a page.
#[derive(Clone, Debug, PartialEq, Eq)]
pub struct PlacedLine {
    pub text: String,
    pub x: u32,
    pub y: u32,
    pub weight: FontWeight,
    pub size: u32,
}

/// A placed line as a mathematical value.
pub struct LineView {
    pub text: Seq<char>,
    pub x: int,
    pub y: int,
    pub weight: FontWeight,
    pub size: int,
}

impl View for PlacedLine {
    type V = LineView;

    open spec fn view(&self) -> LineView {
        LineView {
            text: self.text@,
            x: self.x as int,
            y: self.y as int,
            weight: self.weight,
            size: self.size as int,
        }
    }
}

/// The lines placed on one page, in the order in which they were placed.
#[derive(Clone, Debug, PartialEq, Eq)]
pub struct Page {
    pub lines: Vec<PlacedLine>,
}

impl View for Page {
    type V = Seq<LineView>;

    open spec fn view(&self) -> Seq<LineView> {
        Seq::new(self.lines.len() as nat, |i: int| self.lines[i]@)
    }
}

/// A styled unit of text, wrapped and placed as a whole.
#[derive(Clone, Debug, PartialEq, Eq)]
pub struct TextBlock {
    pub text: String,
    pub style: StyleSpec,
}

/// A text block as a mathematical value.
pub struct BlockView {
    pub text: Seq<char>,
    pub style: StyleSpec,
}

impl View for TextBlock {
    type V = BlockView;

    open spec fn view(&self) -> BlockView {
        BlockView { text: self.text@, style: self.style }
    }
}

/// Where the next line goes: the active page and the height on it.
#[derive(Clone, Copy, Debug, PartialEq, Eq, Structural)]
pub struct Cursor {
    pub page: usize,
    pub y: i64,
}

/// A document as a mathematical value: its geometry, the lines of each
/// page, and the height of the cursor on the last page.  There is no
/// cursor before the first page.
pub struct DocumentView {
    pub geometry: PageGeometry,
    pub pages: Seq<Seq<LineView>>,
    pub cursor: Option<int>,
}

/// The line stands at the left margin, between the bottom margin and the
/// top of the usable area.
pub open spec fn line_in_margins(g: PageGeometry, line: LineView) -> bool {
    &&& line.x == g.margin_left
    &&& g.margin_bottom <= line.y <= g.top_y()
}

/// The first line of the page stands at the top of the usable area, and
/// each line at least one line height below the one before it.
pub open spec fn lines_descend(g: PageGeometry, page: Seq<LineView>) -> bool {
    &&& page.len() > 0 ==> page[0].y == g.top_y()
    &&& forall|i: int, j: int|
        0 <= i < j < page.len() ==> (#[trigger] page[j]).y <= (#[trigger] page[i]).y
            - g.line_height
}

/// What holds of every document: the geometry is valid, there is a cursor
/// exactly when there is a page, no page is empty, every line is within
/// the margins, the lines of a page descend from its top, and the cursor
/// is at least one line height below the last line.
pub open spec fn well_formed(d: DocumentView) -> bool {
    &&& d.geometry.valid()
    &&& d.cursor is Some <==> d.pages.len() > 0
    &&& d.cursor matches Some(y) ==> i64::MIN <= y <= d.pages.last().last().y
        - d.geometry.line_height
    &&& forall|p: int| 0 <= p < d.pages.len() ==> (#[trigger] d.pages[p]).len() > 0
    &&& forall|p: int, i: int|
        0 <= p < d.pages.len() && 0 <= i < d.pages[p].len() ==> line_in_margins(
            d.geometry,
            #[trigger] d.pages[p][i],
        )
    &&& forall|p: int| 0 <= p < d.pages.len() ==> lines_descend(d.geometry, #[trigger] d.pages[p])
}

/// The document with no page yet.
pub open spec fn empty_document(g: PageGeometry) -> DocumentView {
    DocumentView { geometry: g, pages: Seq::empty(), cursor: None }
}

/// Whether the active page has room for one more line: the cursor is at
/// least one line height above the bottom margin.
pub open spec fn has_room(d: DocumentView) -> bool {
    d.cursor matches Some(y) && y - d.geometry.margin_bottom >= d.geometry.line_height
}

/// The document made ready for one line: as it is where there is room,
/// else with a new last page and the cursor at the top of its usable area.
pub open spec fn with_room(d: DocumentView) -> DocumentView {
    if has_room(d) {
        d
    } else {
        DocumentView {
            geometry: d.geometry,
            pages: d.pages.push(Seq::empty()),
            cursor: Some(d.geometry.top_y()),
        }
    }
}

/// The height at which the next line will be placed.
pub open spec fn next_y(d: DocumentView) -> int {
    with_room(d).cursor->0
}

/// The document after one line was placed: room is made, the line goes
/// to the left margin at the cursor, on the last page, and the cursor
/// moves down by one line height.
pub open spec fn place(d: DocumentView, text: Seq<char>, weight: FontWeight, size: int)
    -> DocumentView {
    let e = with_room(d);
    let y = next_y(d);
    let line = LineView { text, x: d.geometry.margin_left as int, y, weight, size };
    let last = e.pages.len() - 1;
    DocumentView {
        geometry: d.geometry,
        pages: e.pages.update(last, e.pages[last].push(line)),
        cursor: Some(y - d.geometry.line_height),
    }
}

/// The document after the cursor was moved down by `gap` without placing
/// text.  The cursor stops at the least height that can be held; before the
/// first page there is no cursor to move.
pub open spec fn advance(d: DocumentView, gap: int) -> DocumentView {
    match d.cursor {
        Some(y) => DocumentView {
            geometry: d.geometry,
            pages: d.pages,
            cursor: Some(
                if y - gap < i64::MIN {
                    i64::MIN as int
                } else {
                    y - gap
                },
            ),
        },
        None => d,
    }
}

/// The document after the lines `texts` were placed one after the other.
pub open spec fn place_all(d: DocumentView, texts: Seq<Seq<char>>, weight: FontWeight, size: int)
    -> DocumentView
    decreases texts.len(),
{
    if texts.len() == 0 {
        d
    } else {
        place(place_all(d, texts.drop_last(), weight, size), texts.last(), weight, size)
    }
}

/// What is put before the first line of a bulleted block: a bullet and
/// one space.
pub open spec fn bullet_prefix() -> Seq<char> {
    seq!['\u{2022}', ' ']
}

/// The texts of the lines of a block: its wrapped lines, the first of
/// them behind the bullet prefix where the block is bulleted.
pub open spec fn block_lines(text: Seq<char>, bullet: bool, max: int) -> Seq<Seq<char>> {
    let lines = wrap_lines(text, max);
    if bullet && lines.len() > 0 {
        lines.update(0, bullet_prefix() + lines[0])
    } else {
        lines
    }
}

/// What keeps a block of this style from being set on a page of this
/// geometry, if anything does.
pub open spec fn block_defect(g: PageGeometry, style: StyleSpec) -> Option<ConfigurationError> {
    style_defect(g.usable_width(), style.size as int)
}

/// The document after `block` was rendered: its text is wrapped to the
/// usable width at the block's point size, and each line is placed.
pub open spec fn render(d: DocumentView, block: BlockView) -> DocumentView {
    place_all(
        d,
        block_lines(
            block.text,
            block.style.bullet,
            max_chars(d.geometry.usable_width(), block.style.size as int),
        ),
        block.style.weight,
        block.style.size as int,
    )
}

/// The views of the blocks, in order.
pub open spec fn views_of(blocks: Seq<TextBlock>) -> Seq<BlockView> {
    blocks.map_values(|b: TextBlock| b@)
}

/// The document after the blocks were rendered in the order given.
pub open spec fn render_all(d: DocumentView, blocks: Seq<BlockView>) -> DocumentView
    decreases blocks.len(),
{
    if blocks.len() == 0 {
        d
    } else {
        render(render_all(d, blocks.drop_last()), blocks.last())
    }
}

/// The defect of the first block that has one.
pub open spec fn first_defect(g: PageGeometry, blocks: Seq<BlockView>) -> Option<
    ConfigurationError,
>
    decreases blocks.len(),
{
    if blocks.len() == 0 {
        None
    } else {
        match first_defect(g, blocks.drop_last()) {
            Some(e) => Some(e),
            None => block_defect(g, blocks.last().style),
        }
    }
}

/// What keeps the blocks from being laid out on pages of this geometry:
/// the defect of the geometry, else that of the first block that has one.
pub open spec fn layout_defect(g: PageGeometry, blocks: Seq<BlockView>) -> Option<
    ConfigurationError,
> {
    match g.defect() {
        Some(e) => Some(e),
        None => first_defect(g, blocks),
    }
}

/// All the lines of the document, page after page.
pub open spec fn placed(d: DocumentView) -> Seq<LineView> {
    d.pages.flatten()
}

/// A paginated document under construction: the pages filled so far and
/// the cursor on the last of them.
pub struct Document {
    geometry: PageGeometry,
    pages: Vec<Page>,
    cursor: Option<Cursor>,
}

impl View for Document {
    type V = DocumentView;

    closed spec fn view(&self) -> DocumentView {
        DocumentView {
            geometry: self.geometry,
            pages: Seq::new(self.pages.len() as nat, |i: int| self.pages[i]@),
            cursor: match self.cursor {
                Some(c) => Some(c.y as int),
                None => None,
            },
        }
    }
}

impl Document {
    /// The cursor names the last page.
    pub closed spec fn rep(&self) -> bool {
        self.cursor matches Some(c) ==> c.page + 1 == self.pages.len()
    }

    /// The invariant of every document that this module hands out.
    pub open spec fn wf(&self) -> bool {
        self.rep() && well_formed(self@)
    }

    /// A document with no page yet, for a valid geometry.
    pub fn new(geometry: PageGeometry) -> (r: Result<Document, ConfigurationError>)
        ensures
            r is Ok <==> geometry.valid(),
            match r {
                Ok(d) => d.wf() && d@ == empty_document(geometry),
                Err(e) => geometry.defect() == Some(e),
            },
    {
        match geometry.check() {
            Ok(()) => {
                let d = Document { geometry, pages: Vec::new(), cursor: None };
                assert(d@.pages =~= Seq::empty());
                Ok(d)
            },
            Err(e) => Err(e),
        }
    }

    /// The geometry of every page.
    pub fn geometry(&self) -> (g: PageGeometry)
        ensures
            g == self@.geometry,
    {
        self.geometry
    }

    /// The number of pages filled so far.
    pub fn page_count(&self) -> (n: usize)
        ensures
            n == self@.pages.len(),
    {
        self.pages.len()
    }

    /// The pages filled so far.
    pub fn pages(&self) -> (pages: &Vec<Page>)
        ensures
            pages@.len() == self@.pages.len(),
            forall|p: int| 0 <= p < pages@.len() ==> (#[trigger] pages@[p])@ == self@.pages[p],
    {
        &self.pages
    }

    /// The cursor, once there is a page.
    pub fn cursor(&self) -> (c: Option<Cursor>)
        requires
            self.wf(),
        ensures
            match c {
                Some(c) => self@.cursor == Some(c.y as int) && c.page == self@.pages.len() - 1,
                None => self@.cursor is None,
            },
    {
        self.cursor
    }

    fn ensure_space(&mut self)
        requires
            old(self).wf(),
        ensures
            final(self).rep(),
            final(self)@ == with_room(old(self)@),
            final(self).cursor is Some,
            final(self).pages.len() > 0,
    {
        let fits = match self.cursor {
            Some(c) => c.y >= self.geometry.margin_bottom as i64
                + self.geometry.line_height as i64,
            None => false,
        };
        if !fits {
            let ghost before = self@;
            let page: usize = self.pages.len();
            let fresh = Page { lines: Vec::new() };
            assert(fresh@ =~= Seq::empty());
            self.pages.push(fresh);
            self.cursor = Some(
                Cursor { page, y: (self.geometry.height - self.geometry.margin_top) as i64 },
            );
            assert(self@.pages =~= before.pages.push(Seq::empty()));
        }
    }

    /// Places one line at the cursor, on a new page where the active one
    /// has no room, and moves the cursor down by one line height.
    pub fn place_line(&mut self, text: String, weight: FontWeight, size: u32)
        requires
            old(self).wf(),
        ensures
            final(self).wf(),
            final(self)@ == place(old(self)@, text@, weight, size as int),
            final(self)@.pages.len() >= old(self)@.pages.len(),
            final(self)@.pages.len() >= 1,
    {
        proof {
            lemma_place_well_formed(self@, text@, weight, size as int);
        }
        self.ensure_space();
        let ghost ready = self@;
        let c = self.cursor.unwrap();
        let line = PlacedLine { text, x: self.geometry.margin_left, y: c.y as u32, weight, size };
        let last: usize = self.pages.len() - 1;
        let ghost placed = line@;
        self.pages[last].lines.push(line);
        self.cursor = Some(Cursor { page: c.page, y: c.y - self.geometry.line_height as i64 });
        assert(self.pages[last as int]@ =~= ready.pages[last as int].push(placed));
        assert(self@.pages =~= ready.pages.update(last as int, ready.pages[last as int].push(placed)));
    }

    /// Moves the cursor down by `gap` without placing text.
    pub fn advance(&mut self, gap: u32)
        requires
            old(self).wf(),
        ensures
            final(self).wf(),
            final(self)@ == advance(old(self)@, gap as int),
    {
        match self.cursor {
            Some(c) => {
                let y: i64 = if c.y >= i64::MIN + gap as i64 {
                    c.y - gap as i64
                } else {
                    i64::MIN
                };
                self.cursor = Some(Cursor { page: c.page, y });
                assert(self@.pages =~= old(self)@.pages);
            },
            None => {},
        }
    }

    /// Wraps the block's text to the usable width and places its lines,
    /// the first of them behind a bullet where the block is bulleted.
    ///
    /// A block that cannot be set is rejected and the document is left as
    /// it was.
    pub fn render_block(&mut self, block: &TextBlock) -> (r: Result<(), ConfigurationError>)
        requires
            old(self).wf(),
        ensures
            final(self).wf(),
            final(self)@.geometry == old(self)@.geometry,
            final(self)@.pages.len() >= old(self)@.pages.len(),
            match r {
                Ok(()) => block_defect(old(self)@.geometry, block.style) is None && final(self)@
                    == render(old(self)@, block@),
                Err(e) => block_defect(old(self)@.geometry, block.style) == Some(e) && final(self)@
                    == old(self)@,
            },
    {
        let width: u32 = self.geometry.width - self.geometry.margin_left
            - self.geometry.margin_right;
        let max = match max_chars_per_line(width, block.style.size) {
            Ok(n) => n,
            Err(e) => {
                return Err(e);
            },
        };
        let lines = match wrap_text(block.text.as_str(), max) {
            Ok(lines) => lines,
            Err(e) => {
                return Err(e);
            },
        };
        let ghost start = self@;
        let ghost texts = block_lines(block.text@, block.style.bullet, max as int);
        let weight = block.style.weight;
        let size = block.style.size;
        let mut i: usize = 0;
        while i < lines.len()
            invariant
                i <= lines.len(),
                start == old(self)@,
                self.wf(),
                texts == block_lines(block.text@, block.style.bullet, max as int),
                lines.deep_view() == wrap_lines(block.text@, max as int),
                self@ == place_all(start, texts.take(i as int), weight, size as int),
                self@.geometry == start.geometry,
                self@.pages.len() >= start.pages.len(),
            decreases lines.len() - i,
        {
            let text = if block.style.bullet && i == 0 {
                with_bullet(lines[i].as_str())
            } else {
                lines[i].clone()
            };
            assert(lines.deep_view()[i as int] == lines[i as int]@);
            assert(text@ == texts[i as int]);
            assert(texts.take(i + 1).drop_last() =~= texts.take(i as int));
            self.place_line(text, weight, size);
            i += 1;
        }
        assert(texts.take(i as int) =~= texts);
        Ok(())
    }

    /// Renders the blocks in the order given.
    ///
    /// Where one of them cannot be set, none is rendered.
    pub fn render_blocks(&mut self, blocks: &Vec<TextBlock>) -> (r: Result<
        (),
        ConfigurationError,
    >)
        requires
            old(self).wf(),
        ensures
            final(self).wf(),
            final(self)@.geometry == old(self)@.geometry,
            final(self)@.pages.len() >= old(self)@.pages.len(),
            match r {
                Ok(()) => first_defect(old(self)@.geometry, views_of(blocks@)) is None
                    && final(self)@ == render_all(old(self)@, views_of(blocks@)),
                Err(e) => first_defect(old(self)@.geometry, views_of(blocks@)) == Some(e)
                    && final(self)@ == old(self)@,
            },
    {
        let ghost start = self@;
        let ghost all = views_of(blocks@);
        let width: u32 = self.geometry.width - self.geometry.margin_left
            - self.geometry.margin_right;
        let mut k: usize = 0;
        while k < blocks.len()
            invariant
                k <= blocks.len(),
                self.wf(),
                self@ == start,
                all == views_of(blocks@),
                width == start.geometry.usable_width(),
                first_defect(start.geometry, all.take(k as int)) is None,
            decreases blocks.len() - k,
        {
            assert(all.take(k + 1).drop_last() =~= all.take(k as int));
            assert(all.take(k + 1).last() == blocks[k as int]@);
            match max_chars_per_line(width, blocks[k].style.size) {
                Ok(_) => {},
                Err(e) => {
                    proof {
                        lemma_first_defect_prefix(start.geometry, all, k + 1);
                    }
                    return Err(e);
                },
            }
            k += 1;
        }
        assert(all.take(k as int) =~= all);
        let mut i: usize = 0;
        while i < blocks.len()
            invariant
                i <= blocks.len(),
                start == old(self)@,
                self.wf(),
                all == views_of(blocks@),
                first_defect(start.geometry, all) is None,
                self@ == render_all(start, all.take(i as int)),
                self@.geometry == start.geometry,
                self@.pages.len() >= start.pages.len(),
            decreases blocks.len() - i,
        {
            assert(all.take(i + 1).drop_last() =~= all.take(i as int));
            assert(all.take(i + 1).last() == blocks[i as int]@);
            proof {
                lemma_first_defect_none(start.geometry, all, i as int);
            }
            match self.render_block(&blocks[i]) {
                Ok(()) => {},
                Err(e) => {
                    assert(false);
                },
            }
            i += 1;
        }
        assert(all.take(i as int) =~= all);
        Ok(())
    }
}

/// `line` behind the bullet prefix.
fn with_bullet(line: &str) -> (s: String)
    ensures
        s@ == bullet_prefix() + line@,
{
    proof {
        reveal_strlit("\u{2022} ");
    }
    let mut s = String::from_str("\u{2022} ");
    assert(s@ =~= bullet_prefix());
    s.append(line);
    s
}

/// Lays the blocks out on pages of the given geometry, from the first
/// page on.
pub fn layout(geometry: PageGeometry, blocks: &Vec<TextBlock>) -> (r: Result<
    Document,
    ConfigurationError,
>)
    ensures
        match r {
            Ok(d) => layout_defect(geometry, views_of(blocks@)) is None && d.wf() && d@
                == render_all(empty_document(geometry), views_of(blocks@)),
            Err(e) => layout_defect(geometry, views_of(blocks@)) == Some(e),
        },
{
    let mut d = match Document::new(geometry) {
        Ok(d) => d,
        Err(e) => {
            return Err(e);
        },
    };
    proof {
        crate::geometry::lemma_valid_iff_no_defect(geometry);
    }
    match d.render_blocks(blocks) {
        Ok(()) => Ok(d),
        Err(e) => Err(e),
    }
}

proof fn lemma_first_defect_prefix(g: PageGeometry, blocks: Seq<BlockView>, n: int)
    requires
        0 <= n <= blocks.len(),
        first_defect(g, blocks.take(n)) is Some,
    ensures
        first_defect(g, blocks) == first_defect(g, blocks.take(n)),
    decreases blocks.len() - n,
{
    if n < blocks.len() {
        assert(blocks.take(n + 1).drop_last() =~= blocks.take(n));
        lemma_first_defect_prefix(g, blocks, n + 1);
    } else {
        assert(blocks.take(n) =~= blocks);
    }
}

proof fn lemma_first_defect_none(g: PageGeometry, blocks: Seq<BlockView>, i: int)
    requires
        0 <= i < blocks.len(),
        first_defect(g, blocks) is None,
    ensures
        block_defect(g, blocks[i].style) is None,
    decreases blocks.len(),
{
    if i < blocks.len() - 1 {
        lemma_first_defect_none(g, blocks.drop_last(), i);
    }
}

/// Placing a line keeps a document well formed, and the line is placed
/// within the margins.
pub proof fn lemma_place_well_formed(d: DocumentView, text: Seq<char>, weight: FontWeight, size: int)
    requires
        well_formed(d),
    ensures
        well_formed(place(d, text, weight, size)),
        d.geometry.margin_bottom <= next_y(d) <= d.geometry.top_y(),
{
    let after = place(d, text, weight, size);
    let e = with_room(d);
    let last = e.pages.len() - 1;
    assert forall|p: int| 0 <= p < after.pages.len() implies (#[trigger] after.pages[p]).len()
        > 0 by {
        if p != last {
            assert(after.pages[p] == d.pages[p]);
        }
    }
    assert forall|p: int, i: int|
        0 <= p < after.pages.len() && 0 <= i < after.pages[p].len() implies line_in_margins(
        after.geometry,
        #[trigger] after.pages[p][i],
    ) by {
        if p != last {
            assert(after.pages[p] == d.pages[p]);
            assert(line_in_margins(d.geometry, d.pages[p][i]));
        } else if i < e.pages[last].len() {
            assert(after.pages[p][i] == d.pages[p][i]);
            assert(line_in_margins(d.geometry, d.pages[p][i]));
        }
    }
}

} // verus!
