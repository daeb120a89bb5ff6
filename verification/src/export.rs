//! The layout of a lecture summary: a title and three sections.

use crate::document::{
    advance, empty_document, render, render_all, BlockView, Document, DocumentView, TextBlock,
};
use crate::geometry::{max_chars, FontWeight, PageGeometry, StyleSpec};
use vstd::prelude::*;

verus! {

/// Point size of the title.
pub const TITLE_SIZE: u32 = 20;

/// Point size of the heading of a section.
pub const HEADING_SIZE: u32 = 14;

/// Point size of the items of a section.
pub const ITEM_SIZE: u32 = 12;

/// The gap below the title.
pub const TITLE_GAP: u32 = 4;

/// The gap below a section.
pub const SECTION_GAP: u32 = 2;

/// The page of a summary: 210 by 297 millimetres, with margins of 20 at
/// the sides and 17 at top and bottom, and 9 from line to line.
pub open spec fn summary_geometry() -> PageGeometry {
    PageGeometry {
        width: 210,
        height: 297,
        margin_left: 20,
        margin_right: 20,
        margin_top: 17,
        margin_bottom: 17,
        line_height: 9,
    }
}

/// The texts as mathematical values.
pub open spec fn texts_of(texts: Seq<String>) -> Seq<Seq<char>> {
    texts.map_values(|t: String| t@)
}

/// A bold block that is not bulleted.
pub open spec fn heading(text: Seq<char>, size: u32) -> BlockView {
    BlockView { text, style: StyleSpec { weight: FontWeight::Bold, size, bullet: false } }
}

/// A bulleted block in regular type.
pub open spec fn item(text: Seq<char>) -> BlockView {
    BlockView {
        text,
        style: StyleSpec { weight: FontWeight::Regular, size: ITEM_SIZE, bullet: true },
    }
}

/// One item for each text.
pub open spec fn items(texts: Seq<Seq<char>>) -> Seq<BlockView> {
    texts.map_values(|t: Seq<char>| item(t))
}

/// The document after a section: its heading, then its items.
pub open spec fn section(d: DocumentView, title: Seq<char>, texts: Seq<Seq<char>>)
    -> DocumentView {
    render_all(render(d, heading(title, HEADING_SIZE)), items(texts))
}

/// The summary laid out: the title and a gap, then the keywords, the
/// summary and the links, each a section, with a gap between two sections.
pub open spec fn summary_layout(
    keywords: Seq<Seq<char>>,
    summary: Seq<Seq<char>>,
    links: Seq<Seq<char>>,
) -> DocumentView {
    let titled = advance(
        render(empty_document(summary_geometry()), heading("Lecture Summary"@, TITLE_SIZE)),
        TITLE_GAP as int,
    );
    let with_keywords = advance(section(titled, "Keywords:"@, keywords), SECTION_GAP as int);
    let with_summary = advance(section(with_keywords, "Summary:"@, summary), SECTION_GAP as int);
    section(with_summary, "Links:"@, links)
}

fn write_heading(d: &mut Document, title: &str, size: u32)
    requires
        old(d).wf(),
        old(d)@.geometry == summary_geometry(),
        size == TITLE_SIZE || size == HEADING_SIZE,
    ensures
        final(d).wf(),
        final(d)@ == render(old(d)@, heading(title@, size)),
        final(d)@.geometry == summary_geometry(),
{
    let block = TextBlock {
        text: String::from_str(title),
        style: StyleSpec { weight: FontWeight::Bold, size, bullet: false },
    };
    assert(block@ == heading(title@, size));
    assert(max_chars(170, 20) == 18 && max_chars(170, 14) == 26);
    d.render_block(&block).unwrap();
}

fn write_section(d: &mut Document, title: &str, texts: &[String])
    requires
        old(d).wf(),
        old(d)@.geometry == summary_geometry(),
    ensures
        final(d).wf(),
        final(d)@ == section(old(d)@, title@, texts_of(texts@)),
        final(d)@.geometry == summary_geometry(),
{
    write_heading(d, title, HEADING_SIZE);
    let ghost headed = d@;
    let ghost all = items(texts_of(texts@));
    let mut i: usize = 0;
    assert(all.take(0) =~= Seq::<BlockView>::empty());
    while i < texts.len()
        invariant
            i <= texts.len(),
            d.wf(),
            d@.geometry == summary_geometry(),
            all == items(texts_of(texts@)),
            d@ == render_all(headed, all.take(i as int)),
        decreases texts.len() - i,
    {
        let block = TextBlock {
            text: texts[i].clone(),
            style: StyleSpec { weight: FontWeight::Regular, size: ITEM_SIZE, bullet: true },
        };
        assert(all.take(i + 1).drop_last() =~= all.take(i as int));
        assert(all.take(i + 1).last() == block@);
        assert(max_chars(170, 12) == 31);
        d.render_block(&block).unwrap();
        i += 1;
    }
    assert(all.take(i as int) =~= all);
}

/// Lays out the summary of a lecture: title, keywords, summary sentences
/// and links.
pub fn layout_summary(keywords: &[String], summary: &[String], links: &[String]) -> (d: Document)
    ensures
        d.wf(),
        d@ == summary_layout(texts_of(keywords@), texts_of(summary@), texts_of(links@)),
{
    let geometry = PageGeometry {
        width: 210,
        height: 297,
        margin_left: 20,
        margin_right: 20,
        margin_top: 17,
        margin_bottom: 17,
        line_height: 9,
    };
    let mut d = Document::new(geometry).unwrap();
    write_heading(&mut d, "Lecture Summary", TITLE_SIZE);
    d.advance(TITLE_GAP);
    write_section(&mut d, "Keywords:", keywords);
    d.advance(SECTION_GAP);
    write_section(&mut d, "Summary:", summary);
    d.advance(SECTION_GAP);
    write_section(&mut d, "Links:", links);
    d
}

} // verus!
