use lecture_analyzer::document::{layout, Cursor, Document, PlacedLine, TextBlock};
use lecture_analyzer::export::layout_summary;
use lecture_analyzer::geometry::{ConfigurationError, FontWeight, PageGeometry, StyleSpec};

fn a4() -> PageGeometry {
    PageGeometry {
        width: 210,
        height: 297,
        margin_left: 20,
        margin_right: 20,
        margin_top: 17,
        margin_bottom: 17,
        line_height: 9,
    }
}

fn block(text: &str, weight: FontWeight, size: u32, bullet: bool) -> TextBlock {
    TextBlock { text: text.to_string(), style: StyleSpec { weight, size, bullet } }
}

fn all_lines(d: &Document) -> Vec<PlacedLine> {
    let mut out = Vec::new();
    for page in d.pages() {
        for line in &page.lines {
            out.push(line.clone());
        }
    }
    out
}

#[test]
fn new_document_has_no_page_and_no_cursor() {
    let d = Document::new(a4()).unwrap();
    assert_eq!(d.page_count(), 0);
    assert_eq!(d.cursor(), None);
    assert_eq!(d.geometry(), a4());
}

#[test]
fn one_heading_is_one_line_at_the_top() {
    let mut d = Document::new(a4()).unwrap();
    d.render_block(&block("Keywords:", FontWeight::Regular, 14, false)).unwrap();
    assert_eq!(d.page_count(), 1);
    assert_eq!(
        d.pages()[0].lines,
        vec![PlacedLine {
            text: "Keywords:".to_string(),
            x: 20,
            y: 280,
            weight: FontWeight::Regular,
            size: 14,
        }]
    );
    assert_eq!(d.cursor(), Some(Cursor { page: 0, y: 271 }));
}

#[test]
fn bullet_stands_before_the_first_line_only() {
    let mut d = Document::new(a4()).unwrap();
    d.render_block(&block("Heading", FontWeight::Bold, 14, false)).unwrap();
    let before = d.cursor().unwrap();
    let text = "alpha beta gamma delta epsilon zeta eta theta iota kappa lambda mu nu xi omicron";
    d.render_block(&block(text, FontWeight::Regular, 12, true)).unwrap();
    let lines = all_lines(&d);
    assert_eq!(lines.len(), 4);
    assert_eq!(lines[1].text, "\u{2022} alpha beta gamma delta epsilon");
    assert_eq!(lines[2].text, "zeta eta theta iota kappa");
    assert_eq!(lines[3].text, "lambda mu nu xi omicron");
    let bullets = lines.iter().filter(|l| l.text.starts_with("\u{2022} ")).count();
    assert_eq!(bullets, 1);
    let after = d.cursor().unwrap();
    assert_eq!(before.y - after.y, 27);
    assert_eq!(after.page, before.page);
}

#[test]
fn bullet_is_not_counted_against_the_limit() {
    let mut d = Document::new(a4()).unwrap();
    let text = "abcdefghijklmnopqrstuvwxyzabcde";
    d.render_block(&block(text, FontWeight::Regular, 12, true)).unwrap();
    let lines = all_lines(&d);
    assert_eq!(lines.len(), 1);
    assert_eq!(lines[0].text, format!("\u{2022} {}", text));
}

#[test]
fn blank_bulleted_block_places_nothing() {
    let mut d = Document::new(a4()).unwrap();
    d.render_block(&block("   ", FontWeight::Regular, 12, true)).unwrap();
    assert_eq!(d.page_count(), 0);
    assert_eq!(d.cursor(), None);
}

#[test]
fn thirtieth_line_opens_the_second_page() {
    let mut d = Document::new(a4()).unwrap();
    for n in 0..29 {
        d.render_block(&block("line", FontWeight::Regular, 12, false)).unwrap();
        assert_eq!(d.page_count(), 1);
        assert_eq!(d.cursor(), Some(Cursor { page: 0, y: 280 - 9 * (n + 1) }));
    }
    assert_eq!(d.pages()[0].lines.len(), 29);
    assert_eq!(d.pages()[0].lines[28].y, 28);
    d.render_block(&block("line", FontWeight::Regular, 12, false)).unwrap();
    assert_eq!(d.page_count(), 2);
    assert_eq!(d.pages()[0].lines.len(), 29);
    assert_eq!(d.pages()[1].lines.len(), 1);
    assert_eq!(d.pages()[1].lines[0].y, 280);
    assert_eq!(d.cursor(), Some(Cursor { page: 1, y: 271 }));
}

#[test]
fn block_is_split_across_pages() {
    let mut d = Document::new(a4()).unwrap();
    for _ in 0..28 {
        d.place_line("line".to_string(), FontWeight::Regular, 12);
    }
    d.render_block(&block("one two", FontWeight::Bold, 12, true)).unwrap();
    d.render_block(&block("aaaaaaaaaaaaaaaaaaaaaaaaaaaaaa bbbbbbbb", FontWeight::Bold, 12, true))
        .unwrap();
    assert_eq!(d.page_count(), 2);
    assert_eq!(d.pages()[0].lines.len(), 29);
    assert_eq!(d.pages()[0].lines[28].text, "\u{2022} one two");
    assert_eq!(d.pages()[1].lines.len(), 2);
    assert_eq!(d.pages()[1].lines[0].text, "\u{2022} aaaaaaaaaaaaaaaaaaaaaaaaaaaaaa");
    assert_eq!(d.pages()[1].lines[0].y, 280);
    assert_eq!(d.pages()[1].lines[1].text, "bbbbbbbb");
    assert_eq!(d.pages()[1].lines[1].y, 271);
}

#[test]
fn gap_moves_the_cursor_without_text() {
    let mut d = Document::new(a4()).unwrap();
    d.place_line("title".to_string(), FontWeight::Bold, 20);
    d.advance(4);
    assert_eq!(d.cursor(), Some(Cursor { page: 0, y: 267 }));
    assert_eq!(d.page_count(), 1);
    assert_eq!(d.pages()[0].lines.len(), 1);
    d.place_line("next".to_string(), FontWeight::Regular, 12);
    assert_eq!(d.pages()[0].lines[1].y, 267);
    assert_eq!(d.cursor(), Some(Cursor { page: 0, y: 258 }));
}

#[test]
fn gap_before_the_first_page_moves_nothing() {
    let mut d = Document::new(a4()).unwrap();
    d.advance(100);
    assert_eq!(d.cursor(), None);
    d.place_line("first".to_string(), FontWeight::Regular, 12);
    assert_eq!(d.pages()[0].lines[0].y, 280);
}

#[test]
fn gap_below_the_page_opens_a_new_page_with_the_next_line() {
    let mut d = Document::new(a4()).unwrap();
    d.place_line("first".to_string(), FontWeight::Regular, 12);
    d.advance(u32::MAX);
    assert_eq!(d.cursor(), Some(Cursor { page: 0, y: 271 - 4294967295 }));
    assert_eq!(d.page_count(), 1);
    d.place_line("second".to_string(), FontWeight::Regular, 12);
    assert_eq!(d.page_count(), 2);
    assert_eq!(d.pages()[1].lines[0].y, 280);
}

#[test]
fn line_higher_than_the_page_stands_alone_on_its_page() {
    let g = PageGeometry {
        width: 100,
        height: 10,
        margin_left: 1,
        margin_right: 1,
        margin_top: 1,
        margin_bottom: 1,
        line_height: 20,
    };
    let mut d = Document::new(g).unwrap();
    d.place_line("a".to_string(), FontWeight::Regular, 1);
    assert_eq!(d.cursor(), Some(Cursor { page: 0, y: -11 }));
    d.place_line("b".to_string(), FontWeight::Regular, 1);
    assert_eq!(d.page_count(), 2);
    assert_eq!(d.pages()[0].lines[0].y, 9);
    assert_eq!(d.pages()[1].lines[0].y, 9);
}

#[test]
fn pages_never_get_fewer_and_lines_stay_within_margins() {
    let g = a4();
    let mut d = Document::new(g).unwrap();
    let mut pages = 0;
    for n in 0..200u32 {
        let text = "word ".repeat((n % 17) as usize * 3);
        d.render_block(&block(&text, FontWeight::Regular, 10 + n % 7, n % 2 == 0)).unwrap();
        if n % 5 == 0 {
            d.advance(n);
        }
        assert!(d.page_count() >= pages);
        pages = d.page_count();
        if !all_lines(&d).is_empty() {
            assert!(pages >= 1);
        }
    }
    assert!(pages > 3);
    for page in d.pages() {
        assert!(!page.lines.is_empty());
        for line in &page.lines {
            assert_eq!(line.x, g.margin_left);
            assert!(line.y >= g.margin_bottom);
            assert!(line.y <= g.height - g.margin_top);
        }
    }
}

#[test]
fn two_layouts_of_the_same_blocks_are_the_same() {
    let mut blocks = Vec::new();
    for n in 0..60u32 {
        let text = format!("block {} {}", n, "lorem ipsum ".repeat((n % 9) as usize));
        blocks.push(block(&text, FontWeight::Regular, 12, n % 3 == 0));
    }
    let a = layout(a4(), &blocks).unwrap();
    let b = layout(a4(), &blocks).unwrap();
    assert_eq!(a.page_count(), b.page_count());
    assert_eq!(a.pages(), b.pages());
    assert_eq!(a.cursor(), b.cursor());
    assert!(a.page_count() >= 2);
}

#[test]
fn layout_is_the_blocks_rendered_in_order() {
    let blocks = vec![
        block("Title", FontWeight::Bold, 20, false),
        block("first item", FontWeight::Regular, 12, true),
        block("second item", FontWeight::Regular, 12, true),
    ];
    let d = layout(a4(), &blocks).unwrap();
    let lines = all_lines(&d);
    assert_eq!(lines.len(), 3);
    assert_eq!(lines[0].text, "Title");
    assert_eq!(lines[0].weight, FontWeight::Bold);
    assert_eq!(lines[0].size, 20);
    assert_eq!(lines[1].text, "\u{2022} first item");
    assert_eq!(lines[2].text, "\u{2022} second item");
    assert_eq!(lines[0].y, 280);
    assert_eq!(lines[1].y, 271);
    assert_eq!(lines[2].y, 262);
}

#[test]
fn zero_length_is_rejected() {
    for k in 0..7 {
        let mut v = [210u32, 297, 20, 20, 17, 17, 9];
        v[k] = 0;
        let g = PageGeometry {
            width: v[0],
            height: v[1],
            margin_left: v[2],
            margin_right: v[3],
            margin_top: v[4],
            margin_bottom: v[5],
            line_height: v[6],
        };
        assert_eq!(g.check(), Err(ConfigurationError::ZeroLength));
        assert!(matches!(Document::new(g), Err(ConfigurationError::ZeroLength)));
    }
}

#[test]
fn margins_that_leave_no_width_are_rejected() {
    let mut g = a4();
    g.margin_left = 105;
    g.margin_right = 105;
    assert_eq!(g.check(), Err(ConfigurationError::NoUsableWidth));
    assert!(matches!(Document::new(g), Err(ConfigurationError::NoUsableWidth)));
    g.margin_right = 104;
    assert_eq!(g.check(), Ok(()));
    g.margin_left = u32::MAX;
    g.margin_right = u32::MAX;
    assert_eq!(g.check(), Err(ConfigurationError::NoUsableWidth));
}

#[test]
fn margins_that_leave_no_height_are_rejected() {
    let mut g = a4();
    g.margin_top = 200;
    g.margin_bottom = 97;
    assert_eq!(g.check(), Err(ConfigurationError::NoUsableHeight));
    assert!(matches!(Document::new(g), Err(ConfigurationError::NoUsableHeight)));
    assert!(matches!(layout(g, &Vec::new()), Err(ConfigurationError::NoUsableHeight)));
    g.margin_bottom = 96;
    assert_eq!(g.check(), Ok(()));
}

#[test]
fn block_that_cannot_be_set_leaves_the_document_as_it_was() {
    let mut d = Document::new(a4()).unwrap();
    d.place_line("first".to_string(), FontWeight::Regular, 12);
    let r = d.render_block(&block("text", FontWeight::Regular, 0, false));
    assert_eq!(r, Err(ConfigurationError::ZeroFontSize));
    let r = d.render_block(&block("text", FontWeight::Regular, 400, false));
    assert_eq!(r, Err(ConfigurationError::LineTooNarrow));
    assert_eq!(d.page_count(), 1);
    assert_eq!(d.pages()[0].lines.len(), 1);
    assert_eq!(d.cursor(), Some(Cursor { page: 0, y: 271 }));
}

#[test]
fn blocks_are_rendered_all_or_none() {
    let mut d = Document::new(a4()).unwrap();
    let blocks = vec![
        block("good", FontWeight::Regular, 12, false),
        block("too large", FontWeight::Regular, 1000, false),
        block("no size", FontWeight::Regular, 0, false),
    ];
    assert_eq!(d.render_blocks(&blocks), Err(ConfigurationError::LineTooNarrow));
    assert_eq!(d.page_count(), 0);
    assert!(matches!(layout(a4(), &blocks), Err(ConfigurationError::LineTooNarrow)));
    assert_eq!(d.render_blocks(&blocks[..1].to_vec()), Ok(()));
    assert_eq!(d.page_count(), 1);
}

#[test]
fn summary_is_laid_out_in_sections() {
    let keywords = vec!["rust".to_string(), "verification".to_string()];
    let summary = vec!["A sentence".to_string()];
    let links = vec!["https://www.google.com/search?q=rust".to_string()];
    let d = layout_summary(&keywords, &summary, &links);
    assert_eq!(d.geometry(), a4());
    let lines = all_lines(&d);
    let got: Vec<(String, u32, u32, FontWeight)> =
        lines.iter().map(|l| (l.text.clone(), l.y, l.size, l.weight)).collect();
    let want = vec![
        ("Lecture Summary".to_string(), 280, 20, FontWeight::Bold),
        ("Keywords:".to_string(), 267, 14, FontWeight::Bold),
        ("\u{2022} rust".to_string(), 258, 12, FontWeight::Regular),
        ("\u{2022} verification".to_string(), 249, 12, FontWeight::Regular),
        ("Summary:".to_string(), 238, 14, FontWeight::Bold),
        ("\u{2022} A sentence".to_string(), 229, 12, FontWeight::Regular),
        ("Links:".to_string(), 218, 14, FontWeight::Bold),
        ("\u{2022} https://www.google.com/search?q".to_string(), 209, 12, FontWeight::Regular),
        ("=rust".to_string(), 200, 12, FontWeight::Regular),
    ];
    assert_eq!(got, want);
    assert_eq!(d.page_count(), 1);
    assert_eq!(d.cursor(), Some(Cursor { page: 0, y: 191 }));
}

#[test]
fn summary_without_items_has_title_and_headings() {
    let d = layout_summary(&[], &[], &[]);
    let lines = all_lines(&d);
    assert_eq!(lines.len(), 4);
    assert_eq!(lines[3].text, "Links:");
    assert_eq!(lines[3].y, 280 - 9 - 4 - 9 - 2 - 9 - 2);
}
