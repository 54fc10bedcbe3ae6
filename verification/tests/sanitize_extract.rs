use rwiki::extract::parse_content_blocks;
use rwiki::process_article;
use rwiki::sanitize::sanitize;
use rwiki::session::ContentBlock;

#[test]
fn infobox_captured_and_deleted() {
    let markup = "<table class=\"infobox\">X</table><p>Hello</p>";
    let (captured, cleaned) = sanitize(markup);
    assert_eq!(captured.as_deref(), Some("<table class=\"infobox\">X</table>"));
    assert_eq!(cleaned, "<p>Hello</p>");
}

#[test]
fn first_infobox_wins() {
    let markup = "<table class=\"infobox\">A</table><table class=\"infobox\">B</table>";
    let (captured, cleaned) = sanitize(markup);
    assert_eq!(captured.as_deref(), Some("<table class=\"infobox\">A</table>"));
    assert_eq!(cleaned, "");
}

#[test]
fn unrelated_table_untouched() {
    let markup = "<table class=\"wikitable\">data</table><p>t</p>";
    let (captured, cleaned) = sanitize(markup);
    assert!(captured.is_none());
    assert_eq!(cleaned, markup);
}

#[test]
fn each_keyworded_occurrence_removed() {
    let markup = "<table class=\"sidebar\">a</table><table>keep</table>\
        <table class=\"metadata\">b</table>tail";
    let (captured, cleaned) = sanitize(markup);
    assert!(captured.is_none());
    assert_eq!(cleaned, "<table>keep</table>tail");
}

#[test]
fn nested_same_element_extent() {
    let markup = "<table class=\"navbox vertical-navbox\">out<table>in</table>er</table>rest";
    let (_, cleaned) = sanitize(markup);
    assert_eq!(cleaned, "rest");
}

#[test]
fn unmatched_close_aborts_pass() {
    let markup = "<table class=\"sidebar\">never closed";
    let (captured, cleaned) = sanitize(markup);
    assert!(captured.is_none());
    assert_eq!(cleaned, markup);
}

#[test]
fn div_chrome_removed() {
    let markup = "<div class=\"hatnote\">note</div><p>x</p><div class=\"toc\">toc</div>";
    let (_, cleaned) = sanitize(markup);
    assert_eq!(cleaned, "<p>x</p>");
}

#[test]
fn article_scenario_infobox_text_image() {
    let markup = "<table class=\"infobox\">X</table><p>Hello</p>\
        <img src=\"//upload.wikimedia.org/a.png\" width=\"200\">";
    let (info, blocks, urls, chapters) = process_article(markup);
    assert!(info.contains('X'));
    assert_eq!(blocks.len(), 2);
    match &blocks[0] {
        ContentBlock::Text(t) => assert_eq!(t, "Hello"),
        ContentBlock::Image(_) => panic!("expected a text block first"),
    }
    match &blocks[1] {
        ContentBlock::Image(u) => assert_eq!(u, "https://upload.wikimedia.org/a.png"),
        ContentBlock::Text(_) => panic!("expected an image block second"),
    }
    assert_eq!(urls, vec!["https://upload.wikimedia.org/a.png".to_string()]);
    assert_eq!(chapters.len(), 0);
}

#[test]
fn small_image_rejected() {
    let markup = "<p>a</p><img src=\"//upload.wikimedia.org/i.png\" width=\"80\"><p>b</p>";
    let (blocks, urls, _) = parse_content_blocks(markup);
    assert!(urls.is_empty());
    assert!(blocks.iter().all(|b| matches!(b, ContentBlock::Text(_))));
}

#[test]
fn foreign_host_rejected() {
    let markup = "<p>a</p><img src=\"https://example.com/i.png\" width=\"500\">";
    let (_, urls, _) = parse_content_blocks(markup);
    assert!(urls.is_empty());
}

#[test]
fn vector_asset_rejected() {
    let markup = "<img src=\"//upload.wikimedia.org/i.svg\" width=\"500\">";
    let (blocks, urls, _) = parse_content_blocks(markup);
    assert!(urls.is_empty());
    assert!(blocks.is_empty());
}

#[test]
fn missing_width_rejected() {
    let markup = "<img src=\"//upload.wikimedia.org/i.png\">";
    let (_, urls, _) = parse_content_blocks(markup);
    assert!(urls.is_empty());
}

#[test]
fn blocks_keep_document_order() {
    let markup = "<p>one</p>\
        <img src=\"//upload.wikimedia.org/a.png\" width=\"300\">\
        <p>two</p>\
        <img src=\"//upload.wikimedia.org/b.png\" width=\"300\">\
        <p>three</p>";
    let (blocks, urls, _) = parse_content_blocks(markup);
    let kinds: Vec<&str> = blocks
        .iter()
        .map(|b| match b {
            ContentBlock::Text(_) => "text",
            ContentBlock::Image(_) => "image",
        })
        .collect();
    assert_eq!(kinds, vec!["text", "image", "text", "image", "text"]);
    // The reported addresses are the image blocks' addresses, in order.
    let from_blocks: Vec<String> = blocks
        .iter()
        .filter_map(|b| match b {
            ContentBlock::Image(u) => Some(u.clone()),
            ContentBlock::Text(_) => None,
        })
        .collect();
    assert_eq!(from_blocks, urls);
}

#[test]
fn headers_become_chapters_with_positions() {
    let markup = "<p>==History==</p><p>Early days.</p>\
        <img src=\"//upload.wikimedia.org/a.png\" width=\"300\">\
        <p>==Legacy==</p><p>Much later.</p>";
    let (blocks, _, chapters) = parse_content_blocks(markup);
    assert_eq!(chapters.len(), 2);
    assert_eq!(chapters[0].index, 1);
    assert_eq!(chapters[0].title, "History");
    assert_eq!(chapters[1].index, 2);
    assert_eq!(chapters[1].title, "Legacy");
    // Positions sit inside the block list and never decrease.
    for c in &chapters {
        assert!(c.block_position <= blocks.len());
    }
    assert!(chapters[0].block_position <= chapters[1].block_position);
    // The header line stays in the text block, marked for styled rendering.
    match &blocks[0] {
        ContentBlock::Text(t) => assert!(t.starts_with("###HEADER###History")),
        ContentBlock::Image(_) => panic!("expected text first"),
    }
}

#[test]
fn contents_header_discarded() {
    let markup = "<p>==Contents==</p><p>body</p>";
    let (blocks, _, chapters) = parse_content_blocks(markup);
    assert_eq!(chapters.len(), 0);
    match &blocks[0] {
        ContentBlock::Text(t) => assert_eq!(t, "body"),
        ContentBlock::Image(_) => panic!("expected text"),
    }
}

#[test]
fn boilerplate_lines_dropped() {
    let markup = "<p>* Jump to search</p><p>This article is part of a series on things</p>\
        <p>kept line</p>";
    let (blocks, _, _) = parse_content_blocks(markup);
    assert_eq!(blocks.len(), 1);
    match &blocks[0] {
        ContentBlock::Text(t) => assert_eq!(t, "kept line"),
        ContentBlock::Image(_) => panic!("expected text"),
    }
}

#[test]
fn empty_markup_yields_nothing() {
    let (blocks, urls, chapters) = parse_content_blocks("");
    assert!(blocks.is_empty());
    assert!(urls.is_empty());
    assert!(chapters.is_empty());
}
