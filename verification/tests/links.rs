use cognistruct::adapters::obsidian::links::{
    extract_block_references, extract_embeds, extract_external_links, extract_wikilinks,
    link_from_match, markers_from_matches, parse_link_text, BlockReference, LinkScan,
};
use cognistruct::adapters::{ExtractedLink, LinkKind};

#[test]
fn test_extracted_link_creation() {
    let link = ExtractedLink::new("target", LinkKind::WikiLink)
        .with_display_text("display")
        .with_line_number(10);

    assert_eq!(link.target, "target");
    assert_eq!(link.kind, LinkKind::WikiLink);
    assert_eq!(link.display_text, Some("display".to_string()));
    assert_eq!(link.line_number, Some(10));
}

#[test]
fn test_extract_wikilinks_basic() {
    let content = "Link to [[Page A]] and then [[Page B]].";
    let links = extract_wikilinks(content);

    assert_eq!(links.len(), 2);
    assert!(links.iter().any(|l| l.target == "Page A"));
    assert!(links.iter().any(|l| l.target == "Page B"));
}

#[test]
fn test_extract_wikilinks_with_alias() {
    let content = "See [[Real Page|Display Text]] for more.";
    let links = extract_wikilinks(content);

    assert_eq!(links.len(), 1);
    assert_eq!(links[0].target, "Real Page");
    assert_eq!(links[0].display_text, Some("Display Text".to_string()));
}

#[test]
fn test_extract_wikilinks_with_heading() {
    let content = "Jump to [[Page#Section]] directly.";
    let links = extract_wikilinks(content);

    assert_eq!(links.len(), 1);
    assert_eq!(links[0].target, "Page");
}

#[test]
fn test_extract_wikilinks_excludes_embeds() {
    let content = "Link [[A]] and embed ![[B]].";
    let links = extract_wikilinks(content);

    assert_eq!(links.len(), 1);
    assert_eq!(links[0].target, "A");
}

#[test]
fn test_extract_embeds() {
    let content = "Image: ![[photo.png]]\nAnother: ![[doc.pdf]]";
    let embeds = extract_embeds(content);

    assert_eq!(embeds.len(), 2);
    assert!(embeds.iter().all(|l| l.kind == LinkKind::Embed));
    assert!(embeds.iter().any(|l| l.target == "photo.png"));
}

#[test]
fn test_extract_external_links() {
    let content = "Visit [Google](https://google.com) and [GitHub](https://github.com).";
    let links = extract_external_links(content);

    assert_eq!(links.len(), 2);
    assert!(links.iter().all(|l| l.kind == LinkKind::External));
    assert!(links.iter().any(|l| l.target.contains("google.com")));
}

#[test]
fn test_extract_block_references() {
    let content = "Paragraph one ^abc123\n\nParagraph two ^def456";
    let refs = extract_block_references(content);

    assert_eq!(refs.len(), 2);
    assert_eq!(refs[0].id, "abc123");
    assert_eq!(refs[0].line_number, 1);
    assert_eq!(refs[1].id, "def456");
    assert_eq!(refs[1].line_number, 3);
}

#[test]
fn test_block_reference_new() {
    let br = BlockReference::new("test-id", 5);
    assert_eq!(br.id, "test-id");
    assert_eq!(br.line_number, 5);
}

#[test]
fn test_parse_link_text() {
    let (target, display) = parse_link_text("Simple Link");
    assert_eq!(target, "Simple Link");
    assert!(display.is_none());

    let (target, display) = parse_link_text("Real|Alias");
    assert_eq!(target, "Real");
    assert_eq!(display, Some("Alias".to_string()));

    let (target, display) = parse_link_text("Note#Section");
    assert_eq!(target, "Note");
    assert!(display.is_none());
}

#[test]
fn test_line_numbers() {
    let content = "Line 1 [[A]]\nLine 2\nLine 3 [[B]]";
    let links = extract_wikilinks(content);

    assert_eq!(links.len(), 2);
    assert_eq!(links[0].line_number, Some(1));
    assert_eq!(links[1].line_number, Some(3));
}

#[test]
fn wikilinks_with_display_text_on_one_line() {
    let links = extract_wikilinks("Link to [[Page A]] and [[Page B|display]].");

    assert_eq!(links.len(), 2);
    assert!(links.iter().all(|l| l.kind == LinkKind::WikiLink));
    assert_eq!(links[0].target, "Page A");
    assert_eq!(links[0].display_text, None);
    assert_eq!(links[1].target, "Page B");
    assert_eq!(links[1].display_text, Some("display".to_string()));
}

#[test]
fn embed_is_no_wikilink_but_an_embed() {
    let content = "Link [[A]] and embed ![[B]].";
    let embeds = extract_embeds(content);

    assert_eq!(embeds.len(), 1);
    assert_eq!(embeds[0].kind, LinkKind::Embed);
    assert_eq!(embeds[0].target, "B");
    assert_eq!(embeds[0].line_number, Some(1));
}

#[test]
fn block_reference_link_wins_over_wikilink_on_its_span_only() {
    let links = extract_wikilinks("See [[Plain]] and [[Note#^abc-1]] and [[Other#^x_2|shown]].");

    assert_eq!(links.len(), 3);
    assert_eq!(links[0].kind, LinkKind::WikiLink);
    assert_eq!(links[0].target, "Plain");
    assert_eq!(links[1].kind, LinkKind::BlockReference);
    assert_eq!(links[1].target, "Note");
    assert_eq!(links[1].display_text, Some("Note#^abc-1".to_string()));
    assert_eq!(links[2].kind, LinkKind::BlockReference);
    assert_eq!(links[2].target, "Other");
    assert_eq!(links[2].display_text, Some("Other#^x_2".to_string()));
}

#[test]
fn external_link_without_text_has_no_display_text() {
    let links = extract_external_links("a [](http://example.org/x) b\n[t](ftp://no) [u](https://u.example)");

    assert_eq!(links.len(), 2);
    assert_eq!(links[0].target, "http://example.org/x");
    assert_eq!(links[0].display_text, None);
    assert_eq!(links[0].line_number, Some(1));
    assert_eq!(links[1].target, "https://u.example");
    assert_eq!(links[1].display_text, Some("u".to_string()));
    assert_eq!(links[1].line_number, Some(2));
}

#[test]
fn carriage_returns_belong_to_the_line_terminator() {
    let links = extract_wikilinks("[[A]]\r\n\r\n[[B]]\r\n");

    assert_eq!(links.len(), 2);
    assert_eq!(links[0].line_number, Some(1));
    assert_eq!(links[1].line_number, Some(3));
}

#[test]
fn an_alias_behind_an_anchor_is_the_display_text() {
    let links = extract_wikilinks("See [[Page#Section|alias]] and [[Other | shown #not an anchor ]].");
    assert_eq!(links.len(), 2);
    assert_eq!(links[0].target, "Page");
    assert_eq!(links[0].display_text, Some("alias".to_string()));
    assert_eq!(links[1].target, "Other");
    assert_eq!(links[1].display_text, Some("shown #not an anchor".to_string()));

    assert_eq!(parse_link_text("A#h|x|y"), ("A".to_string(), Some("x|y".to_string())));
    assert_eq!(parse_link_text("A|"), ("A".to_string(), Some(String::new())));
    assert_eq!(parse_link_text("#h"), (String::new(), None));
}

#[test]
fn markers_come_from_the_first_group_of_every_match() {
    let some = |s: &str| Some(s.to_string());
    let matches = vec![
        vec![some("^abc"), some("abc")],
        vec![some("^")],
        vec![some("^?"), None],
        vec![some("^d-1"), some("d-1")],
    ];
    let markers = markers_from_matches(&matches, 7);
    assert_eq!(markers.len(), 2);
    assert_eq!((markers[0].id.as_str(), markers[0].line_number), ("abc", 7));
    assert_eq!((markers[1].id.as_str(), markers[1].line_number), ("d-1", 7));
    assert!(markers_from_matches(&Vec::new(), 1).is_empty());
}

#[test]
fn a_match_becomes_a_link_by_the_scan_that_found_it() {
    let some = |s: &str| Some(s.to_string());
    let wiki = link_from_match(LinkScan::WikiLinks, &vec![some("[[A#h|x]]"), some("A#h|x")], 3);
    assert_eq!(wiki.len(), 1);
    assert_eq!(wiki[0].kind, LinkKind::WikiLink);
    assert_eq!(wiki[0].target, "A");
    assert_eq!(wiki[0].display_text, some("x"));
    assert_eq!(wiki[0].line_number, Some(3));

    let block = link_from_match(LinkScan::WikiLinks, &vec![some("[[N#^b1]]"), some("N#^b1")], 4);
    assert_eq!(block.len(), 1);
    assert_eq!(block[0].kind, LinkKind::BlockReference);
    assert_eq!(block[0].target, "N");
    assert_eq!(block[0].display_text, some("N#^b1"));

    assert!(link_from_match(LinkScan::WikiLinks, &vec![some("[[A]]")], 1).is_empty());
    assert!(link_from_match(LinkScan::Embeds, &vec![some("![[A]]"), None], 1).is_empty());

    let embed = link_from_match(LinkScan::Embeds, &vec![some("![[P#h|x]]"), some("P#h|x")], 5);
    assert_eq!((embed[0].kind, embed[0].target.as_str()), (LinkKind::Embed, "P"));
    assert_eq!(embed[0].display_text, None);

    let bare = link_from_match(LinkScan::External, &vec![some("[](x)"), some(""), None], 6);
    assert_eq!(bare.len(), 1);
    assert_eq!(bare[0].target, "");
    assert_eq!(bare[0].display_text, None);
}
