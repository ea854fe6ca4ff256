//! Links, embeds and block markers in the text of a note.
//!
//! The text is read line by line, so that every link knows its line. On each
//! line the patterns below are matched by the `regex` crate; what a match
//! means is decided here.
use crate::adapters::obsidian::pattern::{
    captures_of, find_captures, group, group_text, replace_matches, replaced_of,
};
use crate::adapters::{ExtractedLink, ExtractedLinkView, LinkKind};
use crate::seqs::{
    concat_all, lemma_concat_all_every, lemma_concat_all_step, lemma_views_add, lemma_views_push,
    views,
};
use crate::text::{
    before_first, copy_range, from_chars, index_of, index_of_char, lemma_before_first_keeps_out,
    lemma_index_of, lemma_trim_keeps_out, lines, split_lines, to_chars, trim, trim_chars,
};
use vstd::prelude::*;

verus! {

/// `[[...]]`, with the text between the brackets as group 1.
pub const WIKILINK_PATTERN: &'static str = r"\[\[([^\]]+)\]\]";

/// `![[...]]`, with the text between the brackets as group 1.
pub const EMBED_PATTERN: &'static str = r"!\[\[([^\]]+)\]\]";

/// `[text](http://...)` or `[text](https://...)`: the text is group 1, the
/// URL group 2.
pub const EXTERNAL_LINK_PATTERN: &'static str = r"\[([^\]]*)\]\((https?://[^\)]+)\)";

/// `^blockid`, with the identifier as group 1.
pub const BLOCK_ID_PATTERN: &'static str = r"\^([\w\-_]+)";

/// `[[note#^blockid]]`, optionally with `|alias`: the note is group 1, the
/// block identifier group 2.
pub const BLOCK_REFERENCE_PATTERN: &'static str = r"\[\[([^#\]]+)#\^([\w\-_]+)(?:\|[^\]]+)?\]\]";

/// A block marker `^blockid` in the text of a note.
#[derive(Debug, Clone)]
pub struct BlockReference {
    /// The identifier, without the `^`.
    pub id: String,
    /// The line that holds the marker, counted from 1.
    pub line_number: usize,
}

/// The mathematical value of a [`BlockReference`].
pub struct BlockReferenceView {
    pub id: Seq<char>,
    pub line_number: usize,
}

impl View for BlockReference {
    type V = BlockReferenceView;

    open spec fn view(&self) -> BlockReferenceView {
        BlockReferenceView { id: self.id@, line_number: self.line_number }
    }
}

impl BlockReference {
    /// The marker `^id` on line `line_number`.
    pub fn new(id: &str, line_number: usize) -> (r: Self)
        ensures
            r@ == (BlockReferenceView { id: id@, line_number }),
    {
        BlockReference { id: id.to_owned(), line_number }
    }
}

/// The view of an optional string.
pub open spec fn option_text(o: Option<String>) -> Option<Seq<char>> {
    match o {
        Some(s) => Some(s@),
        None => None,
    }
}

/// The target that the text between `[[` and `]]` names: what stands before
/// the first `#` and before the first `|`, trimmed.
pub open spec fn link_target(link_text: Seq<char>) -> Seq<char> {
    let head = before_first(link_text, '#');
    trim(head.take(index_of(head, '|', 0)))
}

/// The display text that the text between `[[` and `]]` gives: where the
/// text holds a `|`, what follows the first `|`, trimmed.
pub open spec fn link_display(link_text: Seq<char>) -> Option<Seq<char>> {
    let bar = index_of(link_text, '|', 0);
    if bar < link_text.len() {
        Some(trim(link_text.skip(bar + 1)))
    } else {
        None
    }
}

/// Which links a scan of the text looks for.
#[derive(Debug, Clone, Copy, PartialEq, Eq, Structural)]
pub enum LinkScan {
    WikiLinks,
    Embeds,
    External,
}

/// The link that one match of the wiki-link pattern stands for. Where the
/// block-reference pattern matches the same span, with a note that holds
/// no `#`, the link is a block reference.
pub open spec fn wikilink_of_match(found: Seq<Option<Seq<char>>>, number: usize) -> Seq<
    ExtractedLinkView,
> {
    match (group(found, 0), group(found, 1)) {
        (Some(span), Some(inner)) => {
            let block = captures_of(BLOCK_REFERENCE_PATTERN@, span);
            if block.len() > 0 && group(block[0], 0) == Some(span) && group(block[0], 1) is Some
                && group(block[0], 2) is Some && !(group(block[0], 1)->0).contains('#') {
                let note = group(block[0], 1)->0;
                let id = group(block[0], 2)->0;
                seq![
                    ExtractedLinkView {
                        target: note,
                        kind: LinkKind::BlockReference,
                        display_text: Some(note + "#^"@ + id),
                        line_number: Some(number),
                    },
                ]
            } else {
                seq![
                    ExtractedLinkView {
                        target: link_target(inner),
                        kind: LinkKind::WikiLink,
                        display_text: link_display(inner),
                        line_number: Some(number),
                    },
                ]
            }
        },
        _ => Seq::empty(),
    }
}

/// The embed that one match of the embed pattern stands for.
pub open spec fn embed_of_match(found: Seq<Option<Seq<char>>>, number: usize) -> Seq<
    ExtractedLinkView,
> {
    match group(found, 1) {
        Some(inner) => seq![
            ExtractedLinkView {
                target: link_target(inner),
                kind: LinkKind::Embed,
                display_text: None,
                line_number: Some(number),
            },
        ],
        None => Seq::empty(),
    }
}

/// The external link that one match of the external-link pattern stands for.
pub open spec fn external_of_match(found: Seq<Option<Seq<char>>>, number: usize) -> Seq<
    ExtractedLinkView,
> {
    seq![
        ExtractedLinkView {
            target: match group(found, 2) {
                Some(url) => url,
                None => Seq::empty(),
            },
            kind: LinkKind::External,
            display_text: match group(found, 1) {
                Some(text) => if text.len() > 0 {
                    Some(text)
                } else {
                    None
                },
                None => None,
            },
            line_number: Some(number),
        },
    ]
}

/// The link that one match stands for in a scan.
pub open spec fn link_of_match(scan: LinkScan, found: Seq<Option<Seq<char>>>, number: usize) -> Seq<
    ExtractedLinkView,
> {
    match scan {
        LinkScan::WikiLinks => wikilink_of_match(found, number),
        LinkScan::Embeds => embed_of_match(found, number),
        LinkScan::External => external_of_match(found, number),
    }
}

/// The matches that a scan looks at on one line. Wiki-links are looked for
/// in the line without its embeds.
pub open spec fn matches_in_line(scan: LinkScan, line: Seq<char>) -> Seq<Seq<Option<Seq<char>>>> {
    match scan {
        LinkScan::WikiLinks => captures_of(
            WIKILINK_PATTERN@,
            replaced_of(EMBED_PATTERN@, line, ""@),
        ),
        LinkScan::Embeds => captures_of(EMBED_PATTERN@, line),
        LinkScan::External => captures_of(EXTERNAL_LINK_PATTERN@, line),
    }
}

/// The links of a scan on line `number`, from left to right.
pub open spec fn links_in_line(scan: LinkScan, line: Seq<char>, number: usize) -> Seq<
    ExtractedLinkView,
> {
    let found = matches_in_line(scan, line);
    concat_all(Seq::new(found.len(), |k: int| link_of_match(scan, found[k], number)))
}

/// The links of a scan over the whole text: line after line, each line
/// numbered from 1.
pub open spec fn links_in_text(scan: LinkScan, content: Seq<char>) -> Seq<ExtractedLinkView> {
    let ls = lines(content);
    concat_all(Seq::new(ls.len(), |i: int| links_in_line(scan, ls[i], (i + 1) as usize)))
}

/// The wiki-links and block-reference links of `content`.
pub open spec fn wikilinks(content: Seq<char>) -> Seq<ExtractedLinkView> {
    links_in_text(LinkScan::WikiLinks, content)
}

/// The embeds of `content`.
pub open spec fn embeds(content: Seq<char>) -> Seq<ExtractedLinkView> {
    links_in_text(LinkScan::Embeds, content)
}

/// The external links of `content`.
pub open spec fn external_links(content: Seq<char>) -> Seq<ExtractedLinkView> {
    links_in_text(LinkScan::External, content)
}

/// The block marker that one match of the block-marker pattern stands for.
pub open spec fn marker_of_match(found: Seq<Option<Seq<char>>>, number: usize) -> Seq<
    BlockReferenceView,
> {
    match group(found, 1) {
        Some(id) => seq![BlockReferenceView { id, line_number: number }],
        None => Seq::empty(),
    }
}

/// The block markers on line `number`, from left to right.
pub open spec fn markers_in_line(line: Seq<char>, number: usize) -> Seq<BlockReferenceView> {
    let found = captures_of(BLOCK_ID_PATTERN@, line);
    concat_all(Seq::new(found.len(), |k: int| marker_of_match(found[k], number)))
}

/// The block markers of `content`: line after line, each line numbered
/// from 1.
pub open spec fn block_markers(content: Seq<char>) -> Seq<BlockReferenceView> {
    let ls = lines(content);
    concat_all(Seq::new(ls.len(), |i: int| markers_in_line(ls[i], (i + 1) as usize)))
}

/// The target of a link holds no `#`: a heading or block anchor is no
/// part of it.
pub proof fn lemma_link_target_has_no_anchor(link_text: Seq<char>)
    ensures
        !link_target(link_text).contains('#'),
{
    let head = before_first(link_text, '#');
    lemma_index_of(head, '|', 0);
    lemma_before_first_keeps_out(link_text, '#', index_of(head, '|', 0));
    lemma_trim_keeps_out(head.take(index_of(head, '|', 0)), '#');
}

/// No wiki-link and no block reference of a text has a `#` in its target,
/// whatever the text is and wherever the patterns match.
pub proof fn lemma_wikilink_targets_have_no_anchor(content: Seq<char>)
    ensures
        forall|i: int|
            0 <= i < wikilinks(content).len() ==> !(#[trigger] wikilinks(content)[i]).target.contains(
                '#',
            ),
{
    let clean = |link: ExtractedLinkView| !link.target.contains('#');
    let all = lines(content);
    let per_line = Seq::new(
        all.len(),
        |i: int| links_in_line(LinkScan::WikiLinks, all[i], (i + 1) as usize),
    );
    assert forall|k: int, i: int|
        0 <= k < per_line.len() && 0 <= i < per_line[k].len() implies clean(
        #[trigger] per_line[k][i],
    ) by {
        let number = (k + 1) as usize;
        let found = matches_in_line(LinkScan::WikiLinks, all[k]);
        let per_match = Seq::new(
            found.len(),
            |m: int| link_of_match(LinkScan::WikiLinks, found[m], number),
        );
        assert forall|m: int, j: int|
            0 <= m < per_match.len() && 0 <= j < per_match[m].len() implies clean(
            #[trigger] per_match[m][j],
        ) by {
            match (group(found[m], 0), group(found[m], 1)) {
                (Some(span), Some(inner)) => {
                    lemma_link_target_has_no_anchor(inner);
                },
                _ => {},
            }
        }
        lemma_concat_all_every(per_match, clean);
    }
    lemma_concat_all_every(per_line, clean);
}

/// Splits the text between `[[` and `]]` into target and display text.
/// The target ends before the first `#` and before the first `|`: a heading
/// or block anchor is no part of it. The display text is what follows the
/// first `|`.
pub fn parse_link_text(link_text: &str) -> (r: (String, Option<String>))
    ensures
        r.0@ == link_target(link_text@),
        option_text(r.1) == link_display(link_text@),
{
    let chars = to_chars(link_text);
    let hash = index_of_char(&chars, '#', 0);
    let head = copy_range(&chars, 0, hash);
    let end = index_of_char(&head, '|', 0);
    let target = trim_chars(&copy_range(&head, 0, end));
    let bar = index_of_char(&chars, '|', 0);
    if bar < chars.len() {
        let display = trim_chars(&copy_range(&chars, bar + 1, chars.len()));
        (from_chars(&target), Some(from_chars(&display)))
    } else {
        (from_chars(&target), None)
    }
}

fn wikilink_from_match(found: &Vec<Option<String>>, number: usize) -> (r: Vec<ExtractedLink>)
    ensures
        views(r@) == wikilink_of_match(found.deep_view(), number),
{
    let mut out: Vec<ExtractedLink> = Vec::new();
    let span = match group_text(found, 0) {
        Some(span) => span,
        None => {
            assert(views(out@) =~= Seq::empty());
            return out;
        },
    };
    let inner = match group_text(found, 1) {
        Some(inner) => inner,
        None => {
            assert(views(out@) =~= Seq::empty());
            return out;
        },
    };
    let block = find_captures(BLOCK_REFERENCE_PATTERN, span.as_str());
    if block.len() > 0 {
        assert(block.deep_view()[0] == block@[0].deep_view());
        let whole = group_text(&block[0], 0);
        let note = group_text(&block[0], 1);
        let id = group_text(&block[0], 2);
        match (whole, note, id) {
            (Some(whole), Some(note), Some(id)) => {
                let name = to_chars(note.as_str());
                proof {
                    lemma_index_of(name@, '#', 0);
                    if name@.contains('#') {
                        let at = choose|at: int| 0 <= at < name@.len() && name@[at] == '#';
                        assert(index_of(name@, '#', 0) <= at);
                    }
                }
                if *whole == *span && index_of_char(&name, '#', 0) == name.len() {
                    let mut display = to_chars(note.as_str());
                    crate::text::push_str(&mut display, "#^");
                    crate::text::push_str(&mut display, id.as_str());
                    let link = ExtractedLink {
                        target: note.clone(),
                        kind: LinkKind::BlockReference,
                        display_text: Some(from_chars(&display)),
                        line_number: Some(number),
                    };
                    out.push(link);
                    assert(views(out@) =~= seq![link@]);
                    return out;
                }
            },
            _ => {},
        }
    }
    let (target, display) = parse_link_text(inner.as_str());
    let link = ExtractedLink {
        target,
        kind: LinkKind::WikiLink,
        display_text: display,
        line_number: Some(number),
    };
    out.push(link);
    assert(views(out@) =~= seq![link@]);
    out
}

fn embed_from_match(found: &Vec<Option<String>>, number: usize) -> (r: Vec<ExtractedLink>)
    ensures
        views(r@) == embed_of_match(found.deep_view(), number),
{
    let mut out: Vec<ExtractedLink> = Vec::new();
    match group_text(found, 1) {
        Some(inner) => {
            let (target, _display) = parse_link_text(inner.as_str());
            let link = ExtractedLink {
                target,
                kind: LinkKind::Embed,
                display_text: None,
                line_number: Some(number),
            };
            out.push(link);
            assert(views(out@) =~= seq![link@]);
        },
        None => {
            assert(views(out@) =~= Seq::empty());
        },
    }
    out
}

fn external_from_match(found: &Vec<Option<String>>, number: usize) -> (r: Vec<ExtractedLink>)
    ensures
        views(r@) == external_of_match(found.deep_view(), number),
{
    let mut out: Vec<ExtractedLink> = Vec::new();
    let target = match group_text(found, 2) {
        Some(url) => url.clone(),
        None => String::new(),
    };
    let display_text = match group_text(found, 1) {
        Some(text) => if text.as_str().unicode_len() > 0 {
            Some(text.clone())
        } else {
            None
        },
        None => None,
    };
    let link = ExtractedLink {
        target,
        kind: LinkKind::External,
        display_text,
        line_number: Some(number),
    };
    out.push(link);
    assert(views(out@) =~= seq![link@]);
    out
}

/// The link that one match of the pattern of `scan` stands for, on line
/// `number`. `found` holds the capture groups of the match.
pub fn link_from_match(scan: LinkScan, found: &Vec<Option<String>>, number: usize) -> (r: Vec<
    ExtractedLink,
>)
    ensures
        views(r@) == link_of_match(scan, found.deep_view(), number),
{
    match scan {
        LinkScan::WikiLinks => wikilink_from_match(found, number),
        LinkScan::Embeds => embed_from_match(found, number),
        LinkScan::External => external_from_match(found, number),
    }
}

fn scan_line(scan: LinkScan, line: &str, number: usize) -> (r: Vec<ExtractedLink>)
    ensures
        views(r@) == links_in_line(scan, line@, number),
{
    let found = match scan {
        LinkScan::WikiLinks => {
            let without_embeds = replace_matches(EMBED_PATTERN, line, "");
            find_captures(WIKILINK_PATTERN, without_embeds.as_str())
        },
        LinkScan::Embeds => find_captures(EMBED_PATTERN, line),
        LinkScan::External => find_captures(EXTERNAL_LINK_PATTERN, line),
    };
    let ghost all = matches_in_line(scan, line@);
    let ghost per_match = Seq::new(all.len(), |k: int| link_of_match(scan, all[k], number));
    let mut out: Vec<ExtractedLink> = Vec::new();
    let mut k: usize = 0;
    assert(views(out@) =~= concat_all(per_match.take(0)));
    while k < found.len()
        invariant
            k <= found@.len(),
            found.deep_view() == all,
            per_match == Seq::new(all.len(), |k: int| link_of_match(scan, all[k], number)),
            views(out@) == concat_all(per_match.take(k as int)),
        decreases found@.len() - k,
    {
        let mut links = link_from_match(scan, &found[k], number);
        proof {
            assert(found.deep_view()[k as int] == found@[k as int].deep_view());
            lemma_concat_all_step(per_match, k as int);
            lemma_views_add(out@, links@);
        }
        out.append(&mut links);
        k += 1;
    }
    assert(per_match.take(found@.len() as int) == per_match);
    out
}

fn scan_text(scan: LinkScan, content: &str) -> (r: Vec<ExtractedLink>)
    ensures
        views(r@) == links_in_text(scan, content@),
{
    let chars = to_chars(content);
    let ls = split_lines(&chars);
    let ghost all = lines(content@);
    let ghost per_line = Seq::new(
        all.len(),
        |i: int| links_in_line(scan, all[i], (i + 1) as usize),
    );
    let mut out: Vec<ExtractedLink> = Vec::new();
    let mut i: usize = 0;
    assert(views(out@) =~= concat_all(per_line.take(0)));
    while i < ls.len()
        invariant
            i <= ls@.len(),
            views(ls@) == all,
            per_line == Seq::new(
                all.len(),
                |i: int| links_in_line(scan, all[i], (i + 1) as usize),
            ),
            views(out@) == concat_all(per_line.take(i as int)),
        decreases ls@.len() - i,
    {
        let line = from_chars(&ls[i]);
        let mut links = scan_line(scan, line.as_str(), i + 1);
        proof {
            assert(views(ls@)[i as int] == ls@[i as int]@);
            lemma_concat_all_step(per_line, i as int);
            lemma_views_add(out@, links@);
        }
        out.append(&mut links);
        i += 1;
    }
    assert(per_line.take(ls@.len() as int) == per_line);
    out
}

/// The wiki-links of `content`, in the order in which they stand. Embeds
/// are left out; a link to a block is reported as a block reference; the
/// target of any other link is what stands before `#` and `|`.
pub fn extract_wikilinks(content: &str) -> (links: Vec<ExtractedLink>)
    ensures
        views(links@) == wikilinks(content@),
        forall|i: int| 0 <= i < links@.len() ==> !(#[trigger] links@[i]).target@.contains('#'),
{
    let links = scan_text(LinkScan::WikiLinks, content);
    proof {
        lemma_wikilink_targets_have_no_anchor(content@);
        assert forall|i: int| 0 <= i < links@.len() implies !(#[trigger] links@[i]).target@.contains(
            '#',
        ) by {
            assert(views(links@)[i] == links@[i]@);
        }
    }
    links
}

/// The embeds `![[target]]` of `content`, in the order in which they stand.
pub fn extract_embeds(content: &str) -> (links: Vec<ExtractedLink>)
    ensures
        views(links@) == embeds(content@),
{
    scan_text(LinkScan::Embeds, content)
}

/// The external links `[text](url)` of `content`, in the order in which
/// they stand.
pub fn extract_external_links(content: &str) -> (links: Vec<ExtractedLink>)
    ensures
        views(links@) == external_links(content@),
{
    scan_text(LinkScan::External, content)
}

/// The block markers that the matches of the block-marker pattern on line
/// `number` stand for. `found` holds the capture groups of every match;
/// group 1 is the identifier.
pub fn markers_from_matches(found: &Vec<Vec<Option<String>>>, number: usize) -> (r: Vec<
    BlockReference,
>)
    ensures
        views(r@) == concat_all(
            Seq::new(
                found.deep_view().len(),
                |k: int| marker_of_match(found.deep_view()[k], number),
            ),
        ),
{
    let ghost all = found.deep_view();
    let ghost per_match = Seq::new(all.len(), |k: int| marker_of_match(all[k], number));
    let mut out: Vec<BlockReference> = Vec::new();
    let mut k: usize = 0;
    assert(views(out@) =~= concat_all(per_match.take(0)));
    while k < found.len()
        invariant
            k <= found@.len(),
            found.deep_view() == all,
            per_match == Seq::new(all.len(), |k: int| marker_of_match(all[k], number)),
            views(out@) == concat_all(per_match.take(k as int)),
        decreases found@.len() - k,
    {
        proof {
            assert(found.deep_view()[k as int] == found@[k as int].deep_view());
            lemma_concat_all_step(per_match, k as int);
        }
        match group_text(&found[k], 1) {
            Some(id) => {
                let marker = BlockReference::new(id.as_str(), number);
                proof {
                    lemma_views_push(out@, marker);
                    assert(views(out@).push(marker@) =~= views(out@) + seq![marker@]);
                }
                out.push(marker);
            },
            None => {
                assert(views(out@) + Seq::<BlockReferenceView>::empty() =~= views(out@));
            },
        }
        k += 1;
    }
    assert(per_match.take(found@.len() as int) == per_match);
    out
}

/// The block markers on one line.
fn markers_from_line(line: &str, number: usize) -> (r: Vec<BlockReference>)
    ensures
        views(r@) == markers_in_line(line@, number),
{
    let found = find_captures(BLOCK_ID_PATTERN, line);
    markers_from_matches(&found, number)
}

/// The block markers `^blockid` of `content`, in the order in which they
/// stand.
pub fn extract_block_references(content: &str) -> (refs: Vec<BlockReference>)
    ensures
        views(refs@) == block_markers(content@),
{
    let chars = to_chars(content);
    let ls = split_lines(&chars);
    let ghost all = lines(content@);
    let ghost per_line = Seq::new(all.len(), |i: int| markers_in_line(all[i], (i + 1) as usize));
    let mut out: Vec<BlockReference> = Vec::new();
    let mut i: usize = 0;
    assert(views(out@) =~= concat_all(per_line.take(0)));
    while i < ls.len()
        invariant
            i <= ls@.len(),
            views(ls@) == all,
            per_line == Seq::new(all.len(), |i: int| markers_in_line(all[i], (i + 1) as usize)),
            views(out@) == concat_all(per_line.take(i as int)),
        decreases ls@.len() - i,
    {
        let line = from_chars(&ls[i]);
        let mut markers = markers_from_line(line.as_str(), i + 1);
        proof {
            assert(views(ls@)[i as int] == ls@[i as int]@);
            lemma_concat_all_step(per_line, i as int);
            lemma_views_add(out@, markers@);
        }
        out.append(&mut markers);
        i += 1;
    }
    assert(per_line.take(ls@.len() as int) == per_line);
    out
}

} // verus!
