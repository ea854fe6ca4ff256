//! The structural parse of a note: title, body, link targets, tags and
//! block markers.
use crate::adapters::obsidian::commonmark::{
    markdown_events, parse_events, MarkdownEvent, MarkdownEventView,
};
use crate::adapters::obsidian::frontmatter::{
    parse_frontmatter, parsed_frontmatter, Frontmatter, FrontmatterView,
};
use crate::adapters::obsidian::links::{
    block_markers, extract_block_references, link_target, parse_link_text, BlockReference,
    BlockReferenceView, WIKILINK_PATTERN,
};
use crate::adapters::obsidian::pattern::{captures_of, find_captures, group, group_text};
use crate::seqs::{
    concat_all, distinct, insert_unique, lemma_concat_all_step, lemma_distinct, lemma_views_push,
    views,
};
use crate::text::{
    contains_text, from_chars, lines, push_str, split_lines, to_chars, trim, trim_chars,
    trim_start_matches, trim_start_matches_chars,
};
use vstd::prelude::*;

verus! {

/// `#tag` at the start of the text or after a character that is neither a
/// word character nor `#`; the tag is group 1.
pub const TAG_PATTERN: &'static str = r"(?:^|[^\w#])#([\w\-_/]+)";

/// What the structural parse finds in a note.
#[derive(Debug)]
pub struct ParsedMarkdown {
    pub title: String,
    /// The text without its front matter.
    pub content: String,
    /// The text as it was given.
    pub raw_content: String,
    pub frontmatter: Option<Frontmatter>,
    /// The targets of the wiki-links of the body, each once, in the order of
    /// their first occurrence.
    pub wikilinks: Vec<String>,
    /// The tags of the front matter and then those of the body, each once,
    /// in the order of their first occurrence.
    pub tags: Vec<String>,
    /// The block markers of the body.
    pub block_ids: Vec<BlockReference>,
}

/// The mathematical value of a [`ParsedMarkdown`].
pub struct ParsedMarkdownView {
    pub title: Seq<char>,
    pub content: Seq<char>,
    pub raw_content: Seq<char>,
    pub frontmatter: Option<FrontmatterView>,
    pub wikilinks: Seq<Seq<char>>,
    pub tags: Seq<Seq<char>>,
    pub block_ids: Seq<BlockReferenceView>,
}

impl View for ParsedMarkdown {
    type V = ParsedMarkdownView;

    open spec fn view(&self) -> ParsedMarkdownView {
        ParsedMarkdownView {
            title: self.title@,
            content: self.content@,
            raw_content: self.raw_content@,
            frontmatter: match self.frontmatter {
                Some(fm) => Some(fm@),
                None => None,
            },
            wikilinks: views(self.wikilinks@),
            tags: views(self.tags@),
            block_ids: views(self.block_ids@),
        }
    }
}

/// The title that the events from index `from` on give, when `title` has
/// been collected so far and `in_heading` says whether a heading is open.
/// Text inside headings is collected until a heading ends with a title
/// that is not empty.
pub open spec fn title_from(
    events: Seq<MarkdownEventView>,
    from: int,
    in_heading: bool,
    title: Seq<char>,
) -> Seq<char>
    decreases events.len() - from,
{
    if from < 0 || from >= events.len() {
        title
    } else {
        match events[from] {
            MarkdownEventView::HeadingStart => title_from(events, from + 1, true, title),
            MarkdownEventView::HeadingEnd => if title.len() > 0 {
                title
            } else {
                title_from(events, from + 1, false, title)
            },
            MarkdownEventView::Text(text) => title_from(
                events,
                from + 1,
                in_heading,
                if in_heading {
                    title + text
                } else {
                    title
                },
            ),
            MarkdownEventView::Other => title_from(events, from + 1, in_heading, title),
        }
    }
}

/// The text of the first heading that has any.
pub open spec fn heading_title(events: Seq<MarkdownEventView>) -> Seq<char> {
    title_from(events, 0, false, Seq::empty())
}

/// Number of lines from index `from` up to the first line that holds
/// more than whitespace, or up to the end when there is none.
pub open spec fn run_to_text_line(all: Seq<Seq<char>>, from: int) -> nat
    decreases all.len() - from,
{
    if from < 0 || from >= all.len() || trim(all[from]).len() > 0 {
        0
    } else {
        1 + run_to_text_line(all, from + 1)
    }
}

/// The title that the first non-empty line gives: the first line that
/// holds more than whitespace, trimmed, without its leading `#`
/// characters, trimmed again. A text without such a line gives `Untitled`.
pub open spec fn first_line_title(body: Seq<char>) -> Seq<char> {
    let all = lines(body);
    let at = run_to_text_line(all, 0) as int;
    if at < all.len() {
        trim(trim_start_matches(trim(all[at]), '#'))
    } else {
        "Untitled"@
    }
}

/// The title of a body: the text of its first heading; without a heading,
/// what its first non-empty line gives; `Untitled` where that is empty.
pub open spec fn title_of(body: Seq<char>) -> Seq<char> {
    let heading = heading_title(markdown_events(body));
    let title = if heading.len() > 0 {
        heading
    } else {
        first_line_title(body)
    };
    if title.len() > 0 {
        title
    } else {
        "Untitled"@
    }
}

/// Group `index` of a match, as a sequence of one text or of none.
pub open spec fn group_as_seq(found: Seq<Option<Seq<char>>>, index: int) -> Seq<Seq<char>> {
    match group(found, index) {
        Some(text) => seq![text],
        None => Seq::empty(),
    }
}

/// Group `index` of every match that has it, in order.
pub open spec fn group_texts(found: Seq<Seq<Option<Seq<char>>>>, index: int) -> Seq<Seq<char>> {
    concat_all(Seq::new(found.len(), |k: int| group_as_seq(found[k], index)))
}

/// The link targets that the texts between `[[` and `]]` name.
pub open spec fn link_targets(inner: Seq<Seq<char>>) -> Seq<Seq<char>> {
    Seq::new(inner.len(), |i: int| link_target(inner[i]))
}

/// The targets of the wiki-links of `body`, each once, in the order of
/// their first occurrence.
pub open spec fn wikilink_targets(body: Seq<char>) -> Seq<Seq<char>> {
    distinct(link_targets(group_texts(captures_of(WIKILINK_PATTERN@, body), 1)))
}

/// The tags `#tag` of `body`, in order, with repetitions.
pub open spec fn inline_tags(body: Seq<char>) -> Seq<Seq<char>> {
    group_texts(captures_of(TAG_PATTERN@, body), 1)
}

/// The tags of a note: those of the front matter and then those of the
/// body, each once, in the order of their first occurrence.
pub open spec fn tags_of(frontmatter: Option<FrontmatterView>, body: Seq<char>) -> Seq<Seq<char>> {
    let declared = match frontmatter {
        Some(fm) => fm.tags,
        None => Seq::empty(),
    };
    distinct(declared + inline_tags(body))
}

/// What the structural parse finds in `content`.
pub open spec fn parsed_markdown(content: Seq<char>) -> ParsedMarkdownView {
    let (frontmatter, body) = parsed_frontmatter(content);
    ParsedMarkdownView {
        title: title_of(body),
        content: body,
        raw_content: content,
        frontmatter,
        wikilinks: wikilink_targets(body),
        tags: tags_of(frontmatter, body),
        block_ids: block_markers(body),
    }
}

/// Executable form of [`heading_title`].
pub fn heading_title_of(events: &Vec<MarkdownEvent>) -> (r: String)
    ensures
        r@ == heading_title(views(events@)),
{
    let mut title: Vec<char> = Vec::new();
    let mut in_heading = false;
    let mut i: usize = 0;
    while i < events.len()
        invariant
            i <= events@.len(),
            heading_title(views(events@)) == title_from(
                views(events@),
                i as int,
                in_heading,
                title@,
            ),
        decreases events@.len() - i,
    {
        assert(views(events@)[i as int] == events@[i as int]@);
        match &events[i] {
            MarkdownEvent::HeadingStart => {
                in_heading = true;
            },
            MarkdownEvent::HeadingEnd => {
                in_heading = false;
                if title.len() > 0 {
                    return from_chars(&title);
                }
            },
            MarkdownEvent::Text(text) => {
                if in_heading {
                    push_str(&mut title, text.as_str());
                }
            },
            MarkdownEvent::Other => {},
        }
        i += 1;
    }
    from_chars(&title)
}

/// Executable form of [`first_line_title`].
fn first_line_title_of(body: &str) -> (r: Vec<char>)
    ensures
        r@ == first_line_title(body@),
{
    let chars = to_chars(body);
    let all = split_lines(&chars);
    let mut i: usize = 0;
    while i < all.len()
        invariant
            i <= all@.len(),
            views(all@) == lines(body@),
            run_to_text_line(lines(body@), 0) == i + run_to_text_line(lines(body@), i as int),
        decreases all@.len() - i,
    {
        assert(views(all@)[i as int] == all@[i as int]@);
        let line = trim_chars(&all[i]);
        if line.len() > 0 {
            return trim_chars(&trim_start_matches_chars(&line, '#'));
        }
        i += 1;
    }
    to_chars("Untitled")
}

/// Executable form of [`title_of`].
fn title_of_body(body: &str) -> (r: String)
    ensures
        r@ == title_of(body@),
{
    let events = parse_events(body);
    let heading = heading_title_of(&events);
    let title = if heading.as_str().unicode_len() > 0 {
        heading
    } else {
        from_chars(&first_line_title_of(body))
    };
    if title.as_str().unicode_len() > 0 {
        title
    } else {
        "Untitled".to_owned()
    }
}

/// Executable form of [`group_texts`].
fn group_texts_of(found: &Vec<Vec<Option<String>>>, index: usize) -> (r: Vec<String>)
    ensures
        views(r@) == group_texts(found.deep_view(), index as int),
{
    let ghost all = found.deep_view();
    let ghost parts = Seq::new(all.len(), |k: int| group_as_seq(all[k], index as int));
    let mut out: Vec<String> = Vec::new();
    let mut k: usize = 0;
    assert(views(out@) =~= concat_all(parts.take(0)));
    while k < found.len()
        invariant
            k <= found@.len(),
            found.deep_view() == all,
            parts == Seq::new(all.len(), |k: int| group_as_seq(all[k], index as int)),
            views(out@) == concat_all(parts.take(k as int)),
        decreases found@.len() - k,
    {
        proof {
            assert(found.deep_view()[k as int] == found@[k as int].deep_view());
            lemma_concat_all_step(parts, k as int);
        }
        match group_text(&found[k], index) {
            Some(text) => {
                let owned = text.clone();
                proof {
                    lemma_views_push(out@, owned);
                    assert(views(out@).push(owned@) =~= views(out@) + seq![owned@]);
                }
                out.push(owned);
            },
            None => {
                assert(views(out@) + Seq::<Seq<char>>::empty() =~= views(out@));
            },
        }
        k += 1;
    }
    assert(parts.take(found@.len() as int) == parts);
    out
}

/// Adds `item` to `out` unless a string with the same text is there.
fn push_distinct(out: &mut Vec<String>, item: String)
    ensures
        views(final(out)@) == insert_unique(views(old(out)@), item@),
{
    if !contains_text(out, item.as_str()) {
        proof {
            lemma_views_push(out@, item);
        }
        out.push(item);
    }
}

/// The link targets that the matches of the wiki-link pattern name, each
/// once, in the order of their first occurrence. `found` holds the capture
/// groups of every match; group 1 is the text between the brackets.
pub fn targets_from_matches(found: &Vec<Vec<Option<String>>>) -> (r: Vec<String>)
    ensures
        views(r@) == distinct(link_targets(group_texts(found.deep_view(), 1))),
        views(r@).no_duplicates(),
{
    let inner = group_texts_of(found, 1);
    let ghost targets = link_targets(views(inner@));
    let mut out: Vec<String> = Vec::new();
    let mut i: usize = 0;
    assert(targets.take(0) =~= Seq::empty());
    assert(views(out@) =~= distinct(targets.take(0)));
    while i < inner.len()
        invariant
            i <= inner@.len(),
            targets == link_targets(views(inner@)),
            views(out@) == distinct(targets.take(i as int)),
        decreases inner@.len() - i,
    {
        let (target, _display) = parse_link_text(inner[i].as_str());
        proof {
            assert(targets.take(i + 1).drop_last() == targets.take(i as int));
            assert(targets.take(i + 1).last() == target@);
        }
        push_distinct(&mut out, target);
        i += 1;
    }
    proof {
        assert(targets.take(inner@.len() as int) == targets);
        lemma_distinct(targets);
    }
    out
}

/// The tags of a note: `declared`, the tags of the front matter, and then
/// the tags that the matches of the tag pattern name, each once, in the
/// order of their first occurrence. `found` holds the capture groups of
/// every match; group 1 is the tag.
pub fn tags_from_matches(declared: &Vec<String>, found: &Vec<Vec<Option<String>>>) -> (r: Vec<
    String,
>)
    ensures
        views(r@) == distinct(views(declared@) + group_texts(found.deep_view(), 1)),
        views(r@).no_duplicates(),
{
    let inline = group_texts_of(found, 1);
    let ghost all = views(declared@) + views(inline@);
    let mut out: Vec<String> = Vec::new();
    assert(all.take(0) =~= Seq::empty());
    assert(views(out@) =~= distinct(all.take(0)));
    let mut i: usize = 0;
    while i < declared.len()
        invariant
            i <= declared@.len(),
            all == views(declared@) + views(inline@),
            views(out@) == distinct(all.take(i as int)),
        decreases declared@.len() - i,
    {
        proof {
            assert(all.take(i + 1).drop_last() == all.take(i as int));
            assert(all.take(i + 1).last() == declared@[i as int]@);
        }
        push_distinct(&mut out, declared[i].clone());
        i += 1;
    }
    let mut j: usize = 0;
    while j < inline.len()
        invariant
            j <= inline@.len(),
            all == views(declared@) + views(inline@),
            views(out@) == distinct(all.take(declared@.len() + j)),
        decreases inline@.len() - j,
    {
        proof {
            let n = declared@.len() + j;
            assert(all.take(n + 1).drop_last() == all.take(n as int));
            assert(all.take(n + 1).last() == inline@[j as int]@);
        }
        push_distinct(&mut out, inline[j].clone());
        j += 1;
    }
    proof {
        assert(all.take(all.len() as int) == all);
        lemma_distinct(all);
    }
    out
}

/// Executable form of [`wikilink_targets`].
fn wikilink_targets_of(body: &str) -> (r: Vec<String>)
    ensures
        views(r@) == wikilink_targets(body@),
{
    let found = find_captures(WIKILINK_PATTERN, body);
    targets_from_matches(&found)
}

/// Executable form of [`tags_of`].
fn tags_of_note(frontmatter: &Option<Frontmatter>, body: &str) -> (r: Vec<String>)
    ensures
        views(r@) == tags_of(
            match frontmatter {
                Some(fm) => Some(fm@),
                None => None,
            },
            body@,
        ),
{
    let found = find_captures(TAG_PATTERN, body);
    match frontmatter {
        Some(fm) => tags_from_matches(&fm.tags, &found),
        None => {
            let declared: Vec<String> = Vec::new();
            assert(views(declared@) =~= Seq::empty());
            tags_from_matches(&declared, &found)
        },
    }
}

/// The structural parse of a note.
///
/// The title is the text of the first heading of the body; without a
/// heading, the first non-empty line without its leading `#`; `Untitled`
/// for a body without such a line. Link targets and tags are free of
/// duplicates.
pub fn parse_markdown(content: &str) -> (r: ParsedMarkdown)
    ensures
        r@ == parsed_markdown(content@),
        r@.title.len() > 0,
        r@.wikilinks.no_duplicates(),
        r@.tags.no_duplicates(),
{
    let (frontmatter, body) = parse_frontmatter(content);
    let title = title_of_body(body.as_str());
    let wikilinks = wikilink_targets_of(body.as_str());
    let tags = tags_of_note(&frontmatter, body.as_str());
    let block_ids = extract_block_references(body.as_str());
    proof {
        reveal_strlit("Untitled");
        lemma_distinct(link_targets(group_texts(captures_of(WIKILINK_PATTERN@, body@), 1)));
        let declared = match &frontmatter {
            Some(fm) => fm@.tags,
            None => Seq::empty(),
        };
        lemma_distinct(declared + inline_tags(body@));
    }
    ParsedMarkdown {
        title,
        content: body,
        raw_content: content.to_owned(),
        frontmatter,
        wikilinks,
        tags,
        block_ids,
    }
}

} // verus!
