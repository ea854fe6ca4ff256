//! What reading finds again in the text that `save` wrote.
//!
//! The text of a saved note is put together from the front matter, a
//! heading for the title and the body. The laws below say where the reader
//! takes that text apart again, and what an object that is loaded from it
//! has in common with the object that was saved. What the YAML decoder,
//! the CommonMark parser and the tag pattern make of the parts is theirs
//! to say: the laws hold wherever they read back what was written.
use crate::adapters::obsidian::adapter::{
    flow_line, frontmatter_lines, loaded, saved_text, without_title_line,
};
use crate::adapters::obsidian::commonmark::markdown_events;
use crate::adapters::obsidian::frontmatter::{
    decoded_region, frontmatter_region, parsed_frontmatter, FrontmatterView,
};
use crate::adapters::obsidian::loaded::{has_entry, lemma_loaded_holds};
use crate::adapters::obsidian::parser::{heading_title, inline_tags, parsed_markdown};
use crate::dcom::object::CognitiveObjectView;
use crate::seqs::lemma_distinct;
use crate::text::{
    find_from, first_non_whitespace, is_whitespace, join, last_non_whitespace_end,
    lemma_find_from_at, lemma_find_from_is_first, lemma_index_of_at, lemma_join_at_least,
    lemma_join_prepend, lemma_last_non_whitespace_end_after, lemma_lines_from_shift, lines,
    lines_from, matches_at, starts_with, strip_carriage_return, trim, trim_start,
};
use vstd::prelude::*;
use vstd::utf8::encode_utf8;

verus! {

/// The body that `save` writes for an object: its content without a
/// leading heading line.
pub open spec fn saved_body(object: CognitiveObjectView) -> Seq<char> {
    match object.content() {
        Some(content) => without_title_line(content),
        None => Seq::empty(),
    }
}

/// The heading for `title`, an empty line and the saved body.
pub open spec fn heading_and_body(object: CognitiveObjectView, title: Seq<char>) -> Seq<char> {
    "# "@ + title + "\n\n"@ + saved_body(object)
}

/// The front matter that `save` writes for an object, without the `---`
/// lines around it.
pub open spec fn saved_front_matter(object: CognitiveObjectView) -> Seq<char> {
    join(frontmatter_lines(object), "\n"@)
}

/// An object without front matter is saved as heading and body, and the
/// reader takes all of that text as the body of a note without front
/// matter.
pub proof fn lemma_saved_without_front_matter(object: CognitiveObjectView, title: Seq<char>)
    requires
        saved_front_matter(object).len() == 0,
    ensures
        saved_text(object, title) == heading_and_body(object, title),
        parsed_frontmatter(saved_text(object, title)) == (
            None::<FrontmatterView>,
            saved_text(object, title),
        ),
{
    reveal_strlit("# ");
    reveal_strlit("---");
    let text = saved_text(object, title);
    assert(text =~= heading_and_body(object, title));
    assert(text[0] == '#');
    if starts_with(text, "---"@) {
        assert(text.subrange(0, 3)[0] == '-');
    }
}

/// Where the front matter of an object holds no line that begins with
/// `---`, the reader finds the region of the front matter exactly where
/// `save` put it, and what follows the region is, without its leading
/// whitespace, heading and body. So where the decoder accepts the region,
/// the body that is read back is heading and body.
pub proof fn lemma_saved_with_front_matter(object: CognitiveObjectView, title: Seq<char>)
    requires
        saved_front_matter(object).len() > 0,
        find_from("\n"@ + saved_front_matter(object), "\n---"@, 0) is None,
    ensures
        frontmatter_region(saved_text(object, title)) == Some(
            ("\n"@ + saved_front_matter(object), "\n\n"@ + heading_and_body(object, title)),
        ),
        trim_start("\n\n"@ + heading_and_body(object, title)) == heading_and_body(object, title),
        decoded_region("\n"@ + saved_front_matter(object)) is Some ==> parsed_frontmatter(
            saved_text(object, title),
        ).1 == heading_and_body(object, title),
{
    reveal_strlit("# ");
    reveal_strlit("---");
    reveal_strlit("---\n");
    reveal_strlit("\n---");
    reveal_strlit("\n---\n\n");
    reveal_strlit("\n\n");
    reveal_strlit("\n");
    let fm = saved_front_matter(object);
    let region = "\n"@ + fm;
    let marker = "\n---"@;
    let follow = "\n\n"@ + heading_and_body(object, title);
    let text = saved_text(object, title);
    let n = region.len() as int;
    assert(text =~= "---"@ + region + marker + follow);
    assert(text.subrange(0, 3) =~= "---"@);
    assert(text.subrange(3 + n, 3 + n + 4) =~= marker);
    lemma_find_from_is_first(region, marker, 0);
    assert forall|i: int| 3 <= i < 3 + n implies !matches_at(text, marker, i) by {
        if matches_at(text, marker, i) {
            let found = text.subrange(i, i + 4);
            if i + 4 <= 3 + n {
                assert(region.subrange(i - 3, i + 1) =~= found);
                assert(matches_at(region, marker, i - 3));
            } else {
                let j = 3 + n - i;
                assert(found[j] == text[3 + n]);
                assert(text[3 + n] == '\n');
                assert(marker[j] == '-');
            }
        }
    }
    lemma_find_from_at(text, marker, 3, 3 + n);
    assert(text.subrange(3, 3 + n) =~= region);
    assert(text.skip(3 + n + 4) =~= follow);
    assert(follow[0] == '\n');
    assert(follow[1] == '\n');
    assert(follow[2] == '#');
    assert(is_whitespace('\n'));
    assert(!is_whitespace('#'));
    assert(first_non_whitespace(follow, 2) == 2);
    assert(first_non_whitespace(follow, 1) == 2);
    assert(first_non_whitespace(follow, 0) == 2);
    assert(follow.skip(2) =~= heading_and_body(object, title));
}

/// A title that `save` can write as a heading line and find again: it
/// begins with a character that is no whitespace, and holds neither line
/// feed nor carriage return.
pub open spec fn is_heading_text(title: Seq<char>) -> bool {
    &&& title.len() > 0
    &&& !is_whitespace(title[0])
    &&& forall|i: int| 0 <= i < title.len() ==> title[i] != '\n' && title[i] != '\r'
}

/// A body that is the same after it was split into lines and joined
/// again, and that does not begin with whitespace.
pub open spec fn is_plain_body(body: Seq<char>) -> bool {
    &&& join(lines(body), "\n"@) == body
    &&& body.len() > 0 ==> !is_whitespace(body[0])
}

/// The lines of a heading line, an empty line and a body: the heading,
/// the empty line, the lines of the body.
pub proof fn lemma_lines_under_heading(title: Seq<char>, body: Seq<char>)
    requires
        is_heading_text(title),
    ensures
        lines("# "@ + title + "\n\n"@ + body) == seq!["# "@ + title, Seq::<char>::empty()] + lines(
            body,
        ),
{
    reveal_strlit("# ");
    reveal_strlit("\n\n");
    let heading = "# "@ + title;
    let text = heading + "\n\n"@ + body;
    let h = heading.len() as int;
    assert(text =~= (heading + "\n\n"@) + body);
    assert forall|i: int| 0 <= i < h implies text[i] != '\n' by {
        if i >= 2 {
            assert(text[i] == title[i - 2]);
        }
    }
    assert(text[h] == '\n');
    assert(text[h + 1] == '\n');
    lemma_index_of_at(text, '\n', 0, h);
    lemma_index_of_at(text, '\n', h + 1, h + 1);
    assert(text.subrange(0, h) =~= heading);
    assert(heading.last() == title.last());
    assert(strip_carriage_return(heading) == heading);
    assert(text.subrange(h + 1, h + 1) =~= Seq::<char>::empty());
    lemma_lines_from_shift(heading + "\n\n"@, body, 0);
    assert(lines_from(text, h + 2) == lines(body));
    assert(lines_from(text, h + 1) == seq![Seq::<char>::empty()] + lines_from(text, h + 2));
    assert(lines_from(text, 0) == seq![heading] + lines_from(text, h + 1));
    assert(seq![heading] + (seq![Seq::<char>::empty()] + lines(body)) =~= seq![
        heading,
        Seq::<char>::empty(),
    ] + lines(body));
}

/// Where the content of an object is the heading line for its title, an
/// empty line and a plain body, `save` writes the content as it is: the
/// heading line is taken off and put back.
pub proof fn lemma_canonical_content_is_kept(
    object: CognitiveObjectView,
    title: Seq<char>,
    body: Seq<char>,
)
    requires
        is_heading_text(title),
        is_plain_body(body),
        object.content() == Some("# "@ + title + "\n\n"@ + body),
    ensures
        without_title_line("# "@ + title + "\n\n"@ + body) == body,
        heading_and_body(object, title) == object.content()->0,
{
    reveal_strlit("# ");
    reveal_strlit("\n");
    let heading = "# "@ + title;
    let content = heading + "\n\n"@ + body;
    let all = lines(content);
    lemma_lines_under_heading(title, body);
    assert(all[0] == heading);
    assert(all.skip(1) =~= seq![Seq::<char>::empty()] + lines(body));
    // The first line is a heading line.
    assert(heading[0] == '#');
    assert(!is_whitespace('#'));
    assert(first_non_whitespace(heading, 0) == 0);
    assert(trim_start(heading) =~= heading);
    assert(heading[2] == title[0]);
    lemma_last_non_whitespace_end_after(heading, heading.len() as int, 2);
    let kept = last_non_whitespace_end(heading, heading.len() as int);
    assert(trim(heading) == heading.take(kept));
    assert(trim(heading).subrange(0, 2) =~= "# "@);
    assert(starts_with(trim(heading), "# "@));
    // What follows the first line is the body behind one line feed.
    lemma_join_prepend(Seq::<char>::empty(), lines(body), "\n"@);
    let joined = join(all.skip(1), "\n"@);
    if lines(body).len() == 0 {
        assert(joined =~= Seq::<char>::empty());
        assert(body =~= Seq::<char>::empty());
        assert(trim_start(joined) =~= body);
    } else {
        assert(joined =~= "\n"@ + body);
        assert(body.len() > 0);
        assert(joined[0] == '\n');
        assert(is_whitespace('\n'));
        assert(joined[1] == body[0]);
        assert(first_non_whitespace(joined, 1) == 1);
        assert(first_non_whitespace(joined, 0) == 1);
        assert(joined.skip(1) =~= body);
    }
}

/// Whether the reader finds the front matter that `save` writes for an
/// object: there is none; or it holds no line that begins with `---`, and
/// the decoder accepts it.
pub open spec fn front_matter_reads_back(object: CognitiveObjectView) -> bool {
    let fm = saved_front_matter(object);
    fm.len() > 0 ==> find_from("\n"@ + fm, "\n---"@, 0) is None && decoded_region("\n"@ + fm)
        is Some
}

/// The body survives writing and reading. Where the content of an object
/// is the heading line for its title, an empty line and a plain body, and
/// the reader finds the front matter, the structural parse of what `save`
/// writes has the content of the object as its body.
pub proof fn lemma_body_survives_save_and_parse(
    object: CognitiveObjectView,
    title: Seq<char>,
    body: Seq<char>,
)
    requires
        is_heading_text(title),
        is_plain_body(body),
        object.content() == Some("# "@ + title + "\n\n"@ + body),
        front_matter_reads_back(object),
    ensures
        parsed_markdown(saved_text(object, title)).content == object.content()->0,
{
    lemma_canonical_content_is_kept(object, title, body);
    if saved_front_matter(object).len() == 0 {
        lemma_saved_without_front_matter(object, title);
    } else {
        lemma_saved_with_front_matter(object, title);
    }
}

/// Whether two sequences hold the same elements, in whatever order and
/// number.
pub open spec fn same_elements(a: Seq<Seq<char>>, b: Seq<Seq<char>>) -> bool {
    forall|x: Seq<char>| a.contains(x) <==> b.contains(x)
}

/// Whether the parsers read back what `save` writes for `object` under
/// the title `title`:
/// - the front matter holds no line that begins with `---`, and the YAML
///   decoder finds in it the type, the tags and the aliases of the object
///   and no entry named `title` or `content`;
/// - the CommonMark parser finds the title, which is not empty, as the
///   text of the first heading of what follows the front matter;
/// - the tag pattern finds no tag there that the object does not have.
pub open spec fn parsers_read_back(object: CognitiveObjectView, title: Seq<char>) -> bool {
    let fm = saved_front_matter(object);
    let body = heading_and_body(object, title);
    &&& fm.len() > 0 ==> {
        &&& find_from("\n"@ + fm, "\n---"@, 0) is None
        &&& decoded_region("\n"@ + fm) matches Some(read)
        &&& read.node_type == object.explicit_type()
        &&& same_elements(read.tags, object.tags)
        &&& same_elements(read.aliases, object.aliases)
        &&& !has_entry(read.properties, "title"@)
        &&& !has_entry(read.properties, "content"@)
    }
    &&& title.len() > 0
    &&& heading_title(markdown_events(body)) == title
    &&& forall|x: Seq<char>| inline_tags(body).contains(x) ==> object.tags.contains(x)
}

/// An object with a type, a tag or an alias is saved with front matter.
pub proof fn lemma_front_matter_is_written(object: CognitiveObjectView)
    requires
        object.explicit_type() is Some || object.tags.len() > 0 || object.aliases.len() > 0,
    ensures
        saved_front_matter(object).len() > 0,
{
    reveal_strlit("type: ");
    reveal_strlit("]");
    let all = frontmatter_lines(object);
    let type_line = match object.explicit_type() {
        Some(t) => seq!["type: "@ + t],
        None => Seq::empty(),
    };
    let tags = flow_line("tags"@, object.tags);
    let aliases = flow_line("aliases"@, object.aliases);
    if object.explicit_type() is Some {
        assert(all[0] == type_line[0]);
    } else if object.tags.len() > 0 {
        assert(type_line.len() == 0);
        assert(all[0] == tags[0]);
    } else {
        assert(type_line.len() == 0);
        assert(tags.len() == 0);
        assert(all[0] == aliases[0]);
    }
    assert(all[0].len() > 0);
    lemma_join_at_least(all, "\n"@, 0);
}

/// What is loaded from the text that `save` wrote for an object has the
/// title and the type of the object, its tags and its aliases as sets, and
/// as content the heading for the title, an empty line and the saved body,
/// wherever the parsers read back what was written.
pub proof fn lemma_round_trip(
    object: CognitiveObjectView,
    title: Seq<char>,
    path: Seq<char>,
    id: Seq<char>,
    now: i64,
    modified: i64,
)
    requires
        object.title() == Some(title),
        parsers_read_back(object, title),
    ensures
        ({
            let again = loaded(
                path,
                encode_utf8(saved_text(object, title)),
                id,
                now,
                modified,
            );
            &&& again.title() == object.title()
            &&& again.explicit_type() == object.explicit_type()
            &&& same_elements(again.tags, object.tags)
            &&& same_elements(again.aliases, object.aliases)
            &&& again.content() == Some(heading_and_body(object, title))
        }),
{
    let text = saved_text(object, title);
    let bytes = encode_utf8(text);
    vstd::utf8::encode_utf8_decode_utf8(text);
    let parsed = parsed_markdown(text);
    let again = loaded(path, bytes, id, now, modified);
    lemma_loaded_holds(path, bytes, id, now, modified);
    let fm = saved_front_matter(object);
    let body = heading_and_body(object, title);
    let declared = match parsed.frontmatter {
        Some(read) => read.tags,
        None => Seq::empty(),
    };
    if fm.len() == 0 {
        lemma_saved_without_front_matter(object, title);
        if object.explicit_type() is Some || object.tags.len() > 0 || object.aliases.len() > 0 {
            lemma_front_matter_is_written(object);
        }
        assert(parsed.frontmatter is None);
        assert(parsed.content == body);
        assert(object.tags =~= Seq::<Seq<char>>::empty());
        assert(object.aliases =~= Seq::<Seq<char>>::empty());
    } else {
        lemma_saved_with_front_matter(object, title);
        let read = decoded_region("\n"@ + fm)->0;
        assert(parsed.frontmatter == Some(read));
        assert(parsed.content == body);
        lemma_distinct(read.aliases);
    }
    lemma_distinct(declared + inline_tags(body));
    assert(same_elements(parsed.tags, object.tags)) by {
        let all = declared + inline_tags(body);
        assert forall|x: Seq<char>| parsed.tags.contains(x) <==> object.tags.contains(x) by {
            if all.contains(x) {
                let i = choose|i: int| 0 <= i < all.len() && all[i] == x;
                if i < declared.len() {
                    assert(declared[i] == x);
                } else {
                    assert(inline_tags(body)[i - declared.len()] == x);
                }
            }
            if object.tags.contains(x) {
                assert(declared.contains(x));
                let i = choose|i: int| 0 <= i < declared.len() && declared[i] == x;
                assert(all[i] == x);
            }
        }
    }
}

} // verus!
