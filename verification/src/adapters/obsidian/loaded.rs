//! What a loaded object holds of the parse of its file.
//!
//! Loading writes the parse into a new object, one change after the other.
//! The laws below say what is found in the object in the end: its tags,
//! its aliases, its type, and, where the front matter does not name them
//! itself, its title and its content.
use crate::adapters::obsidian::adapter::{
    is_reserved_key, loaded, with_aliases, with_front_properties, with_frontmatter, with_tags,
};
use crate::adapters::obsidian::frontmatter::FrontmatterView;
use crate::adapters::obsidian::parser::parsed_markdown;
use crate::dcom::object::CognitiveObjectView;
use crate::dcom::property::{lemma_with_entry, lookup, PropertyModel, StructuredModel};
use crate::seqs::{distinct, lemma_distinct};
use vstd::prelude::*;
use vstd::utf8::decode_utf8;

verus! {

/// Whether one of `entries` is named `name`.
pub open spec fn has_entry(entries: Seq<(Seq<char>, StructuredModel)>, name: Seq<char>) -> bool {
    exists|i: int| 0 <= i < entries.len() && (#[trigger] entries[i]).0 == name
}

/// The aliases that a parse gives an object: those of the front matter,
/// each once.
pub open spec fn parsed_aliases(frontmatter: Option<FrontmatterView>) -> Seq<Seq<char>> {
    match frontmatter {
        Some(fm) => distinct(fm.aliases),
        None => Seq::empty(),
    }
}

/// The type that a parse gives an object: that of the front matter.
pub open spec fn parsed_type(frontmatter: Option<FrontmatterView>) -> Option<Seq<char>> {
    match frontmatter {
        Some(fm) => fm.node_type,
        None => None,
    }
}

/// Whether the front matter has an entry of its own under `name`.
pub open spec fn names_itself(frontmatter: Option<FrontmatterView>, name: Seq<char>) -> bool {
    match frontmatter {
        Some(fm) => has_entry(fm.properties, name),
        None => false,
    }
}

/// The names that loading uses are all different.
pub proof fn lemma_names_differ()
    ensures
        "title"@ != "content"@,
        "title"@ != "type"@,
        "title"@ != "created"@,
        "content"@ != "type"@,
        "content"@ != "created"@,
        "type"@ != "created"@,
        is_reserved_key("type"@),
        !is_reserved_key("title"@),
        !is_reserved_key("content"@),
{
    reveal_strlit("title");
    reveal_strlit("content");
    reveal_strlit("type");
    reveal_strlit("created");
    reveal_strlit("tags");
    reveal_strlit("aliases");
    assert("content"@[1] != "created"@[1]);
    assert("title"@[1] != "tags"@[1]);
    assert("content"@[0] != "aliases"@[0]);
}

/// A sequence without duplicates is its own sequence of distinct elements.
pub proof fn lemma_distinct_of_distinct<A>(s: Seq<A>)
    requires
        s.no_duplicates(),
    ensures
        distinct(s) == s,
    decreases s.len(),
{
    if s.len() > 0 {
        let head = s.drop_last();
        lemma_distinct_of_distinct(head);
        if head.contains(s.last()) {
            let i = choose|i: int| 0 <= i < head.len() && head[i] == s.last();
            assert(s[i] == s[s.len() - 1]);
        }
        assert(head.push(s.last()) =~= s);
    } else {
        assert(s =~= Seq::empty());
    }
}

/// Adding aliases changes the aliases only, and gives an object without
/// aliases each of them once.
pub proof fn lemma_with_aliases_holds(
    object: CognitiveObjectView,
    aliases: Seq<Seq<char>>,
    now: i64,
)
    ensures
        with_aliases(object, aliases, now).properties == object.properties,
        with_aliases(object, aliases, now).tags == object.tags,
        with_aliases(object, aliases, now).inferred_type == object.inferred_type,
        object.aliases.len() == 0 ==> with_aliases(object, aliases, now).aliases == distinct(
            aliases,
        ),
    decreases aliases.len(),
{
    if aliases.len() > 0 {
        lemma_with_aliases_holds(object, aliases.drop_last(), now);
    } else {
        assert(object.aliases.len() == 0 ==> object.aliases =~= Seq::<Seq<char>>::empty());
    }
}

/// Adding tags changes the tags only, and gives an object without tags
/// each of them once.
pub proof fn lemma_with_tags_holds(object: CognitiveObjectView, tags: Seq<Seq<char>>, now: i64)
    ensures
        with_tags(object, tags, now).properties == object.properties,
        with_tags(object, tags, now).aliases == object.aliases,
        with_tags(object, tags, now).inferred_type == object.inferred_type,
        object.tags.len() == 0 ==> with_tags(object, tags, now).tags == distinct(tags),
    decreases tags.len(),
{
    if tags.len() > 0 {
        lemma_with_tags_holds(object, tags.drop_last(), now);
    } else {
        assert(object.tags.len() == 0 ==> object.tags =~= Seq::<Seq<char>>::empty());
    }
}

/// Setting the entries of the front matter changes the properties only,
/// and leaves alone every property that is a well-known key or that no
/// entry names.
pub proof fn lemma_with_front_properties_holds(
    object: CognitiveObjectView,
    entries: Seq<(Seq<char>, StructuredModel)>,
    now: i64,
    name: Seq<char>,
)
    ensures
        with_front_properties(object, entries, now).tags == object.tags,
        with_front_properties(object, entries, now).aliases == object.aliases,
        with_front_properties(object, entries, now).inferred_type == object.inferred_type,
        is_reserved_key(name) || !has_entry(entries, name) ==> lookup(
            with_front_properties(object, entries, now).properties,
            name,
        ) == lookup(object.properties, name),
    decreases entries.len(),
{
    if entries.len() > 0 {
        let head = entries.drop_last();
        lemma_with_front_properties_holds(object, head, now, name);
        let before = with_front_properties(object, head, now);
        if has_entry(head, name) {
            let i = choose|i: int| 0 <= i < head.len() && (#[trigger] head[i]).0 == name;
            assert(entries[i].0 == name);
        }
        if !is_reserved_key(entries.last().0) {
            lemma_with_entry(
                before.properties,
                entries.last().0,
                crate::dcom::property::property_of(entries.last().1),
                name,
            );
            if entries.last().0 == name {
                assert(entries[entries.len() - 1].0 == name);
            }
        }
    }
}

/// What a loaded object holds: the tags of the parse; the aliases and the
/// type of the front matter; and the title and the content of the parse,
/// each unless the front matter has an entry of its own under that name.
pub proof fn lemma_loaded_holds(
    path: Seq<char>,
    content: Seq<u8>,
    id: Seq<char>,
    now: i64,
    modified: i64,
)
    ensures
        ({
            let parsed = parsed_markdown(decode_utf8(content));
            let object = loaded(path, content, id, now, modified);
            &&& object.tags == parsed.tags
            &&& object.aliases == parsed_aliases(parsed.frontmatter)
            &&& object.explicit_type() == parsed_type(parsed.frontmatter)
            &&& object.inferred_type is None
            &&& !names_itself(parsed.frontmatter, "title"@) ==> object.title() == Some(
                parsed.title,
            )
            &&& !names_itself(parsed.frontmatter, "content"@) ==> object.content() == Some(
                parsed.content,
            )
        }),
{
    lemma_names_differ();
    let parsed = parsed_markdown(decode_utf8(content));
    let empty = CognitiveObjectView::fresh(id, now);
    let title = PropertyModel::String(parsed.title);
    let body = PropertyModel::String(parsed.content);
    let titled = empty.with_property("title"@, title, now);
    let filled = titled.with_property("content"@, body, now);
    lemma_with_entry(empty.properties, "title"@, title, "type"@);
    lemma_with_entry(titled.properties, "content"@, body, "title"@);
    lemma_with_entry(titled.properties, "content"@, body, "type"@);
    assert(lookup(empty.properties, "type"@) is None) by {
        crate::seqs::lemma_position(crate::dcom::property::names(empty.properties), "type"@);
    }
    assert(lookup(filled.properties, "title"@) == Some(title));
    assert(lookup(filled.properties, "content"@) == Some(body));
    assert(lookup(filled.properties, "type"@) is None);
    let described = match parsed.frontmatter {
        Some(fm) => with_frontmatter(filled, fm, now),
        None => filled,
    };
    match parsed.frontmatter {
        Some(fm) => {
            let typed = match fm.node_type {
                Some(t) => filled.with_property("type"@, PropertyModel::String(t), now),
                None => filled,
            };
            match fm.node_type {
                Some(t) => {
                    let value = PropertyModel::String(t);
                    lemma_with_entry(filled.properties, "type"@, value, "title"@);
                    lemma_with_entry(filled.properties, "type"@, value, "content"@);
                },
                None => {},
            }
            lemma_with_aliases_holds(typed, fm.aliases, now);
            let named = with_aliases(typed, fm.aliases, now);
            lemma_with_front_properties_holds(named, fm.properties, now, "type"@);
            lemma_with_front_properties_holds(named, fm.properties, now, "title"@);
            lemma_with_front_properties_holds(named, fm.properties, now, "content"@);
            let set = with_front_properties(named, fm.properties, now);
            match fm.created {
                Some(date) => {
                    let value = PropertyModel::String(date);
                    lemma_with_entry(set.properties, "created"@, value, "title"@);
                    lemma_with_entry(set.properties, "created"@, value, "content"@);
                    lemma_with_entry(set.properties, "created"@, value, "type"@);
                },
                None => {},
            }
        },
        None => {},
    }
    lemma_with_tags_holds(described, parsed.tags, now);
    let declared = match parsed.frontmatter {
        Some(fm) => fm.tags,
        None => Seq::empty(),
    };
    lemma_distinct(declared + crate::adapters::obsidian::parser::inline_tags(parsed.content));
    lemma_distinct_of_distinct(parsed.tags);
}

} // verus!
