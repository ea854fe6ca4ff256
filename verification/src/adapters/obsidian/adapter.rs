//! Loading Obsidian-style notes into cognitive objects and writing them
//! back.
use crate::adapters::obsidian::frontmatter::{Frontmatter, FrontmatterView};
use crate::adapters::obsidian::links::{
    embeds, external_links, extract_embeds, extract_external_links, extract_wikilinks, wikilinks,
};
use crate::adapters::obsidian::parser::{parse_markdown, parsed_markdown};
use crate::adapters::{AdapterError, ExtractedLink, ExtractedLinkView, ObjectAdapter};
use crate::dcom::ambient::{now_millis, now_seconds};
use crate::dcom::object::{is_random_uuid, CognitiveObject, CognitiveObjectView, ObjectId};
use crate::dcom::property::{
    lemma_list_view, property_of, Property, PropertyModel, PropertyValue, StructuredModel,
};
use crate::dcom::serialization::{
    MarkdownSource, MarkdownSourceView, SerializationSource, SourceView,
};
use crate::fingerprint::{bytes_digest, digest_bytes};
use crate::numeral::{decimal, decimal_chars, hex_fixed, hex_fixed_chars};
use crate::seqs::{lemma_views_add, lemma_views_push, views};
use crate::text::{
    copy_range, from_chars, join, join_chars, lines, push_all, push_str, split_lines,
    starts_with, starts_with_chars, str_eq, to_chars, trim, trim_chars, trim_start,
    trim_start_chars,
};
use vstd::prelude::*;
use vstd::utf8::{decode_utf8, encode_utf8, valid_utf8};

verus! {

/// The error of `core::str::from_utf8`. Nothing is read from it.
#[verifier::external_type_specification]
#[verifier::external_body]
pub struct ExUtf8Error(core::str::Utf8Error);

/// `core::str::from_utf8` succeeds exactly on valid UTF-8, and the string
/// slice it gives holds the text that the bytes encode.
pub assume_specification<'a>[ core::str::from_utf8 ](bytes: &'a [u8]) -> (r: Result<
    &'a str,
    core::str::Utf8Error,
>)
    ensures
        r is Ok <==> valid_utf8(bytes@),
        r matches Ok(text) ==> text@ == decode_utf8(bytes@),
;

/// The adapter for Obsidian-style Markdown notes: files with the extension
/// `md` or `markdown`.
#[derive(Debug, Clone, Copy, Default)]
pub struct ObsidianAdapter;

/// The fingerprint of a content: its digest in sixteen hexadecimal digits.
pub open spec fn content_fingerprint(content: Seq<u8>) -> Seq<char> {
    hex_fixed(bytes_digest(content) as nat, 16)
}

/// Whether a key of the front matter is one of the four well-known keys.
pub open spec fn is_reserved_key(key: Seq<char>) -> bool {
    key == "tags"@ || key == "aliases"@ || key == "type"@ || key == "created"@
}

/// `object` after adding `aliases` in order.
pub open spec fn with_aliases(
    object: CognitiveObjectView,
    aliases: Seq<Seq<char>>,
    now: i64,
) -> CognitiveObjectView
    decreases aliases.len(),
{
    if aliases.len() == 0 {
        object
    } else {
        with_aliases(object, aliases.drop_last(), now).with_alias(aliases.last(), now)
    }
}

/// `object` after adding `tags` in order.
pub open spec fn with_tags(
    object: CognitiveObjectView,
    tags: Seq<Seq<char>>,
    now: i64,
) -> CognitiveObjectView
    decreases tags.len(),
{
    if tags.len() == 0 {
        object
    } else {
        with_tags(object, tags.drop_last(), now).with_tag(tags.last(), now)
    }
}

/// `object` after setting, in order, every entry of the front matter that
/// is none of the well-known keys.
pub open spec fn with_front_properties(
    object: CognitiveObjectView,
    entries: Seq<(Seq<char>, StructuredModel)>,
    now: i64,
) -> CognitiveObjectView
    decreases entries.len(),
{
    if entries.len() == 0 {
        object
    } else {
        let before = with_front_properties(object, entries.drop_last(), now);
        if is_reserved_key(entries.last().0) {
            before
        } else {
            before.with_property(entries.last().0, property_of(entries.last().1), now)
        }
    }
}

/// `object` after taking over the front matter: the type, the aliases,
/// the other entries, the creation date.
pub open spec fn with_frontmatter(
    object: CognitiveObjectView,
    fm: FrontmatterView,
    now: i64,
) -> CognitiveObjectView {
    let typed = match fm.node_type {
        Some(t) => object.with_property("type"@, PropertyModel::String(t), now),
        None => object,
    };
    let described = with_front_properties(with_aliases(typed, fm.aliases, now), fm.properties, now);
    match fm.created {
        Some(date) => described.with_property("created"@, PropertyModel::String(date), now),
        None => described,
    }
}

/// The object that loading gives for the file at `path` with the bytes
/// `content`, when its identity is `id`, the time is `now` in milliseconds
/// and `modified` in seconds.
pub open spec fn loaded(
    path: Seq<char>,
    content: Seq<u8>,
    id: Seq<char>,
    now: i64,
    modified: i64,
) -> CognitiveObjectView {
    let parsed = parsed_markdown(decode_utf8(content));
    let titled = CognitiveObjectView::fresh(id, now).with_property(
        "title"@,
        PropertyModel::String(parsed.title),
        now,
    ).with_property("content"@, PropertyModel::String(parsed.content), now);
    let described = match parsed.frontmatter {
        Some(fm) => with_frontmatter(titled, fm, now),
        None => titled,
    };
    with_tags(described, parsed.tags, now).with_source(
        SourceView::Markdown(
            MarkdownSourceView {
                path,
                content_hash: content_fingerprint(content),
                last_modified: modified,
            },
        ),
        now,
    )
}

/// Adding aliases changes neither identity, time of creation nor sources.
pub proof fn lemma_with_aliases_keeps(object: CognitiveObjectView, aliases: Seq<Seq<char>>, now: i64)
    ensures
        with_aliases(object, aliases, now).id == object.id,
        with_aliases(object, aliases, now).created_at == object.created_at,
        with_aliases(object, aliases, now).sources == object.sources,
    decreases aliases.len(),
{
    if aliases.len() > 0 {
        lemma_with_aliases_keeps(object, aliases.drop_last(), now);
    }
}

/// Adding tags changes neither identity, time of creation nor sources.
pub proof fn lemma_with_tags_keeps(object: CognitiveObjectView, tags: Seq<Seq<char>>, now: i64)
    ensures
        with_tags(object, tags, now).id == object.id,
        with_tags(object, tags, now).created_at == object.created_at,
        with_tags(object, tags, now).sources == object.sources,
    decreases tags.len(),
{
    if tags.len() > 0 {
        lemma_with_tags_keeps(object, tags.drop_last(), now);
    }
}

/// Setting properties changes neither identity, time of creation nor
/// sources.
pub proof fn lemma_with_front_properties_keeps(
    object: CognitiveObjectView,
    entries: Seq<(Seq<char>, StructuredModel)>,
    now: i64,
)
    ensures
        with_front_properties(object, entries, now).id == object.id,
        with_front_properties(object, entries, now).created_at == object.created_at,
        with_front_properties(object, entries, now).sources == object.sources,
    decreases entries.len(),
{
    if entries.len() > 0 {
        lemma_with_front_properties_keeps(object, entries.drop_last(), now);
    }
}

/// Whether two objects hold the same properties, tags, aliases and links
/// and the same inferred facts: they differ at most in identity,
/// timestamps and sources.
pub open spec fn same_content(a: CognitiveObjectView, b: CognitiveObjectView) -> bool {
    &&& a.properties == b.properties
    &&& a.tags == b.tags
    &&& a.aliases == b.aliases
    &&& a.links == b.links
    &&& a.inferred_type == b.inferred_type
    &&& a.equivalence_classes == b.equivalence_classes
}

/// Adding the same aliases at whatever times keeps two objects alike.
pub proof fn lemma_with_aliases_same(
    a: CognitiveObjectView,
    b: CognitiveObjectView,
    aliases: Seq<Seq<char>>,
    at: i64,
    other: i64,
)
    requires
        same_content(a, b),
    ensures
        same_content(with_aliases(a, aliases, at), with_aliases(b, aliases, other)),
    decreases aliases.len(),
{
    if aliases.len() > 0 {
        lemma_with_aliases_same(a, b, aliases.drop_last(), at, other);
    }
}

/// Adding the same tags at whatever times keeps two objects alike.
pub proof fn lemma_with_tags_same(
    a: CognitiveObjectView,
    b: CognitiveObjectView,
    tags: Seq<Seq<char>>,
    at: i64,
    other: i64,
)
    requires
        same_content(a, b),
    ensures
        same_content(with_tags(a, tags, at), with_tags(b, tags, other)),
    decreases tags.len(),
{
    if tags.len() > 0 {
        lemma_with_tags_same(a, b, tags.drop_last(), at, other);
    }
}

/// Setting the same properties at whatever times keeps two objects alike.
pub proof fn lemma_with_front_properties_same(
    a: CognitiveObjectView,
    b: CognitiveObjectView,
    entries: Seq<(Seq<char>, StructuredModel)>,
    at: i64,
    other: i64,
)
    requires
        same_content(a, b),
    ensures
        same_content(
            with_front_properties(a, entries, at),
            with_front_properties(b, entries, other),
        ),
    decreases entries.len(),
{
    if entries.len() > 0 {
        lemma_with_front_properties_same(a, b, entries.drop_last(), at, other);
    }
}

/// What is loaded from a file depends on the moment of loading in
/// identity, timestamps and the time of its source only.
pub proof fn lemma_loaded_same_content(
    path: Seq<char>,
    content: Seq<u8>,
    id: Seq<char>,
    now: i64,
    modified: i64,
    other_id: Seq<char>,
    other_now: i64,
    other_modified: i64,
)
    ensures
        same_content(
            loaded(path, content, id, now, modified),
            loaded(path, content, other_id, other_now, other_modified),
        ),
{
    let parsed = parsed_markdown(decode_utf8(content));
    let a0 = CognitiveObjectView::fresh(id, now).with_property(
        "title"@,
        PropertyModel::String(parsed.title),
        now,
    ).with_property("content"@, PropertyModel::String(parsed.content), now);
    let b0 = CognitiveObjectView::fresh(other_id, other_now).with_property(
        "title"@,
        PropertyModel::String(parsed.title),
        other_now,
    ).with_property("content"@, PropertyModel::String(parsed.content), other_now);
    assert(same_content(a0, b0));
    let a1 = match parsed.frontmatter {
        Some(fm) => with_frontmatter(a0, fm, now),
        None => a0,
    };
    let b1 = match parsed.frontmatter {
        Some(fm) => with_frontmatter(b0, fm, other_now),
        None => b0,
    };
    match parsed.frontmatter {
        Some(fm) => {
            let at = match fm.node_type {
                Some(t) => a0.with_property("type"@, PropertyModel::String(t), now),
                None => a0,
            };
            let bt = match fm.node_type {
                Some(t) => b0.with_property("type"@, PropertyModel::String(t), other_now),
                None => b0,
            };
            lemma_with_aliases_same(at, bt, fm.aliases, now, other_now);
            lemma_with_front_properties_same(
                with_aliases(at, fm.aliases, now),
                with_aliases(bt, fm.aliases, other_now),
                fm.properties,
                now,
                other_now,
            );
        },
        None => {},
    }
    assert(same_content(a1, b1));
    lemma_with_tags_same(a1, b1, parsed.tags, now, other_now);
}

/// A loaded object has the identity and the times that were handed in, and
/// one source: the Markdown file it was loaded from.
pub proof fn lemma_loaded_identity(
    path: Seq<char>,
    content: Seq<u8>,
    id: Seq<char>,
    now: i64,
    modified: i64,
)
    ensures
        loaded(path, content, id, now, modified).id == id,
        loaded(path, content, id, now, modified).created_at == now,
        loaded(path, content, id, now, modified).updated_at == now,
        loaded(path, content, id, now, modified).sources == seq![
            SourceView::Markdown(
                MarkdownSourceView {
                    path,
                    content_hash: content_fingerprint(content),
                    last_modified: modified,
                },
            ),
        ],
        last_modified_of(loaded(path, content, id, now, modified)) == modified,
{
    let parsed = parsed_markdown(decode_utf8(content));
    let titled = CognitiveObjectView::fresh(id, now).with_property(
        "title"@,
        PropertyModel::String(parsed.title),
        now,
    ).with_property("content"@, PropertyModel::String(parsed.content), now);
    let described = match parsed.frontmatter {
        Some(fm) => with_frontmatter(titled, fm, now),
        None => titled,
    };
    match parsed.frontmatter {
        Some(fm) => {
            let typed = match fm.node_type {
                Some(t) => titled.with_property("type"@, PropertyModel::String(t), now),
                None => titled,
            };
            lemma_with_aliases_keeps(typed, fm.aliases, now);
            lemma_with_front_properties_keeps(
                with_aliases(typed, fm.aliases, now),
                fm.properties,
                now,
            );
        },
        None => {},
    }
    lemma_with_tags_keeps(described, parsed.tags, now);
    let result = loaded(path, content, id, now, modified);
    assert(result.sources =~= seq![
        SourceView::Markdown(
            MarkdownSourceView {
                path,
                content_hash: content_fingerprint(content),
                last_modified: modified,
            },
        ),
    ]);
}

/// The fingerprint of a content depends on its bytes alone.
pub proof fn lemma_content_fingerprint_deterministic(a: Seq<u8>, b: Seq<u8>)
    requires
        a == b,
    ensures
        content_fingerprint(a) == content_fingerprint(b),
{
}

/// Two contents whose digests differ have different fingerprints.
pub proof fn lemma_content_fingerprint_distinct(a: Seq<u8>, b: Seq<u8>)
    requires
        bytes_digest(a) != bytes_digest(b),
    ensures
        content_fingerprint(a) != content_fingerprint(b),
{
    if content_fingerprint(a) == content_fingerprint(b) {
        assert(crate::numeral::pow16(16) == 0x1_0000_0000_0000_0000) by {
            reveal_with_fuel(crate::numeral::pow16, 17);
        }
        crate::numeral::lemma_hex_fixed_injective(
            bytes_digest(a) as nat,
            bytes_digest(b) as nat,
            16,
        );
    }
}

/// The time of modification that the last source of an object states.
pub open spec fn last_modified_of(object: CognitiveObjectView) -> i64 {
    if object.sources.len() > 0 && object.sources.last() is Markdown {
        object.sources.last()->Markdown_0.last_modified
    } else {
        0
    }
}

/// `text` between double quotes.
pub open spec fn quoted(text: Seq<char>) -> Seq<char> {
    "\""@ + text + "\""@
}

/// A value as it stands inside a YAML flow sequence. Null, lists and JSON
/// values have no such form.
pub open spec fn yaml_scalar(value: PropertyModel) -> Option<Seq<char>> {
    match value {
        PropertyModel::String(s) => Some(quoted(s)),
        PropertyModel::Integer(i) => Some(decimal(i as int)),
        PropertyModel::Float(text) => Some(text),
        PropertyModel::Boolean(b) => Some(
            if b {
                "true"@
            } else {
                "false"@
            },
        ),
        PropertyModel::DateTime(d) => Some(quoted(d)),
        PropertyModel::Reference(r) => Some(quoted("[["@ + r + "]]"@)),
        _ => None,
    }
}

/// The items of a list that have a form inside a flow sequence, in that
/// form and in order.
pub open spec fn yaml_scalars(items: Seq<PropertyModel>) -> Seq<Seq<char>>
    decreases items.len(),
{
    if items.len() == 0 {
        Seq::empty()
    } else {
        match yaml_scalar(items.last()) {
            Some(text) => yaml_scalars(items.drop_last()).push(text),
            None => yaml_scalars(items.drop_last()),
        }
    }
}

/// The line of front matter for a property. A null value has none.
pub open spec fn yaml_line(key: Seq<char>, value: PropertyModel) -> Option<Seq<char>> {
    match value {
        PropertyModel::Null => None,
        PropertyModel::List(items) => Some(
            key + ": ["@ + join(yaml_scalars(items), ", "@) + "]"@,
        ),
        PropertyModel::Json(j) => Some(key + ": "@ + j),
        _ => Some(key + ": "@ + yaml_scalar(value)->0),
    }
}

/// Whether a property is written elsewhere than among the custom lines of
/// the front matter.
pub open spec fn is_internal_key(key: Seq<char>) -> bool {
    key == "title"@ || key == "content"@ || key == "type"@
}

/// The lines of front matter for the custom properties, in order.
pub open spec fn property_lines(entries: Seq<(Seq<char>, PropertyModel)>) -> Seq<Seq<char>>
    decreases entries.len(),
{
    if entries.len() == 0 {
        Seq::empty()
    } else {
        let before = property_lines(entries.drop_last());
        if is_internal_key(entries.last().0) {
            before
        } else {
            match yaml_line(entries.last().0, entries.last().1) {
                Some(line) => before.push(line),
                None => before,
            }
        }
    }
}

/// A line `key: [a, b, c]`, or no line for no items.
pub open spec fn flow_line(key: Seq<char>, items: Seq<Seq<char>>) -> Seq<Seq<char>> {
    if items.len() > 0 {
        seq![key + ": ["@ + join(items, ", "@) + "]"@]
    } else {
        Seq::empty()
    }
}

/// The lines of the front matter of an object: type, tags, aliases, custom
/// properties.
pub open spec fn frontmatter_lines(object: CognitiveObjectView) -> Seq<Seq<char>> {
    let type_line = match object.explicit_type() {
        Some(t) => seq!["type: "@ + t],
        None => Seq::empty(),
    };
    type_line + flow_line("tags"@, object.tags) + flow_line("aliases"@, object.aliases)
        + property_lines(object.properties)
}

/// `content` without its first line, where that line is a level-one
/// heading, and without the whitespace that follows the line.
pub open spec fn without_title_line(content: Seq<char>) -> Seq<char> {
    let all = lines(content);
    if all.len() > 0 && starts_with(trim(all[0]), "# "@) {
        trim_start(join(all.skip(1), "\n"@))
    } else {
        content
    }
}

/// The text of a note for an object with the title `title`: the front
/// matter between `---` lines, where there is any; the title as a level-one
/// heading; the content without a leading heading line.
pub open spec fn saved_text(object: CognitiveObjectView, title: Seq<char>) -> Seq<char> {
    let fm = join(frontmatter_lines(object), "\n"@);
    let head = if fm.len() > 0 {
        "---\n"@ + fm + "\n---\n\n"@
    } else {
        Seq::empty()
    };
    let body = match object.content() {
        Some(content) => without_title_line(content),
        None => Seq::empty(),
    };
    head + "# "@ + title + "\n\n"@ + body
}

/// The links in the content of an object: wiki-links, then embeds, then
/// external links.
pub open spec fn object_links(object: CognitiveObjectView) -> Seq<ExtractedLinkView> {
    match object.content() {
        Some(content) => wikilinks(content) + embeds(content) + external_links(content),
        None => Seq::empty(),
    }
}

/// Copies of the strings in `v` as character vectors.
fn texts_of(v: &Vec<String>) -> (r: Vec<Vec<char>>)
    ensures
        views(r@) == views(v@),
{
    let mut out: Vec<Vec<char>> = Vec::new();
    let mut i: usize = 0;
    while i < v.len()
        invariant
            i <= v@.len(),
            out@.len() == i,
            forall|k: int| 0 <= k < i ==> (#[trigger] out@[k])@ == v@[k]@,
        decreases v@.len() - i,
    {
        out.push(to_chars(v[i].as_str()));
        i += 1;
    }
    assert(views(out@) =~= views(v@));
    out
}

/// Executable form of [`quoted`].
fn quoted_chars(text: &str) -> (r: Vec<char>)
    ensures
        r@ == quoted(text@),
{
    let mut out = to_chars("\"");
    push_str(&mut out, text);
    push_str(&mut out, "\"");
    out
}

/// Executable form of [`flow_line`].
fn flow_line_of(key: &str, items: &Vec<String>) -> (r: Vec<Vec<char>>)
    ensures
        views(r@) == flow_line(key@, views(items@)),
{
    let mut out: Vec<Vec<char>> = Vec::new();
    if items.len() > 0 {
        let mut line = to_chars(key);
        push_str(&mut line, ": [");
        let parts = texts_of(items);
        let sep = to_chars(", ");
        let joined = join_chars(&parts, &sep);
        push_all(&mut line, &joined);
        push_str(&mut line, "]");
        out.push(line);
        assert(views(out@) =~= seq![line@]);
    } else {
        assert(views(out@) =~= Seq::empty());
    }
    out
}

impl ObsidianAdapter {
    pub fn new() -> Self {
        ObsidianAdapter
    }

    /// The fingerprint of a content, for change detection.
    pub fn compute_hash(content: &[u8]) -> (r: String)
        ensures
            r@ == content_fingerprint(content@),
    {
        ObsidianAdapter::format_hash(digest_bytes(content))
    }

    /// A digest in sixteen hexadecimal digits.
    pub fn format_hash(digest: u64) -> (r: String)
        ensures
            r@ == hex_fixed(digest as nat, 16),
    {
        from_chars(&hex_fixed_chars(digest, 16))
    }

    /// Loads a note with the identity `id`, at the time `now` in
    /// milliseconds and `modified` in seconds. The bytes have to be UTF-8
    /// text; any UTF-8 text loads.
    pub fn load_at(
        &self,
        path: &str,
        content: &[u8],
        id: ObjectId,
        now: i64,
        modified: i64,
    ) -> (r: Result<CognitiveObject, AdapterError>)
        ensures
            match r {
                Ok(object) => valid_utf8(content@) && object@ == loaded(
                    path@,
                    content@,
                    id@,
                    now,
                    modified,
                ) && object@.wf(),
                Err(e) => !valid_utf8(content@) && e is Decode,
            },
    {
        let text = match core::str::from_utf8(content) {
            Ok(text) => text,
            Err(_) => {
                return Err(AdapterError::Decode);
            },
        };
        let parsed = parse_markdown(text);
        let mut object = CognitiveObject::with_id_at(id, now);
        object.set_property_at("title", PropertyValue::string(parsed.title.as_str()), now);
        object.set_property_at("content", PropertyValue::string(parsed.content.as_str()), now);
        match &parsed.frontmatter {
            Some(fm) => {
                take_frontmatter(&mut object, fm, now);
            },
            None => {},
        }
        let ghost described = object@;
        let mut i: usize = 0;
        while i < parsed.tags.len()
            invariant
                i <= parsed.tags@.len(),
                object@ == with_tags(described, views(parsed.tags@).take(i as int), now),
                object@.wf(),
            decreases parsed.tags@.len() - i,
        {
            proof {
                let tags = views(parsed.tags@);
                assert(tags.take(i + 1).drop_last() == tags.take(i as int));
                assert(tags.take(i + 1).last() == parsed.tags@[i as int]@);
            }
            object.add_tag_at(parsed.tags[i].as_str(), now);
            i += 1;
        }
        assert(views(parsed.tags@).take(parsed.tags@.len() as int) == views(parsed.tags@));
        let hash = ObsidianAdapter::compute_hash(content);
        let source = SerializationSource::Markdown(
            MarkdownSource::new(path, hash.as_str(), modified),
        );
        object.add_source_at(source, now);
        Ok(object)
    }

    /// The lines of the front matter of `object`, joined by line feeds.
    pub fn build_frontmatter(&self, object: &CognitiveObject) -> (r: String)
        ensures
            r@ == join(frontmatter_lines(object@), "\n"@),
    {
        let mut all: Vec<Vec<char>> = Vec::new();
        match object.get_type() {
            Some(t) => {
                let mut line = to_chars("type: ");
                push_str(&mut line, t);
                all.push(line);
                assert(views(all@) =~= seq!["type: "@ + t@]);
            },
            None => {
                assert(views(all@) =~= Seq::empty());
            },
        }
        let mut tags = flow_line_of("tags", object.tags());
        proof {
            lemma_views_add(all@, tags@);
        }
        all.append(&mut tags);
        let mut aliases = flow_line_of("aliases", object.aliases());
        proof {
            lemma_views_add(all@, aliases@);
        }
        all.append(&mut aliases);
        let mut custom = property_lines_of(object.properties().entries());
        proof {
            lemma_views_add(all@, custom@);
        }
        all.append(&mut custom);
        let sep = to_chars("\n");
        from_chars(&join_chars(&all, &sep))
    }

    /// The line of front matter for the property `key`; a null value has
    /// none.
    pub fn property_to_yaml_line(&self, key: &str, value: &PropertyValue) -> (r: Option<String>)
        ensures
            match r {
                Some(line) => yaml_line(key@, value@) == Some(line@),
                None => yaml_line(key@, value@) is None,
            },
    {
        match yaml_line_of(key, value) {
            Some(line) => Some(from_chars(&line)),
            None => None,
        }
    }

    /// A value as it stands inside a YAML flow sequence; null, lists and
    /// JSON values have no such form.
    pub fn property_to_yaml_value(&self, value: &PropertyValue) -> (r: Option<String>)
        ensures
            match r {
                Some(text) => yaml_scalar(value@) == Some(text@),
                None => yaml_scalar(value@) is None,
            },
    {
        match yaml_scalar_of(value) {
            Some(text) => Some(from_chars(&text)),
            None => None,
        }
    }

    /// `content` without its first line, where that line is a level-one
    /// heading.
    pub fn remove_title_line(&self, content: &str) -> (r: String)
        ensures
            r@ == without_title_line(content@),
    {
        let chars = to_chars(content);
        let all = split_lines(&chars);
        let marker = to_chars("# ");
        if all.len() > 0 {
            assert(views(all@)[0] == all@[0]@);
            if starts_with_chars(&trim_chars(&all[0]), &marker) {
                let mut rest: Vec<Vec<char>> = Vec::new();
                let mut i: usize = 1;
                while i < all.len()
                    invariant
                        1 <= i <= all@.len(),
                        views(rest@) == views(all@).subrange(1, i as int),
                    decreases all@.len() - i,
                {
                    proof {
                        lemma_views_push(rest@, all@[i as int]);
                        assert(views(all@).subrange(1, i as int).push(all@[i as int]@) =~= views(
                            all@,
                        ).subrange(1, i + 1));
                    }
                    rest.push(copy_range(&all[i], 0, all[i].len()));
                    assert(rest@.last()@ =~= all@[i as int]@);
                    i += 1;
                }
                assert(views(all@).subrange(1, all@.len() as int) == views(all@).skip(1));
                let sep = to_chars("\n");
                return from_chars(&trim_start_chars(&join_chars(&rest, &sep)));
            }
        }
        content.to_owned()
    }
}

/// Takes the front matter over into `object`.
fn take_frontmatter(object: &mut CognitiveObject, fm: &Frontmatter, now: i64)
    requires
        old(object)@.wf(),
    ensures
        final(object)@ == with_frontmatter(old(object)@, fm@, now),
        final(object)@.wf(),
{
    match &fm.node_type {
        Some(t) => {
            object.set_property_at("type", PropertyValue::string(t.as_str()), now);
        },
        None => {},
    }
    let ghost typed = object@;
    let mut i: usize = 0;
    while i < fm.aliases.len()
        invariant
            i <= fm.aliases@.len(),
            object@ == with_aliases(typed, views(fm.aliases@).take(i as int), now),
            object@.wf(),
        decreases fm.aliases@.len() - i,
    {
        proof {
            let aliases = views(fm.aliases@);
            assert(aliases.take(i + 1).drop_last() == aliases.take(i as int));
            assert(aliases.take(i + 1).last() == fm.aliases@[i as int]@);
        }
        object.add_alias_at(fm.aliases[i].as_str(), now);
        i += 1;
    }
    assert(views(fm.aliases@).take(fm.aliases@.len() as int) == views(fm.aliases@));
    let ghost aliased = object@;
    let mut j: usize = 0;
    while j < fm.properties.len()
        invariant
            j <= fm.properties@.len(),
            object@ == with_front_properties(aliased, views(fm.properties@).take(j as int), now),
            object@.wf(),
        decreases fm.properties@.len() - j,
    {
        proof {
            let entries = views(fm.properties@);
            assert(entries.take(j + 1).drop_last() == entries.take(j as int));
            assert(entries.take(j + 1).last() == fm.properties@[j as int]@);
        }
        let key = fm.properties[j].name.as_str();
        if !(str_eq(key, "tags") || str_eq(key, "aliases") || str_eq(key, "type") || str_eq(
            key,
            "created",
        )) {
            let value = PropertyValue::from_structured(&fm.properties[j].value);
            object.set_property_at(key, value, now);
        }
        j += 1;
    }
    assert(views(fm.properties@).take(fm.properties@.len() as int) == views(fm.properties@));
    match &fm.created {
        Some(date) => {
            object.set_property_at("created", PropertyValue::string(date.as_str()), now);
        },
        None => {},
    }
}

/// Executable form of [`yaml_scalar`].
fn yaml_scalar_of(value: &PropertyValue) -> (r: Option<Vec<char>>)
    ensures
        match r {
            Some(text) => yaml_scalar(value@) == Some(text@),
            None => yaml_scalar(value@) is None,
        },
{
    match value {
        PropertyValue::String(s) => Some(quoted_chars(s.as_str())),
        PropertyValue::Integer(i) => Some(decimal_chars(*i)),
        PropertyValue::Float(text) => Some(to_chars(text.as_str())),
        PropertyValue::Boolean(b) => Some(
            if *b {
                to_chars("true")
            } else {
                to_chars("false")
            },
        ),
        PropertyValue::DateTime(d) => Some(quoted_chars(d.as_str())),
        PropertyValue::Reference(r) => {
            let mut inner = to_chars("[[");
            push_str(&mut inner, r.as_str());
            push_str(&mut inner, "]]");
            let mut out = to_chars("\"");
            push_all(&mut out, &inner);
            push_str(&mut out, "\"");
            Some(out)
        },
        _ => None,
    }
}

/// Executable form of [`yaml_scalars`].
fn yaml_scalars_of(items: &Vec<PropertyValue>) -> (r: Vec<Vec<char>>)
    ensures
        views(r@) == yaml_scalars(views(items@)),
{
    let ghost all = views(items@);
    let mut out: Vec<Vec<char>> = Vec::new();
    let mut i: usize = 0;
    assert(all.take(0) =~= Seq::empty());
    assert(views(out@) =~= yaml_scalars(all.take(0)));
    while i < items.len()
        invariant
            i <= items@.len(),
            all == views(items@),
            views(out@) == yaml_scalars(all.take(i as int)),
        decreases items@.len() - i,
    {
        proof {
            assert(all.take(i + 1).drop_last() == all.take(i as int));
            assert(all.take(i + 1).last() == items@[i as int]@);
        }
        match yaml_scalar_of(&items[i]) {
            Some(text) => {
                proof {
                    lemma_views_push(out@, text);
                }
                out.push(text);
            },
            None => {},
        }
        i += 1;
    }
    assert(all.take(items@.len() as int) == all);
    out
}

/// Executable form of [`yaml_line`].
fn yaml_line_of(key: &str, value: &PropertyValue) -> (r: Option<Vec<char>>)
    ensures
        match r {
            Some(line) => yaml_line(key@, value@) == Some(line@),
            None => yaml_line(key@, value@) is None,
        },
{
    match value {
        PropertyValue::Null => None,
        PropertyValue::List(items) => {
            proof {
                lemma_list_view(*items);
            }
            let mut line = to_chars(key);
            push_str(&mut line, ": [");
            let parts = yaml_scalars_of(items);
            let sep = to_chars(", ");
            let joined = join_chars(&parts, &sep);
            push_all(&mut line, &joined);
            push_str(&mut line, "]");
            Some(line)
        },
        PropertyValue::Json(j) => {
            let mut line = to_chars(key);
            push_str(&mut line, ": ");
            push_str(&mut line, j.as_str());
            Some(line)
        },
        _ => {
            let mut line = to_chars(key);
            push_str(&mut line, ": ");
            match yaml_scalar_of(value) {
                Some(text) => {
                    push_all(&mut line, &text);
                },
                None => {},
            }
            Some(line)
        },
    }
}

/// Executable form of [`property_lines`].
fn property_lines_of(entries: &Vec<Property>) -> (r: Vec<Vec<char>>)
    ensures
        views(r@) == property_lines(views(entries@)),
{
    let ghost all = views(entries@);
    let mut out: Vec<Vec<char>> = Vec::new();
    let mut i: usize = 0;
    assert(all.take(0) =~= Seq::empty());
    assert(views(out@) =~= property_lines(all.take(0)));
    while i < entries.len()
        invariant
            i <= entries@.len(),
            all == views(entries@),
            views(out@) == property_lines(all.take(i as int)),
        decreases entries@.len() - i,
    {
        proof {
            assert(all.take(i + 1).drop_last() == all.take(i as int));
            assert(all.take(i + 1).last() == entries@[i as int]@);
        }
        let key = entries[i].name.as_str();
        if !(str_eq(key, "title") || str_eq(key, "content") || str_eq(key, "type")) {
            match yaml_line_of(key, &entries[i].value) {
                Some(line) => {
                    proof {
                        lemma_views_push(out@, line);
                    }
                    out.push(line);
                },
                None => {},
            }
        }
        i += 1;
    }
    assert(all.take(entries@.len() as int) == all);
    out
}

impl ObjectAdapter for ObsidianAdapter {
    open spec fn extensions(&self) -> Seq<Seq<char>> {
        seq!["md"@, "markdown"@]
    }

    open spec fn links_of(&self, object: CognitiveObjectView) -> Seq<ExtractedLinkView> {
        object_links(object)
    }

    open spec fn accepts(&self, path: Seq<char>, content: Seq<u8>) -> bool {
        valid_utf8(content)
    }

    open spec fn produces(
        &self,
        path: Seq<char>,
        content: Seq<u8>,
        object: CognitiveObjectView,
    ) -> bool {
        &&& object == loaded(
            path,
            content,
            object.id,
            object.created_at,
            last_modified_of(object),
        )
        &&& object.wf()
    }

    open spec fn written(&self, object: CognitiveObjectView) -> Option<Seq<u8>> {
        match object.title() {
            Some(title) => Some(encode_utf8(saved_text(object, title))),
            None => None,
        }
    }

    fn supported_extensions(&self) -> (r: Vec<String>) {
        let mut out: Vec<String> = Vec::new();
        out.push("md".to_owned());
        out.push("markdown".to_owned());
        assert(views(out@) =~= seq!["md"@, "markdown"@]);
        out
    }

    /// Loads a note. The bytes have to be UTF-8 text; any UTF-8 text
    /// loads. The object gets a random identity and the time of the call;
    /// everything else is as [`loaded`] says.
    fn load(&self, path: &str, content: &[u8]) -> (r: Result<CognitiveObject, AdapterError>)
        ensures
            match r {
                Ok(object) => valid_utf8(content@) && object@ == loaded(
                    path@,
                    content@,
                    object@.id,
                    object@.created_at,
                    last_modified_of(object@),
                ) && object@.wf() && is_random_uuid(object@.id),
                Err(e) => !valid_utf8(content@) && e is Decode,
            },
    {
        let id = ObjectId::new();
        let now = now_millis();
        let modified = now_seconds();
        proof {
            lemma_loaded_identity(path@, content@, id@, now, modified);
        }
        self.load_at(path, content, id, now, modified)
    }

    /// Writes `object` as a note. An object without a title is refused;
    /// any other is written as [`saved_text`] says.
    fn save(&self, object: &CognitiveObject) -> (r: Result<Vec<u8>, AdapterError>)
        ensures
            match r {
                Ok(bytes) => object@.title() is Some && bytes@ == encode_utf8(
                    saved_text(object@, object@.title()->0),
                ),
                Err(e) => {
                    &&& object@.title() is None
                    &&& e matches AdapterError::MissingAttribute(name)
                    &&& name@ == "title"@
                },
            },
    {
        let title = match object.title() {
            Some(title) => title,
            None => {
                return Err(AdapterError::MissingAttribute("title".to_owned()));
            },
        };
        let mut out: Vec<char> = Vec::new();
        let fm = self.build_frontmatter(object);
        if fm.as_str().unicode_len() > 0 {
            push_str(&mut out, "---\n");
            push_str(&mut out, fm.as_str());
            push_str(&mut out, "\n---\n\n");
        }
        push_str(&mut out, "# ");
        push_str(&mut out, title);
        push_str(&mut out, "\n\n");
        match object.content() {
            Some(content) => {
                let body = self.remove_title_line(content);
                push_str(&mut out, body.as_str());
            },
            None => {},
        }
        assert(out@ =~= saved_text(object@, title@));
        let text = from_chars(&out);
        Ok(text.as_str().as_bytes_vec())
    }

    fn extract_links(&self, object: &CognitiveObject) -> (r: Vec<ExtractedLink>) {
        let mut out: Vec<ExtractedLink> = Vec::new();
        match object.content() {
            Some(content) => {
                assert(views(out@) =~= Seq::empty());
                let mut found = extract_wikilinks(content);
                proof {
                    lemma_views_add(out@, found@);
                }
                out.append(&mut found);
                let mut found = extract_embeds(content);
                proof {
                    lemma_views_add(out@, found@);
                }
                out.append(&mut found);
                let mut found = extract_external_links(content);
                proof {
                    lemma_views_add(out@, found@);
                }
                out.append(&mut found);
            },
            None => {
                assert(views(out@) =~= Seq::empty());
            },
        }
        out
    }
}

} // verus!
