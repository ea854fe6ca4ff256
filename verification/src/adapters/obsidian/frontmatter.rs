//! The front matter of a note: a YAML mapping between two `---` lines at
//! the very start of the text.
//!
//! Where a text is wanted (a key, a tag, an alias, the type, the date of
//! creation) any scalar is taken, by its text. The text of a scalar that
//! is no string is that of its value, not its spelling in the note: a tag
//! `2024` is the text `2024`, but `1.50` gives `1.5`, `True` gives `true`
//! and, in a list, `~` gives `null`.
use crate::adapters::obsidian::yaml::{mirror_yaml, parse_yaml, yaml_document};
use crate::dcom::property::{
    lemma_entry_models, lemma_sequence_view, property_of, MappingEntry, PropertyValue,
    StructuredModel, StructuredValue,
};
use crate::seqs::{lemma_views_push, views};
use crate::text::{
    copy_range, find_chars, find_from, from_chars, starts_with, starts_with_chars, str_eq,
    to_chars, trim, trim_chars, trim_start, trim_start_chars,
};
use vstd::prelude::*;

verus! {

/// One entry of the front matter that is none of the well-known keys.
#[derive(Debug, PartialEq)]
pub struct FrontmatterProperty {
    pub name: String,
    pub value: StructuredValue,
}

impl View for FrontmatterProperty {
    type V = (Seq<char>, StructuredModel);

    open spec fn view(&self) -> (Seq<char>, StructuredModel) {
        (self.name@, self.value@)
    }
}

/// The metadata at the head of a note.
#[derive(Debug, PartialEq)]
pub struct Frontmatter {
    /// The value of the key `tags`.
    pub tags: Vec<String>,
    /// The value of the key `aliases`.
    pub aliases: Vec<String>,
    /// The value of the key `type`.
    pub node_type: Option<String>,
    /// The value of the key `created`.
    pub created: Option<String>,
    /// Every other entry, in the order of the document.
    pub properties: Vec<FrontmatterProperty>,
}

/// The mathematical value of a [`Frontmatter`].
pub struct FrontmatterView {
    pub tags: Seq<Seq<char>>,
    pub aliases: Seq<Seq<char>>,
    pub node_type: Option<Seq<char>>,
    pub created: Option<Seq<char>>,
    pub properties: Seq<(Seq<char>, StructuredModel)>,
}

/// The view of an optional string.
pub open spec fn optional_view(o: Option<String>) -> Option<Seq<char>> {
    match o {
        Some(s) => Some(s@),
        None => None,
    }
}

impl View for Frontmatter {
    type V = FrontmatterView;

    open spec fn view(&self) -> FrontmatterView {
        FrontmatterView {
            tags: views(self.tags@),
            aliases: views(self.aliases@),
            node_type: optional_view(self.node_type),
            created: optional_view(self.created),
            properties: views(self.properties@),
        }
    }
}

impl FrontmatterView {
    /// Front matter without any entry.
    pub open spec fn empty() -> FrontmatterView {
        FrontmatterView {
            tags: Seq::empty(),
            aliases: Seq::empty(),
            node_type: None,
            created: None,
            properties: Seq::empty(),
        }
    }

    /// Whether the front matter has no entry.
    pub open spec fn is_empty(self) -> bool {
        &&& self.tags.len() == 0
        &&& self.aliases.len() == 0
        &&& self.node_type is None
        &&& self.created is None
        &&& self.properties.len() == 0
    }
}

/// The text that a scalar is read as where a text is wanted: a string is
/// its own text, a number the text that the document's format prints for
/// it, a truth value `true` or `false`, null `null`. A sequence, a mapping
/// and a tagged value have none.
pub open spec fn scalar_text(value: StructuredModel) -> Option<Seq<char>> {
    match value {
        StructuredModel::String(s) => Some(s),
        StructuredModel::Number(n) => Some(n.text),
        StructuredModel::Bool(b) => Some(
            if b {
                "true"@
            } else {
                "false"@
            },
        ),
        StructuredModel::Null => Some("null"@),
        _ => None,
    }
}

/// Whether every item of `items` is a scalar.
pub open spec fn all_scalars(items: Seq<StructuredModel>) -> bool {
    forall|i: int| 0 <= i < items.len() ==> (#[trigger] scalar_text(items[i])) is Some
}

/// The texts of a sequence of scalars, in order; no text for null, which
/// is how a key without a value reads; nothing for any other value.
pub open spec fn text_items(value: StructuredModel) -> Option<Seq<Seq<char>>> {
    match value {
        StructuredModel::Sequence(items) => if all_scalars(items) {
            Some(Seq::new(items.len(), |i: int| scalar_text(items[i])->0))
        } else {
            None
        },
        StructuredModel::Null => Some(Seq::empty()),
        _ => None,
    }
}

/// An optional text: none for null, else the text of a scalar; nothing
/// for any other value.
pub open spec fn optional_text(value: StructuredModel) -> Option<Option<Seq<char>>> {
    match value {
        StructuredModel::Null => Some(None),
        _ => match scalar_text(value) {
            Some(text) => Some(Some(text)),
            None => None,
        },
    }
}

/// `fm` after one more entry of the document. The key has to be a scalar,
/// and is taken by its text. `tags` and `aliases` take a sequence of
/// scalars, `type` and `created` a scalar; an entry under any other key is
/// kept as it is, under the text of its key.
pub open spec fn absorb_entry(
    fm: FrontmatterView,
    key: StructuredModel,
    value: StructuredModel,
) -> Option<FrontmatterView> {
    match scalar_text(key) {
        Some(k) => {
            if k == "tags"@ {
                match text_items(value) {
                    Some(items) => Some(FrontmatterView { tags: items, ..fm }),
                    None => None,
                }
            } else if k == "aliases"@ {
                match text_items(value) {
                    Some(items) => Some(FrontmatterView { aliases: items, ..fm }),
                    None => None,
                }
            } else if k == "type"@ {
                match optional_text(value) {
                    Some(text) => Some(FrontmatterView { node_type: text, ..fm }),
                    None => None,
                }
            } else if k == "created"@ {
                match optional_text(value) {
                    Some(text) => Some(FrontmatterView { created: text, ..fm }),
                    None => None,
                }
            } else {
                Some(FrontmatterView { properties: fm.properties.push((k, value)), ..fm })
            }
        },
        None => None,
    }
}

/// The front matter that the entries of a mapping give, taken in order;
/// nothing where one entry is refused.
pub open spec fn absorb_entries(entries: Seq<(StructuredModel, StructuredModel)>) -> Option<
    FrontmatterView,
>
    decreases entries.len(),
{
    if entries.len() == 0 {
        Some(FrontmatterView::empty())
    } else {
        match absorb_entries(entries.drop_last()) {
            Some(fm) => absorb_entry(fm, entries.last().0, entries.last().1),
            None => None,
        }
    }
}

/// The front matter that a document gives. The document has to be a
/// mapping; one without entries gives front matter without entries.
pub open spec fn frontmatter_of(document: StructuredModel) -> Option<FrontmatterView> {
    match document {
        StructuredModel::Mapping { entries, json } => absorb_entries(entries),
        _ => None,
    }
}

/// The front matter that a YAML text gives: that of its document, where
/// the text is one.
pub open spec fn decoded_frontmatter(yaml: Seq<char>) -> Option<FrontmatterView> {
    match yaml_document(yaml) {
        Some(document) => frontmatter_of(document),
        None => None,
    }
}

/// The two parts of a text that begins with `---` and holds a line feed
/// followed by `---` after that: what stands between the two markers, and
/// what follows the second.
pub open spec fn frontmatter_region(content: Seq<char>) -> Option<(Seq<char>, Seq<char>)> {
    if starts_with(content, "---"@) {
        match find_from(content, "\n---"@, 3) {
            Some(at) => Some((content.subrange(3, at), content.skip(at + 4))),
            None => None,
        }
    } else {
        None
    }
}

/// The front matter that a region gives: none of its entries where the
/// region holds whitespace only, else what its trimmed text decodes to.
pub open spec fn decoded_region(yaml: Seq<char>) -> Option<FrontmatterView> {
    if trim(yaml).len() == 0 {
        Some(FrontmatterView::empty())
    } else {
        decoded_frontmatter(trim(yaml))
    }
}

/// Front matter and body of a note. Where the text has no front matter
/// region, or the region does not decode, there is no front matter and the
/// body is the whole text, unchanged.
pub open spec fn parsed_frontmatter(content: Seq<char>) -> (Option<FrontmatterView>, Seq<char>) {
    match frontmatter_region(content) {
        Some((yaml, rest)) => match decoded_region(yaml) {
            Some(fm) => (Some(fm), trim_start(rest)),
            None => (None, content),
        },
        None => (None, content),
    }
}

impl Frontmatter {
    /// Front matter without any entry.
    pub fn new() -> (r: Self)
        ensures
            r@ == FrontmatterView::empty(),
    {
        let r = Frontmatter {
            tags: Vec::new(),
            aliases: Vec::new(),
            node_type: None,
            created: None,
            properties: Vec::new(),
        };
        proof {
            assert(r@.tags =~= Seq::empty());
            assert(r@.aliases =~= Seq::empty());
            assert(r@.properties =~= Seq::empty());
        }
        r
    }

    /// Whether the front matter has no entry.
    pub fn is_empty(&self) -> (r: bool)
        ensures
            r == self@.is_empty(),
    {
        self.tags.len() == 0 && self.aliases.len() == 0 && self.node_type.is_none()
            && self.created.is_none() && self.properties.len() == 0
    }

    /// Whether an entry named `name` is among the other properties.
    pub fn has_property(&self, name: &str) -> (r: bool)
        ensures
            r == exists|i: int|
                0 <= i < self@.properties.len() && (#[trigger] self@.properties[i]).0 == name@,
    {
        let mut i: usize = 0;
        while i < self.properties.len()
            invariant
                i <= self.properties@.len(),
                forall|k: int| 0 <= k < i ==> (#[trigger] self@.properties[k]).0 != name@,
            decreases self.properties@.len() - i,
        {
            if str_eq(self.properties[i].name.as_str(), name) {
                assert(self@.properties[i as int].0 == name@);
                return true;
            }
            i += 1;
        }
        false
    }
}

impl Default for Frontmatter {
    fn default() -> (r: Self)
        ensures
            r@ == FrontmatterView::empty(),
    {
        Frontmatter::new()
    }
}

/// Executable form of [`scalar_text`].
pub fn scalar_text_of(value: &StructuredValue) -> (r: Option<String>)
    ensures
        match r {
            Some(text) => scalar_text(value@) == Some(text@),
            None => scalar_text(value@) is None,
        },
{
    match value {
        StructuredValue::String(s) => Some(s.clone()),
        StructuredValue::Number(n) => Some(n.text.clone()),
        StructuredValue::Bool(b) => Some(
            if *b {
                "true".to_owned()
            } else {
                "false".to_owned()
            },
        ),
        StructuredValue::Null => Some("null".to_owned()),
        _ => None,
    }
}

/// Executable form of [`text_items`].
fn text_items_of(value: &StructuredValue) -> (r: Option<Vec<String>>)
    ensures
        match r {
            Some(items) => text_items(value@) == Some(views(items@)),
            None => text_items(value@) is None,
        },
{
    match value {
        StructuredValue::Sequence(items) => {
            proof {
                lemma_sequence_view(*items);
            }
            let mut out: Vec<String> = Vec::new();
            let mut i: usize = 0;
            while i < items.len()
                invariant
                    i <= items@.len(),
                    out@.len() == i,
                    value@ == StructuredModel::Sequence(views(items@)),
                    forall|k: int|
                        0 <= k < i ==> scalar_text((#[trigger] items@[k])@) == Some(out@[k]@),
                decreases items@.len() - i,
            {
                match scalar_text_of(&items[i]) {
                    Some(text) => {
                        out.push(text);
                    },
                    None => {
                        assert(scalar_text(views(items@)[i as int]) is None);
                        return None;
                    },
                }
                i += 1;
            }
            proof {
                assert forall|k: int| 0 <= k < items@.len() implies (#[trigger] scalar_text(
                    views(items@)[k],
                )) is Some by {
                    assert(scalar_text(items@[k]@) is Some);
                }
                assert forall|k: int| 0 <= k < items@.len() implies views(out@)[k] == scalar_text(
                    views(items@)[k],
                )->0 by {
                    assert(scalar_text(items@[k]@) == Some(out@[k]@));
                }
                assert(views(out@) =~= text_items(value@)->0);
            }
            Some(out)
        },
        StructuredValue::Null => {
            let out: Vec<String> = Vec::new();
            assert(views(out@) =~= Seq::empty());
            Some(out)
        },
        _ => None,
    }
}

/// Executable form of [`optional_text`].
fn optional_text_of(value: &StructuredValue) -> (r: Option<Option<String>>)
    ensures
        match r {
            Some(text) => optional_text(value@) == Some(optional_view(text)),
            None => optional_text(value@) is None,
        },
{
    match value {
        StructuredValue::Null => Some(None),
        _ => match scalar_text_of(value) {
            Some(text) => Some(Some(text)),
            None => None,
        },
    }
}

/// Executable form of [`absorb_entry`].
fn absorb(fm: Frontmatter, entry: MappingEntry) -> (r: Option<Frontmatter>)
    ensures
        match r {
            Some(next) => absorb_entry(fm@, entry.key@, entry.value@) == Some(next@),
            None => absorb_entry(fm@, entry.key@, entry.value@) is None,
        },
{
    let mut fm = fm;
    let MappingEntry { key, value } = entry;
    match scalar_text_of(&key) {
        Some(k) => {
            if str_eq(k.as_str(), "tags") {
                match text_items_of(&value) {
                    Some(items) => {
                        fm.tags = items;
                        Some(fm)
                    },
                    None => None,
                }
            } else if str_eq(k.as_str(), "aliases") {
                match text_items_of(&value) {
                    Some(items) => {
                        fm.aliases = items;
                        Some(fm)
                    },
                    None => None,
                }
            } else if str_eq(k.as_str(), "type") {
                match optional_text_of(&value) {
                    Some(text) => {
                        fm.node_type = text;
                        Some(fm)
                    },
                    None => None,
                }
            } else if str_eq(k.as_str(), "created") {
                match optional_text_of(&value) {
                    Some(text) => {
                        fm.created = text;
                        Some(fm)
                    },
                    None => None,
                }
            } else {
                let property = FrontmatterProperty { name: k, value };
                proof {
                    lemma_views_push(fm.properties@, property);
                }
                fm.properties.push(property);
                Some(fm)
            }
        },
        None => None,
    }
}

/// Executable form of [`frontmatter_of`].
pub fn frontmatter_from(document: StructuredValue) -> (r: Option<Frontmatter>)
    ensures
        match r {
            Some(fm) => frontmatter_of(document@) == Some(fm@),
            None => frontmatter_of(document@) is None,
        },
{
    match document {
        StructuredValue::Mapping(mapping) => {
            let ghost all = views(mapping.entries@);
            proof {
                lemma_entry_models(mapping.entries@);
            }
            let mut entries = mapping.entries;
            let mut fm = Frontmatter::new();
            let ghost mut done: int = 0;
            assert(all.take(0) =~= Seq::empty());
            assert(all.skip(0) =~= all);
            while entries.len() > 0
                invariant
                    0 <= done <= all.len(),
                    frontmatter_of(document@) == absorb_entries(all),
                    entries@.len() == all.len() - done,
                    views(entries@) == all.skip(done),
                    absorb_entries(all.take(done)) == Some(fm@),
                decreases entries@.len(),
            {
                let ghost before = entries@;
                let entry = entries.remove(0);
                proof {
                    assert(views(before)[0] == entry@);
                    assert(all.skip(done)[0] == all[done]);
                    assert(all[done] == entry@);
                    assert(all.take(done + 1).drop_last() == all.take(done));
                    assert(all.take(done + 1).last() == entry@);
                    assert forall|k: int| 0 <= k < entries@.len() implies views(entries@)[k]
                        == all.skip(done + 1)[k] by {
                        assert(views(before)[k + 1] == all.skip(done)[k + 1]);
                    }
                    assert(views(entries@) =~= all.skip(done + 1));
                }
                match absorb(fm, entry) {
                    Some(next) => {
                        fm = next;
                    },
                    None => {
                        proof {
                            lemma_absorb_entries_fails(all, done + 1);
                        }
                        return None;
                    },
                }
                proof {
                    done = done + 1;
                }
            }
            assert(all.take(done) == all);
            Some(fm)
        },
        _ => None,
    }
}

/// Once a prefix of the entries is refused, all entries are.
pub proof fn lemma_absorb_entries_fails(entries: Seq<(StructuredModel, StructuredModel)>, n: int)
    requires
        0 <= n <= entries.len(),
        absorb_entries(entries.take(n)) is None,
    ensures
        absorb_entries(entries) is None,
    decreases entries.len() - n,
{
    if n < entries.len() {
        assert(entries.take(n + 1).drop_last() == entries.take(n));
        lemma_absorb_entries_fails(entries, n + 1);
    } else {
        assert(entries.take(n) == entries);
    }
}

/// Splits `content` into front matter and body.
///
/// The text has to begin with `---`; the region ends before the next line
/// feed that `---` follows. The region, trimmed, is decoded as a YAML
/// mapping; an empty region is front matter without entries, and so is one
/// of comments only. Where there is no such region, or it does not decode,
/// or an entry is refused, there is no front matter and the body is
/// `content`, unchanged. Otherwise the body is what follows the closing
/// `---`, without leading whitespace.
pub fn parse_frontmatter(content: &str) -> (r: (Option<Frontmatter>, String))
    ensures
        match r.0 {
            Some(fm) => parsed_frontmatter(content@).0 == Some(fm@),
            None => parsed_frontmatter(content@).0 is None,
        },
        r.1@ == parsed_frontmatter(content@).1,
{
    let chars = to_chars(content);
    let opening = to_chars("---");
    let closing = to_chars("\n---");
    proof {
        reveal_strlit("---");
        reveal_strlit("\n---");
    }
    if !starts_with_chars(&chars, &opening) {
        return (None, content.to_owned());
    }
    let at = match find_chars(&chars, &closing, 3) {
        Some(at) => at,
        None => {
            return (None, content.to_owned());
        },
    };
    proof {
        crate::text::lemma_find_from_is_first(chars@, closing@, 3);
    }
    let body_start = at + 4;
    let yaml = trim_chars(&copy_range(&chars, 3, at));
    let decoded = if yaml.len() == 0 {
        Some(Frontmatter::new())
    } else {
        match parse_yaml(from_chars(&yaml).as_str()) {
            Some(value) => frontmatter_from(mirror_yaml(&value)),
            None => None,
        }
    };
    match decoded {
        Some(fm) => {
            let rest = trim_start_chars(&copy_range(&chars, body_start, chars.len()));
            (Some(fm), from_chars(&rest))
        },
        None => (None, content.to_owned()),
    }
}

/// The property value that stands for a value of the front matter; see
/// [`property_of`].
pub fn yaml_to_property_value(value: &StructuredValue) -> (r: PropertyValue)
    ensures
        r@ == property_of(value@),
{
    PropertyValue::from_structured(value)
}

} // verus!
