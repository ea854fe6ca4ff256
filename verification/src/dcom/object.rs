//! The cognitive object: one note or resource, whatever its format.
use crate::dcom::ambient::{now_millis, random_uuid};
use crate::dcom::property::{
    lemma_with_entry, lemma_without_entry, lookup, unique_names, with_entry, without_entry,
    PropertyMap, PropertyModel, PropertyValue,
};
use crate::dcom::serialization::{
    MarkdownSource, MarkdownSourceView, SerializationSource, SourceView,
};
use crate::seqs::{lemma_position, lemma_views_push, position, run_to, views};
use crate::text::{contains_text, position_of_text, str_eq};
use vstd::prelude::*;

verus! {

/// Whether `c` is a digit or one of the letters `a` to `f`.
pub open spec fn is_lower_hex_digit(c: char) -> bool {
    ('0' <= c <= '9') || ('a' <= c <= 'f')
}

/// Whether `id` is a random (version 4) UUID in hyphenated lower-case
/// form: 36 characters in groups of 8, 4, 4, 4 and 12 hexadecimal digits
/// with hyphens between them, the third group beginning with `4` and the
/// fourth with `8`, `9`, `a` or `b`.
pub open spec fn is_random_uuid(id: Seq<char>) -> bool {
    &&& id.len() == 36
    &&& forall|i: int|
        0 <= i < 36 ==> if i == 8 || i == 13 || i == 18 || i == 23 {
            #[trigger] id[i] == '-'
        } else {
            is_lower_hex_digit(id[i])
        }
    &&& id[14] == '4'
    &&& id[19] == '8' || id[19] == '9' || id[19] == 'a' || id[19] == 'b'
}

/// The identity of an object: an opaque string that never changes once the
/// object exists. Two identities are the same when their strings are.
#[derive(Debug, PartialEq, Eq, Hash)]
pub struct ObjectId(String);

impl View for ObjectId {
    type V = Seq<char>;

    closed spec fn view(&self) -> Seq<char> {
        self.0@
    }
}

impl Clone for ObjectId {
    fn clone(&self) -> (r: Self)
        ensures
            r@ == self@,
    {
        ObjectId(self.0.clone())
    }
}

impl ObjectId {
    /// A fresh random identity: a version 4 UUID in hyphenated lower-case
    /// form.
    pub fn new() -> (r: Self)
        ensures
            is_random_uuid(r@),
    {
        ObjectId(random_uuid())
    }

    /// The identity that `id` spells. Any string is accepted.
    pub fn from_string(id: &str) -> (r: Self)
        ensures
            r@ == id@,
    {
        ObjectId(id.to_owned())
    }

    /// The string of the identity.
    pub fn as_str(&self) -> (r: &str)
        ensures
            r@ == self@,
    {
        self.0.as_str()
    }

    /// The string of the identity.
    pub fn into_string(self) -> (r: String)
        ensures
            r@ == self@,
    {
        self.0
    }
}

impl Default for ObjectId {
    fn default() -> (r: Self)
        ensures
            is_random_uuid(r@),
    {
        ObjectId::new()
    }
}

/// The string of an identity is private: what `from` returns is stated on
/// `from` itself.
impl vstd::std_specs::convert::FromSpecImpl<String> for ObjectId {
    open spec fn obeys_from_spec() -> bool {
        false
    }

    open spec fn from_spec(s: String) -> ObjectId {
        arbitrary()
    }
}

impl From<String> for ObjectId {
    fn from(s: String) -> (r: Self)
        ensures
            r@ == s@,
    {
        ObjectId(s)
    }
}

/// The conversion makes a new string, which a specification cannot name:
/// what `from` returns is stated on `from` itself.
impl vstd::std_specs::convert::FromSpecImpl<&str> for ObjectId {
    open spec fn obeys_from_spec() -> bool {
        false
    }

    open spec fn from_spec(s: &str) -> ObjectId {
        arbitrary()
    }
}

impl From<&str> for ObjectId {
    fn from(s: &str) -> (r: Self)
        ensures
            r@ == s@,
    {
        ObjectId(s.to_owned())
    }
}

/// One note or resource of the knowledge graph.
#[derive(Debug, Clone)]
pub struct CognitiveObject {
    pub id: ObjectId,
    /// Time of creation, in milliseconds since the Unix epoch.
    pub created_at: i64,
    /// Time of the last change, in milliseconds since the Unix epoch.
    pub updated_at: i64,
    /// The physical representations, in the order in which they were added.
    pub sources: Vec<SerializationSource>,
    pub properties: PropertyMap,
    /// The tags, each once, in the order in which they were added.
    pub tags: Vec<String>,
    /// The aliases, each once, in the order in which they were added.
    pub aliases: Vec<String>,
    /// The targets of the outbound links, each once, in the order in which
    /// they were added.
    pub links: Vec<ObjectId>,
    /// The type that rule evaluation inferred. Neither adapters nor the
    /// synchroniser write it.
    pub inferred_type: Option<String>,
    /// The equivalence classes that rule evaluation assigned.
    pub equivalence_classes: Vec<String>,
}

/// The mathematical value of a [`CognitiveObject`].
pub struct CognitiveObjectView {
    pub id: Seq<char>,
    pub created_at: i64,
    pub updated_at: i64,
    pub sources: Seq<SourceView>,
    pub properties: Seq<(Seq<char>, PropertyModel)>,
    pub tags: Seq<Seq<char>>,
    pub aliases: Seq<Seq<char>>,
    pub links: Seq<Seq<char>>,
    pub inferred_type: Option<Seq<char>>,
    pub equivalence_classes: Seq<Seq<char>>,
}

/// `items` with `item` added at the end unless it is there already.
pub open spec fn with_member(items: Seq<Seq<char>>, item: Seq<char>) -> Seq<Seq<char>> {
    if items.contains(item) {
        items
    } else {
        items.push(item)
    }
}

/// `items` without the first occurrence of `item`.
pub open spec fn without_member(items: Seq<Seq<char>>, item: Seq<char>) -> Seq<Seq<char>> {
    let at = position(items, item);
    if at < items.len() {
        items.remove(at)
    } else {
        items
    }
}

/// Index of the first Markdown source at or after `from`, counted from
/// `from`; up to the end of `sources` when there is none.
pub open spec fn run_to_markdown(sources: Seq<SourceView>, from: int) -> nat
    decreases sources.len() - from,
{
    if from < 0 || from >= sources.len() || sources[from] is Markdown {
        0
    } else {
        1 + run_to_markdown(sources, from + 1)
    }
}

impl CognitiveObjectView {
    /// An object without content: no sources, properties, tags, aliases or
    /// links, created and last changed at `now`.
    pub open spec fn fresh(id: Seq<char>, now: i64) -> CognitiveObjectView {
        CognitiveObjectView {
            id,
            created_at: now,
            updated_at: now,
            sources: Seq::empty(),
            properties: Seq::empty(),
            tags: Seq::empty(),
            aliases: Seq::empty(),
            links: Seq::empty(),
            inferred_type: None,
            equivalence_classes: Seq::empty(),
        }
    }

    /// Tags, aliases and links hold nothing twice, and no two properties
    /// have the same name.
    pub open spec fn wf(self) -> bool {
        &&& self.tags.no_duplicates()
        &&& self.aliases.no_duplicates()
        &&& self.links.no_duplicates()
        &&& unique_names(self.properties)
    }

    /// The value of the property `name`.
    pub open spec fn property(self, name: Seq<char>) -> Option<PropertyModel> {
        lookup(self.properties, name)
    }

    /// The text of the property `name`, where it is a string.
    pub open spec fn text_property(self, name: Seq<char>) -> Option<Seq<char>> {
        match lookup(self.properties, name) {
            Some(PropertyModel::String(s)) => Some(s),
            _ => None,
        }
    }

    /// The text of the `title` property.
    pub open spec fn title(self) -> Option<Seq<char>> {
        self.text_property("title"@)
    }

    /// The text of the `content` property.
    pub open spec fn content(self) -> Option<Seq<char>> {
        self.text_property("content"@)
    }

    /// The type that the `type` property states.
    pub open spec fn explicit_type(self) -> Option<Seq<char>> {
        self.text_property("type"@)
    }

    /// The effective type: the inferred type where there is one, else the
    /// explicit type.
    pub open spec fn object_type(self) -> Option<Seq<char>> {
        match self.inferred_type {
            Some(t) => Some(t),
            None => self.explicit_type(),
        }
    }

    /// The object after `name` was set to `value` at `now`.
    pub open spec fn with_property(
        self,
        name: Seq<char>,
        value: PropertyModel,
        now: i64,
    ) -> CognitiveObjectView {
        CognitiveObjectView {
            properties: with_entry(self.properties, name, value),
            updated_at: now,
            ..self
        }
    }

    /// The object after the property `name` was removed at `now`. Without such
    /// a property nothing changes.
    pub open spec fn without_property(self, name: Seq<char>, now: i64) -> CognitiveObjectView {
        if lookup(self.properties, name) is Some {
            CognitiveObjectView {
                properties: without_entry(self.properties, name),
                updated_at: now,
                ..self
            }
        } else {
            self
        }
    }

    /// The object after `tag` was added at `now`. A tag that the object has
    /// changes nothing.
    pub open spec fn with_tag(self, tag: Seq<char>, now: i64) -> CognitiveObjectView {
        if self.tags.contains(tag) {
            self
        } else {
            CognitiveObjectView { tags: self.tags.push(tag), updated_at: now, ..self }
        }
    }

    /// The object after `tag` was removed at `now`. A tag that the object does
    /// not have changes nothing.
    pub open spec fn without_tag(self, tag: Seq<char>, now: i64) -> CognitiveObjectView {
        if self.tags.contains(tag) {
            CognitiveObjectView {
                tags: without_member(self.tags, tag),
                updated_at: now,
                ..self
            }
        } else {
            self
        }
    }

    /// The object after `alias` was added at `now`. An alias that the object
    /// has changes nothing.
    pub open spec fn with_alias(self, alias: Seq<char>, now: i64) -> CognitiveObjectView {
        if self.aliases.contains(alias) {
            self
        } else {
            CognitiveObjectView { aliases: self.aliases.push(alias), updated_at: now, ..self }
        }
    }

    /// The object after a link to `target` was added at `now`. A link that
    /// the object has changes nothing.
    pub open spec fn with_link(self, target: Seq<char>, now: i64) -> CognitiveObjectView {
        if self.links.contains(target) {
            self
        } else {
            CognitiveObjectView { links: self.links.push(target), updated_at: now, ..self }
        }
    }

    /// The object after `source` was added at `now`.
    pub open spec fn with_source(self, source: SourceView, now: i64) -> CognitiveObjectView {
        CognitiveObjectView { sources: self.sources.push(source), updated_at: now, ..self }
    }

    /// The first Markdown source.
    pub open spec fn markdown_source(self) -> Option<MarkdownSourceView> {
        let at = run_to_markdown(self.sources, 0) as int;
        if at < self.sources.len() {
            Some(self.sources[at]->Markdown_0)
        } else {
            None
        }
    }

    /// The path of the first Markdown source.
    pub open spec fn path(self) -> Option<Seq<char>> {
        match self.markdown_source() {
            Some(m) => Some(m.path),
            None => None,
        }
    }

    /// Whether a file backs the object: whether some source is not virtual.
    pub open spec fn has_file(self) -> bool {
        exists|i: int| 0 <= i < self.sources.len() && !(#[trigger] self.sources[i] is Virtual)
    }

    /// Whether no file backs the object: whether every source is virtual.
    pub open spec fn is_virtual(self) -> bool {
        !self.has_file()
    }
}

/// Adding a member keeps a sequence free of duplicates.
pub proof fn lemma_with_member_no_duplicates(items: Seq<Seq<char>>, item: Seq<char>)
    requires
        items.no_duplicates(),
    ensures
        with_member(items, item).no_duplicates(),
        with_member(items, item).contains(item),
{
    if !items.contains(item) {
        assert(items.push(item)[items.len() as int] == item);
    }
}

/// Removing a member keeps a sequence free of duplicates, and the member is
/// gone.
pub proof fn lemma_without_member_no_duplicates(items: Seq<Seq<char>>, item: Seq<char>)
    requires
        items.no_duplicates(),
    ensures
        without_member(items, item).no_duplicates(),
        !without_member(items, item).contains(item),
{
    lemma_position(items, item);
    let at = position(items, item);
    let after = without_member(items, item);
    if at < items.len() {
        assert forall|i: int| 0 <= i < after.len() implies after[i] == items[if i < at {
            i
        } else {
            i + 1
        }] by {}
        if after.contains(item) {
            let i = choose|i: int| 0 <= i < after.len() && after[i] == item;
            assert(items[if i < at { i } else { i + 1 }] == item);
        }
    }
}

impl View for CognitiveObject {
    type V = CognitiveObjectView;

    open spec fn view(&self) -> CognitiveObjectView {
        CognitiveObjectView {
            id: self.id@,
            created_at: self.created_at,
            updated_at: self.updated_at,
            sources: views(self.sources@),
            properties: self.properties@,
            tags: views(self.tags@),
            aliases: views(self.aliases@),
            links: views(self.links@),
            inferred_type: match self.inferred_type {
                Some(t) => Some(t@),
                None => None,
            },
            equivalence_classes: views(self.equivalence_classes@),
        }
    }
}

/// Index of the first identity in `v` equal to `id`, or the length of `v`.
fn position_of_id(v: &Vec<ObjectId>, id: &ObjectId) -> (r: usize)
    ensures
        r == position(views(v@), id@),
        r <= v@.len(),
{
    let n = v.len();
    let mut i: usize = 0;
    while i < n && !str_eq(v[i].as_str(), id.as_str())
        invariant
            i <= n == v@.len(),
            run_to(views(v@), id@, 0) == i + run_to(views(v@), id@, i as int),
        decreases n - i,
    {
        i += 1;
    }
    i
}

impl CognitiveObject {
    /// A new object without content, with a random identity, created now.
    pub fn new() -> (r: Self)
        ensures
            r@ == CognitiveObjectView::fresh(r@.id, r@.created_at),
            is_random_uuid(r@.id),
    {
        CognitiveObject::with_id_at(ObjectId::new(), now_millis())
    }

    /// A new object without content, with the identity `id`, created now.
    pub fn with_id(id: ObjectId) -> (r: Self)
        ensures
            r@ == CognitiveObjectView::fresh(id@, r@.created_at),
    {
        CognitiveObject::with_id_at(id, now_millis())
    }

    /// A new object without content, with the identity `id`, created at
    /// `now`.
    pub fn with_id_at(id: ObjectId, now: i64) -> (r: Self)
        ensures
            r@ == CognitiveObjectView::fresh(id@, now),
            r@.wf(),
    {
        let r = CognitiveObject {
            id,
            created_at: now,
            updated_at: now,
            sources: Vec::new(),
            properties: PropertyMap::new(),
            tags: Vec::new(),
            aliases: Vec::new(),
            links: Vec::new(),
            inferred_type: None,
            equivalence_classes: Vec::new(),
        };
        proof {
            assert(r@.sources =~= Seq::empty());
            assert(r@.tags =~= Seq::empty());
            assert(r@.aliases =~= Seq::empty());
            assert(r@.links =~= Seq::empty());
            assert(r@.equivalence_classes =~= Seq::empty());
            assert(crate::dcom::property::names(r@.properties) =~= Seq::empty());
        }
        r
    }

    /// Sets the property `name` to `value` and marks the object as changed
    /// at `now`.
    pub fn set_property_at(&mut self, name: &str, value: PropertyValue, now: i64)
        ensures
            final(self)@ == old(self)@.with_property(name@, value@, now),
            old(self)@.wf() ==> final(self)@.wf(),
    {
        proof {
            lemma_with_entry(self@.properties, name@, value@, name@);
        }
        self.properties.insert(name, value);
        self.updated_at = now;
    }

    /// Sets the property `name` to `value` and marks the object as changed
    /// now.
    pub fn set_property(&mut self, name: &str, value: PropertyValue)
        ensures
            final(self)@ == old(self)@.with_property(name@, value@, final(self)@.updated_at),
            old(self)@.wf() ==> final(self)@.wf(),
    {
        self.set_property_at(name, value, now_millis());
    }

    /// The value of the property `name`.
    pub fn get_property(&self, name: &str) -> (r: Option<&PropertyValue>)
        ensures
            match r {
                Some(value) => self@.property(name@) == Some(value@),
                None => self@.property(name@) is None,
            },
    {
        self.properties.get(name)
    }

    /// Removes the property `name`. Where there was one, the object is
    /// marked as changed at `now`.
    pub fn remove_property_at(&mut self, name: &str, now: i64) -> (r: Option<PropertyValue>)
        ensures
            final(self)@ == old(self)@.without_property(name@, now),
            match r {
                Some(value) => old(self)@.property(name@) == Some(value@),
                None => old(self)@.property(name@) is None,
            },
            old(self)@.wf() ==> final(self)@.wf(),
    {
        proof {
            if self@.wf() {
                lemma_without_entry(self@.properties, name@, name@);
            }
        }
        let removed = self.properties.remove(name);
        if removed.is_some() {
            self.updated_at = now;
        }
        removed
    }

    /// Removes the property `name`. Where there was one, the object is
    /// marked as changed now.
    pub fn remove_property(&mut self, name: &str) -> (r: Option<PropertyValue>)
        ensures
            final(self)@ == old(self)@.without_property(name@, final(self)@.updated_at),
            match r {
                Some(value) => old(self)@.property(name@) == Some(value@),
                None => old(self)@.property(name@) is None,
            },
            old(self)@.wf() ==> final(self)@.wf(),
    {
        self.remove_property_at(name, now_millis())
    }

    /// The text of the property `name`, where it is a string.
    pub fn text_property(&self, name: &str) -> (r: Option<&str>)
        ensures
            match r {
                Some(text) => self@.text_property(name@) == Some(text@),
                None => self@.text_property(name@) is None,
            },
    {
        match self.properties.get(name) {
            Some(value) => value.as_string(),
            None => None,
        }
    }

    /// The text of the `title` property, where it is a string.
    pub fn title(&self) -> (r: Option<&str>)
        ensures
            match r {
                Some(text) => self@.title() == Some(text@),
                None => self@.title() is None,
            },
    {
        self.text_property("title")
    }

    /// Sets the `title` property.
    pub fn set_title(&mut self, title: &str)
        ensures
            final(self)@ == old(self)@.with_property(
                "title"@,
                PropertyModel::String(title@),
                final(self)@.updated_at,
            ),
            old(self)@.wf() ==> final(self)@.wf(),
    {
        self.set_property("title", PropertyValue::string(title));
    }

    /// The text of the `content` property, where it is a string.
    pub fn content(&self) -> (r: Option<&str>)
        ensures
            match r {
                Some(text) => self@.content() == Some(text@),
                None => self@.content() is None,
            },
    {
        self.text_property("content")
    }

    /// Sets the `content` property.
    pub fn set_content(&mut self, content: &str)
        ensures
            final(self)@ == old(self)@.with_property(
                "content"@,
                PropertyModel::String(content@),
                final(self)@.updated_at,
            ),
            old(self)@.wf() ==> final(self)@.wf(),
    {
        self.set_property("content", PropertyValue::string(content));
    }

    /// The effective type: the inferred type where there is one, else the
    /// explicit type.
    pub fn object_type(&self) -> (r: Option<&str>)
        ensures
            match r {
                Some(text) => self@.object_type() == Some(text@),
                None => self@.object_type() is None,
            },
    {
        match &self.inferred_type {
            Some(t) => Some(t.as_str()),
            None => self.text_property("type"),
        }
    }

    /// Sets the explicit type.
    pub fn set_type(&mut self, obj_type: &str)
        ensures
            final(self)@ == old(self)@.with_property(
                "type"@,
                PropertyModel::String(obj_type@),
                final(self)@.updated_at,
            ),
            old(self)@.wf() ==> final(self)@.wf(),
    {
        self.set_property("type", PropertyValue::string(obj_type));
    }

    /// The explicit type, whatever was inferred.
    pub fn get_type(&self) -> (r: Option<&str>)
        ensures
            match r {
                Some(text) => self@.explicit_type() == Some(text@),
                None => self@.explicit_type() is None,
            },
    {
        self.text_property("type")
    }

    /// Adds `tag` unless the object has it. Only a tag that is added marks
    /// the object as changed at `now`.
    pub fn add_tag_at(&mut self, tag: &str, now: i64)
        ensures
            final(self)@ == old(self)@.with_tag(tag@, now),
            old(self)@.wf() ==> final(self)@.wf(),
    {
        if !contains_text(&self.tags, tag) {
            let owned = tag.to_owned();
            proof {
                lemma_views_push(self.tags@, owned);
                if self@.wf() {
                    lemma_with_member_no_duplicates(self@.tags, tag@);
                }
            }
            self.tags.push(owned);
            self.updated_at = now;
        }
    }

    /// Adds `tag` unless the object has it. Only a tag that is added marks
    /// the object as changed now.
    pub fn add_tag(&mut self, tag: &str)
        ensures
            final(self)@ == old(self)@.with_tag(tag@, final(self)@.updated_at),
            old(self)@.wf() ==> final(self)@.wf(),
    {
        self.add_tag_at(tag, now_millis());
    }

    /// Removes `tag` and says whether the object had it. A tag that is
    /// removed marks the object as changed at `now`.
    pub fn remove_tag_at(&mut self, tag: &str, now: i64) -> (r: bool)
        ensures
            r == old(self)@.tags.contains(tag@),
            final(self)@ == old(self)@.without_tag(tag@, now),
            old(self)@.wf() ==> final(self)@.wf(),
    {
        let at = position_of_text(&self.tags, tag);
        proof {
            lemma_position(self@.tags, tag@);
            if self@.wf() {
                lemma_without_member_no_duplicates(self@.tags, tag@);
            }
        }
        if at < self.tags.len() {
            self.tags.remove(at);
            self.updated_at = now;
            assert(self@.tags =~= without_member(old(self)@.tags, tag@));
            true
        } else {
            false
        }
    }

    /// Removes `tag` and says whether the object had it. A tag that is
    /// removed marks the object as changed now.
    pub fn remove_tag(&mut self, tag: &str) -> (r: bool)
        ensures
            r == old(self)@.tags.contains(tag@),
            final(self)@ == old(self)@.without_tag(tag@, final(self)@.updated_at),
            old(self)@.wf() ==> final(self)@.wf(),
    {
        self.remove_tag_at(tag, now_millis())
    }

    /// Adds `alias` unless the object has it. Only an alias that is added
    /// marks the object as changed at `now`.
    pub fn add_alias_at(&mut self, alias: &str, now: i64)
        ensures
            final(self)@ == old(self)@.with_alias(alias@, now),
            old(self)@.wf() ==> final(self)@.wf(),
    {
        if !contains_text(&self.aliases, alias) {
            let owned = alias.to_owned();
            proof {
                lemma_views_push(self.aliases@, owned);
                if self@.wf() {
                    lemma_with_member_no_duplicates(self@.aliases, alias@);
                }
            }
            self.aliases.push(owned);
            self.updated_at = now;
        }
    }

    /// Adds `alias` unless the object has it. Only an alias that is added
    /// marks the object as changed now.
    pub fn add_alias(&mut self, alias: &str)
        ensures
            final(self)@ == old(self)@.with_alias(alias@, final(self)@.updated_at),
            old(self)@.wf() ==> final(self)@.wf(),
    {
        self.add_alias_at(alias, now_millis());
    }

    /// Adds a link to `target` unless the object has it. Only a link that
    /// is added marks the object as changed at `now`.
    pub fn add_link_at(&mut self, target: ObjectId, now: i64)
        ensures
            final(self)@ == old(self)@.with_link(target@, now),
            old(self)@.wf() ==> final(self)@.wf(),
    {
        let at = position_of_id(&self.links, &target);
        proof {
            lemma_position(self@.links, target@);
        }
        if at >= self.links.len() {
            proof {
                lemma_views_push(self.links@, target);
                if self@.wf() {
                    lemma_with_member_no_duplicates(self@.links, target@);
                }
            }
            self.links.push(target);
            self.updated_at = now;
        }
    }

    /// Adds a link to `target` unless the object has it. Only a link that
    /// is added marks the object as changed now.
    pub fn add_link(&mut self, target: ObjectId)
        ensures
            final(self)@ == old(self)@.with_link(target@, final(self)@.updated_at),
            old(self)@.wf() ==> final(self)@.wf(),
    {
        self.add_link_at(target, now_millis());
    }

    /// Adds `source` after the sources that the object has and marks the
    /// object as changed at `now`.
    pub fn add_source_at(&mut self, source: SerializationSource, now: i64)
        ensures
            final(self)@ == old(self)@.with_source(source@, now),
            old(self)@.wf() ==> final(self)@.wf(),
    {
        proof {
            lemma_views_push(self.sources@, source);
        }
        self.sources.push(source);
        self.updated_at = now;
    }

    /// Adds `source` after the sources that the object has and marks the
    /// object as changed now.
    pub fn add_source(&mut self, source: SerializationSource)
        ensures
            final(self)@ == old(self)@.with_source(source@, final(self)@.updated_at),
            old(self)@.wf() ==> final(self)@.wf(),
    {
        self.add_source_at(source, now_millis());
    }

    /// The first Markdown source.
    pub fn markdown_source(&self) -> (r: Option<&MarkdownSource>)
        ensures
            match r {
                Some(m) => self@.markdown_source() == Some(m@),
                None => self@.markdown_source() is None,
            },
    {
        let n = self.sources.len();
        let mut i: usize = 0;
        while i < n
            invariant
                i <= n == self.sources@.len(),
                run_to_markdown(self@.sources, 0) == i + run_to_markdown(self@.sources, i as int),
            decreases n - i,
        {
            match &self.sources[i] {
                SerializationSource::Markdown(m) => {
                    return Some(m);
                },
                _ => {},
            }
            i += 1;
        }
        None
    }

    /// The path of the first Markdown source.
    pub fn path(&self) -> (r: Option<&str>)
        ensures
            match r {
                Some(p) => self@.path() == Some(p@),
                None => self@.path() is None,
            },
    {
        match self.markdown_source() {
            Some(m) => Some(m.path.as_str()),
            None => None,
        }
    }

    /// Whether a file backs the object.
    pub fn has_file(&self) -> (r: bool)
        ensures
            r == self@.has_file(),
    {
        let n = self.sources.len();
        let mut i: usize = 0;
        while i < n
            invariant
                i <= n == self.sources@.len(),
                forall|k: int| 0 <= k < i ==> #[trigger] self@.sources[k] is Virtual,
            decreases n - i,
        {
            if !self.sources[i].is_virtual() {
                assert(!(self@.sources[i as int] is Virtual));
                return true;
            }
            i += 1;
        }
        false
    }

    /// Whether no file backs the object: it has no source, or virtual
    /// sources only.
    pub fn is_virtual(&self) -> (r: bool)
        ensures
            r == self@.is_virtual(),
    {
        !self.has_file()
    }

    pub fn tags(&self) -> (r: &Vec<String>)
        ensures
            views(r@) == self@.tags,
    {
        &self.tags
    }

    pub fn aliases(&self) -> (r: &Vec<String>)
        ensures
            views(r@) == self@.aliases,
    {
        &self.aliases
    }

    pub fn properties(&self) -> (r: &PropertyMap)
        ensures
            r@ == self@.properties,
    {
        &self.properties
    }

    pub fn links(&self) -> (r: &Vec<ObjectId>)
        ensures
            views(r@) == self@.links,
    {
        &self.links
    }

    pub fn sources(&self) -> (r: &Vec<SerializationSource>)
        ensures
            views(r@) == self@.sources,
    {
        &self.sources
    }
}

impl Default for CognitiveObject {
    fn default() -> (r: Self)
        ensures
            r@ == CognitiveObjectView::fresh(r@.id, r@.created_at),
            is_random_uuid(r@.id),
    {
        CognitiveObject::new()
    }
}

} // verus!
