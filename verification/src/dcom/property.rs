//! The schema-less property store.
//!
//! Any object may carry any number of named properties. A property value is
//! one of a closed set of variants; a value of one variant is never read as
//! another.
use crate::seqs::{lemma_position, lemma_views_push, position, run_to, views};
use crate::text::str_eq;
use vstd::prelude::*;

verus! {

/// The value of a property.
#[derive(Debug, PartialEq)]
pub enum PropertyValue {
    Null,
    String(String),
    /// A 64-bit signed integer.
    Integer(i64),
    /// A 64-bit floating-point number, held as its shortest decimal text
    /// that reads back as the same number.
    Float(String),
    Boolean(bool),
    /// A date and time in ISO 8601 form.
    DateTime(String),
    /// The identity of another object.
    Reference(String),
    /// An ordered list of values of any variants.
    List(Vec<PropertyValue>),
    /// Any structured value that no other variant can hold, as compact JSON
    /// text.
    Json(String),
}

/// The mathematical value of a [`PropertyValue`].
pub enum PropertyModel {
    Null,
    String(Seq<char>),
    Integer(i64),
    Float(Seq<char>),
    Boolean(bool),
    DateTime(Seq<char>),
    Reference(Seq<char>),
    List(Seq<PropertyModel>),
    Json(Seq<char>),
}

impl View for PropertyValue {
    type V = PropertyModel;

    open spec fn view(&self) -> PropertyModel
        decreases self,
    {
        match self {
            PropertyValue::Null => PropertyModel::Null,
            PropertyValue::String(s) => PropertyModel::String(s@),
            PropertyValue::Integer(i) => PropertyModel::Integer(*i),
            PropertyValue::Float(f) => PropertyModel::Float(f@),
            PropertyValue::Boolean(b) => PropertyModel::Boolean(*b),
            PropertyValue::DateTime(d) => PropertyModel::DateTime(d@),
            PropertyValue::Reference(r) => PropertyModel::Reference(r@),
            PropertyValue::List(items) => PropertyModel::List(property_models(items@)),
            PropertyValue::Json(j) => PropertyModel::Json(j@),
        }
    }
}

/// The values of the items of a list, in order.
pub open spec fn property_models(items: Seq<PropertyValue>) -> Seq<PropertyModel>
    decreases items,
{
    if items.len() == 0 {
        Seq::empty()
    } else {
        property_models(items.drop_last()).push(items.last().view())
    }
}

/// `property_models` takes the view of every item.
pub proof fn lemma_property_models(items: Seq<PropertyValue>)
    ensures
        property_models(items) == views(items),
    decreases items.len(),
{
    if items.len() > 0 {
        lemma_property_models(items.drop_last());
        assert(views(items) =~= views(items.drop_last()).push(items.last()@));
    } else {
        assert(views(items) =~= Seq::empty());
    }
}

/// The list of string values that holds `items`, in order.
pub open spec fn string_list_model(items: Seq<Seq<char>>) -> PropertyModel {
    PropertyModel::List(Seq::new(items.len(), |i: int| PropertyModel::String(items[i])))
}

impl PropertyValue {
    pub fn string(s: &str) -> (r: Self)
        ensures
            r@ == PropertyModel::String(s@),
    {
        PropertyValue::String(s.to_owned())
    }

    pub fn integer(i: i64) -> (r: Self)
        ensures
            r@ == PropertyModel::Integer(i),
    {
        PropertyValue::Integer(i)
    }

    /// A floating-point value, given as decimal text.
    pub fn float_text(text: &str) -> (r: Self)
        ensures
            r@ == PropertyModel::Float(text@),
    {
        PropertyValue::Float(text.to_owned())
    }

    pub fn boolean(b: bool) -> (r: Self)
        ensures
            r@ == PropertyModel::Boolean(b),
    {
        PropertyValue::Boolean(b)
    }

    pub fn reference(id: &str) -> (r: Self)
        ensures
            r@ == PropertyModel::Reference(id@),
    {
        PropertyValue::Reference(id.to_owned())
    }

    /// A list of string values.
    pub fn string_list(items: Vec<String>) -> (r: Self)
        ensures
            r@ == string_list_model(views(items@)),
    {
        let mut values: Vec<PropertyValue> = Vec::new();
        let mut i: usize = 0;
        while i < items.len()
            invariant
                i <= items@.len(),
                values@.len() == i,
                forall|k: int| 0 <= k < i ==> (#[trigger] values@[k])@ == PropertyModel::String(items@[k]@),
            decreases items@.len() - i,
        {
            values.push(PropertyValue::String(items[i].clone()));
            i += 1;
        }
        proof {
            lemma_list_view(values);
            assert(views(values@) =~= string_list_model(views(items@))->List_0);
        }
        PropertyValue::List(values)
    }

    /// The text of a `String` value.
    pub fn as_string(&self) -> (r: Option<&str>)
        ensures
            match r {
                Some(s) => self@ == PropertyModel::String(s@),
                None => !(self@ is String),
            },
    {
        match self {
            PropertyValue::String(s) => Some(s.as_str()),
            _ => None,
        }
    }

    /// The number of an `Integer` value.
    pub fn as_integer(&self) -> (r: Option<i64>)
        ensures
            match r {
                Some(i) => self@ == PropertyModel::Integer(i),
                None => !(self@ is Integer),
            },
    {
        match self {
            PropertyValue::Integer(i) => Some(*i),
            _ => None,
        }
    }

    /// The decimal text of a `Float` value.
    pub fn as_float_text(&self) -> (r: Option<&str>)
        ensures
            match r {
                Some(f) => self@ == PropertyModel::Float(f@),
                None => !(self@ is Float),
            },
    {
        match self {
            PropertyValue::Float(f) => Some(f.as_str()),
            _ => None,
        }
    }

    /// The truth value of a `Boolean` value.
    pub fn as_boolean(&self) -> (r: Option<bool>)
        ensures
            match r {
                Some(b) => self@ == PropertyModel::Boolean(b),
                None => !(self@ is Boolean),
            },
    {
        match self {
            PropertyValue::Boolean(b) => Some(*b),
            _ => None,
        }
    }

    /// The identity that a `Reference` value names.
    pub fn as_reference(&self) -> (r: Option<&str>)
        ensures
            match r {
                Some(id) => self@ == PropertyModel::Reference(id@),
                None => !(self@ is Reference),
            },
    {
        match self {
            PropertyValue::Reference(id) => Some(id.as_str()),
            _ => None,
        }
    }

    pub fn is_null(&self) -> (r: bool)
        ensures
            r == (self@ is Null),
    {
        match self {
            PropertyValue::Null => true,
            _ => false,
        }
    }

    /// A copy with the same value.
    pub fn duplicate(&self) -> (r: Self)
        ensures
            r@ == self@,
        decreases self,
    {
        match self {
            PropertyValue::Null => PropertyValue::Null,
            PropertyValue::String(s) => PropertyValue::String(s.clone()),
            PropertyValue::Integer(i) => PropertyValue::Integer(*i),
            PropertyValue::Float(f) => PropertyValue::Float(f.clone()),
            PropertyValue::Boolean(b) => PropertyValue::Boolean(*b),
            PropertyValue::DateTime(d) => PropertyValue::DateTime(d.clone()),
            PropertyValue::Reference(r) => PropertyValue::Reference(r.clone()),
            PropertyValue::List(items) => {
                let values = duplicate_all(items);
                proof {
                    lemma_list_view(values);
                    lemma_list_view(*items);
                }
                PropertyValue::List(values)
            },
            PropertyValue::Json(j) => PropertyValue::Json(j.clone()),
        }
    }
}

/// Copies of the values in `items`, in order.
pub fn duplicate_all(items: &Vec<PropertyValue>) -> (r: Vec<PropertyValue>)
    ensures
        views(r@) == views(items@),
    decreases items,
{
    let mut values: Vec<PropertyValue> = Vec::new();
    let mut i: usize = 0;
    while i < items.len()
        invariant
            i <= items@.len(),
            values@.len() == i,
            forall|k: int| 0 <= k < i ==> (#[trigger] values@[k])@ == items@[k]@,
        decreases items@.len() - i,
    {
        values.push(items[i].duplicate());
        i += 1;
    }
    assert(views(values@) =~= views(items@));
    values
}

impl Clone for PropertyValue {
    fn clone(&self) -> (r: Self)
        ensures
            r@ == self@,
    {
        self.duplicate()
    }
}

impl Default for PropertyValue {
    fn default() -> (r: Self)
        ensures
            r@ == PropertyModel::Null,
    {
        PropertyValue::Null
    }
}

/// A named property.
#[derive(Debug, Clone, PartialEq)]
pub struct Property {
    pub name: String,
    pub value: PropertyValue,
}

impl View for Property {
    type V = (Seq<char>, PropertyModel);

    open spec fn view(&self) -> (Seq<char>, PropertyModel) {
        (self.name@, self.value@)
    }
}

impl Property {
    pub fn new(name: &str, value: PropertyValue) -> (r: Self)
        ensures
            r@ == (name@, value@),
    {
        Property { name: name.to_owned(), value }
    }
}

/// A list value holds the values of its items, in order.
pub proof fn lemma_list_view(items: Vec<PropertyValue>)
    ensures
        PropertyValue::List(items)@ == PropertyModel::List(views(items@)),
{
    lemma_property_models(items@);
}

/// The conversion makes a new string, which a specification cannot name:
/// what `from` returns is stated on `from` itself.
impl vstd::std_specs::convert::FromSpecImpl<&str> for PropertyValue {
    open spec fn obeys_from_spec() -> bool {
        false
    }

    open spec fn from_spec(s: &str) -> PropertyValue {
        PropertyValue::Null
    }
}

impl From<&str> for PropertyValue {
    fn from(s: &str) -> (r: Self)
        ensures
            r@ == PropertyModel::String(s@),
    {
        PropertyValue::String(s.to_owned())
    }
}

/// The conversion wraps its argument.
impl vstd::std_specs::convert::FromSpecImpl<String> for PropertyValue {
    open spec fn obeys_from_spec() -> bool {
        true
    }

    open spec fn from_spec(s: String) -> PropertyValue {
        PropertyValue::String(s)
    }
}

impl From<String> for PropertyValue {
    fn from(s: String) -> (r: Self)
        ensures
            r@ == PropertyModel::String(s@),
    {
        PropertyValue::String(s)
    }
}

/// The conversion wraps its argument.
impl vstd::std_specs::convert::FromSpecImpl<i64> for PropertyValue {
    open spec fn obeys_from_spec() -> bool {
        true
    }

    open spec fn from_spec(i: i64) -> PropertyValue {
        PropertyValue::Integer(i)
    }
}

impl From<i64> for PropertyValue {
    fn from(i: i64) -> (r: Self)
        ensures
            r@ == PropertyModel::Integer(i),
    {
        PropertyValue::Integer(i)
    }
}

/// The conversion wraps its argument.
impl vstd::std_specs::convert::FromSpecImpl<bool> for PropertyValue {
    open spec fn obeys_from_spec() -> bool {
        true
    }

    open spec fn from_spec(b: bool) -> PropertyValue {
        PropertyValue::Boolean(b)
    }
}

impl From<bool> for PropertyValue {
    fn from(b: bool) -> (r: Self)
        ensures
            r@ == PropertyModel::Boolean(b),
    {
        PropertyValue::Boolean(b)
    }
}

/// The conversion makes a new string, which a specification cannot name:
/// what `from` returns is stated on `from` itself.
impl vstd::std_specs::convert::FromSpecImpl<Vec<String>> for PropertyValue {
    open spec fn obeys_from_spec() -> bool {
        false
    }

    open spec fn from_spec(items: Vec<String>) -> PropertyValue {
        PropertyValue::Null
    }
}

impl From<Vec<String>> for PropertyValue {
    fn from(items: Vec<String>) -> (r: Self)
        ensures
            r@ == string_list_model(views(items@)),
    {
        PropertyValue::string_list(items)
    }
}

/// What a number of a structured document can be read as.
#[derive(Debug, Clone, PartialEq)]
pub struct NumberValue {
    /// The number as a 64-bit signed integer, where it is one exactly.
    pub integer: Option<i64>,
    /// The number as a 64-bit floating-point number, in decimal text, where
    /// it can be read as one.
    pub float: Option<String>,
    /// The number as the document's own format prints it.
    pub text: String,
}

/// One key of a mapping with its value.
#[derive(Debug, PartialEq)]
pub struct MappingEntry {
    pub key: StructuredValue,
    pub value: StructuredValue,
}

/// A mapping of a structured document.
#[derive(Debug, PartialEq)]
pub struct MappingValue {
    /// The entries, in the order of the document.
    pub entries: Vec<MappingEntry>,
    /// The mapping as compact JSON text, where JSON can express it.
    pub json: Option<String>,
}

/// A value of a structured document, such as JSON or YAML.
#[derive(Debug, PartialEq)]
pub enum StructuredValue {
    Null,
    Bool(bool),
    Number(NumberValue),
    String(String),
    Sequence(Vec<StructuredValue>),
    Mapping(MappingValue),
    /// A value under a YAML tag.
    Tagged,
}

/// The mathematical value of a [`NumberValue`].
pub struct NumberModel {
    pub integer: Option<i64>,
    pub float: Option<Seq<char>>,
    pub text: Seq<char>,
}

/// The mathematical value of a [`StructuredValue`].
pub enum StructuredModel {
    Null,
    Bool(bool),
    Number(NumberModel),
    String(Seq<char>),
    Sequence(Seq<StructuredModel>),
    Mapping { entries: Seq<(StructuredModel, StructuredModel)>, json: Option<Seq<char>> },
    Tagged,
}

impl View for NumberValue {
    type V = NumberModel;

    open spec fn view(&self) -> NumberModel {
        NumberModel {
            integer: self.integer,
            float: match self.float {
                Some(text) => Some(text@),
                None => None,
            },
            text: self.text@,
        }
    }
}

impl View for StructuredValue {
    type V = StructuredModel;

    open spec fn view(&self) -> StructuredModel
        decreases self,
    {
        match self {
            StructuredValue::Null => StructuredModel::Null,
            StructuredValue::Bool(b) => StructuredModel::Bool(*b),
            StructuredValue::Number(n) => StructuredModel::Number(n@),
            StructuredValue::String(s) => StructuredModel::String(s@),
            StructuredValue::Sequence(items) => StructuredModel::Sequence(
                structured_models(items@),
            ),
            StructuredValue::Mapping(mapping) => StructuredModel::Mapping {
                entries: entry_models(mapping.entries@),
                json: match mapping.json {
                    Some(text) => Some(text@),
                    None => None,
                },
            },
            StructuredValue::Tagged => StructuredModel::Tagged,
        }
    }
}

/// The values of the items of a sequence, in order.
pub open spec fn structured_models(items: Seq<StructuredValue>) -> Seq<StructuredModel>
    decreases items,
{
    if items.len() == 0 {
        Seq::empty()
    } else {
        structured_models(items.drop_last()).push(items.last().view())
    }
}

/// The keys and values of the entries of a mapping, in order.
pub open spec fn entry_models(entries: Seq<MappingEntry>) -> Seq<(StructuredModel, StructuredModel)>
    decreases entries,
{
    if entries.len() == 0 {
        Seq::empty()
    } else {
        entry_models(entries.drop_last()).push(
            (entries.last().key.view(), entries.last().value.view()),
        )
    }
}

impl View for MappingEntry {
    type V = (StructuredModel, StructuredModel);

    open spec fn view(&self) -> (StructuredModel, StructuredModel) {
        (self.key@, self.value@)
    }
}

/// `structured_models` takes the view of every item.
pub proof fn lemma_structured_models(items: Seq<StructuredValue>)
    ensures
        structured_models(items) == views(items),
    decreases items.len(),
{
    if items.len() > 0 {
        lemma_structured_models(items.drop_last());
        assert(views(items) =~= views(items.drop_last()).push(items.last()@));
    } else {
        assert(views(items) =~= Seq::empty());
    }
}

/// `entry_models` takes the view of every entry.
pub proof fn lemma_entry_models(entries: Seq<MappingEntry>)
    ensures
        entry_models(entries) == views(entries),
    decreases entries.len(),
{
    if entries.len() > 0 {
        lemma_entry_models(entries.drop_last());
        assert(views(entries) =~= views(entries.drop_last()).push(entries.last()@));
    } else {
        assert(views(entries) =~= Seq::empty());
    }
}

/// A sequence holds the values of its items, in order.
pub proof fn lemma_sequence_view(items: Vec<StructuredValue>)
    ensures
        StructuredValue::Sequence(items)@ == StructuredModel::Sequence(views(items@)),
{
    lemma_structured_models(items@);
}

/// The property value that stands for a structured value: null, truth
/// values and strings as they are; a number as an integer where it is one,
/// else as a float; a sequence as the list of its converted items; a mapping
/// as its JSON text, or null where it has none; a tagged value as null.
pub open spec fn property_of(value: StructuredModel) -> PropertyModel
    decreases value,
{
    match value {
        StructuredModel::Null => PropertyModel::Null,
        StructuredModel::Bool(b) => PropertyModel::Boolean(b),
        StructuredModel::Number(n) => match n.integer {
            Some(i) => PropertyModel::Integer(i),
            None => match n.float {
                Some(text) => PropertyModel::Float(text),
                None => PropertyModel::Null,
            },
        },
        StructuredModel::String(s) => PropertyModel::String(s),
        StructuredModel::Sequence(items) => PropertyModel::List(properties_of(items)),
        StructuredModel::Mapping { entries, json } => match json {
            Some(text) => PropertyModel::Json(text),
            None => PropertyModel::Null,
        },
        StructuredModel::Tagged => PropertyModel::Null,
    }
}

/// The property values that stand for the structured values in `items`.
pub open spec fn properties_of(items: Seq<StructuredModel>) -> Seq<PropertyModel>
    decreases items,
{
    if items.len() == 0 {
        Seq::empty()
    } else {
        properties_of(items.drop_last()).push(property_of(items.last()))
    }
}

/// `properties_of` converts every item.
pub proof fn lemma_properties_of(items: Seq<StructuredModel>)
    ensures
        properties_of(items).len() == items.len(),
        forall|i: int| 0 <= i < items.len() ==> #[trigger] properties_of(items)[i] == property_of(
            items[i],
        ),
    decreases items.len(),
{
    if items.len() > 0 {
        lemma_properties_of(items.drop_last());
    }
}

impl PropertyValue {
    /// Builds a property value from a structured value; see [`property_of`].
    pub fn from_structured(value: &StructuredValue) -> (r: PropertyValue)
        ensures
            r@ == property_of(value@),
        decreases value,
    {
        match value {
            StructuredValue::Null => PropertyValue::Null,
            StructuredValue::Bool(b) => PropertyValue::Boolean(*b),
            StructuredValue::Number(n) => match n.integer {
                Some(i) => PropertyValue::Integer(i),
                None => match &n.float {
                    Some(text) => PropertyValue::Float(text.clone()),
                    None => PropertyValue::Null,
                },
            },
            StructuredValue::String(s) => PropertyValue::String(s.clone()),
            StructuredValue::Sequence(items) => {
                let values = from_structured_all(items);
                proof {
                    lemma_sequence_view(*items);
                    lemma_list_view(values);
                    lemma_properties_of(views(items@));
                    assert(views(values@) =~= properties_of(views(items@)));
                }
                PropertyValue::List(values)
            },
            StructuredValue::Mapping(mapping) => match &mapping.json {
                Some(text) => PropertyValue::Json(text.clone()),
                None => PropertyValue::Null,
            },
            StructuredValue::Tagged => PropertyValue::Null,
        }
    }
}

/// The property values of the structured values in `items`, in order.
pub fn from_structured_all(items: &Vec<StructuredValue>) -> (r: Vec<PropertyValue>)
    ensures
        r@.len() == items@.len(),
        forall|k: int| 0 <= k < items@.len() ==> (#[trigger] r@[k])@ == property_of(items@[k]@),
    decreases items,
{
    let mut values: Vec<PropertyValue> = Vec::new();
    let mut i: usize = 0;
    while i < items.len()
        invariant
            i <= items@.len(),
            values@.len() == i,
            forall|k: int| 0 <= k < i ==> (#[trigger] values@[k])@ == property_of(items@[k]@),
        decreases items@.len() - i,
    {
        values.push(PropertyValue::from_structured(&items[i]));
        i += 1;
    }
    values
}

/// The names of the entries of a property store, in order.
pub open spec fn names(entries: Seq<(Seq<char>, PropertyModel)>) -> Seq<Seq<char>> {
    Seq::new(entries.len(), |i: int| entries[i].0)
}

/// The value of the first entry named `name`.
pub open spec fn lookup(entries: Seq<(Seq<char>, PropertyModel)>, name: Seq<char>) -> Option<
    PropertyModel,
> {
    let at = position(names(entries), name);
    if at < entries.len() {
        Some(entries[at].1)
    } else {
        None
    }
}

/// `entries` with `value` under `name`: in place of the first entry of that
/// name, or at the end where there is none.
pub open spec fn with_entry(
    entries: Seq<(Seq<char>, PropertyModel)>,
    name: Seq<char>,
    value: PropertyModel,
) -> Seq<(Seq<char>, PropertyModel)> {
    let at = position(names(entries), name);
    if at < entries.len() {
        entries.update(at, (name, value))
    } else {
        entries.push((name, value))
    }
}

/// `entries` without the first entry named `name`.
pub open spec fn without_entry(entries: Seq<(Seq<char>, PropertyModel)>, name: Seq<char>) -> Seq<
    (Seq<char>, PropertyModel),
> {
    let at = position(names(entries), name);
    if at < entries.len() {
        entries.remove(at)
    } else {
        entries
    }
}

/// No two entries have the same name.
pub open spec fn unique_names(entries: Seq<(Seq<char>, PropertyModel)>) -> bool {
    names(entries).no_duplicates()
}

/// After `with_entry`, `name` has the new value and every other name the
/// value it had; unique names stay unique.
pub proof fn lemma_with_entry(
    entries: Seq<(Seq<char>, PropertyModel)>,
    name: Seq<char>,
    value: PropertyModel,
    other: Seq<char>,
)
    ensures
        lookup(with_entry(entries, name, value), name) == Some(value),
        other != name ==> lookup(with_entry(entries, name, value), other) == lookup(entries, other),
        unique_names(entries) ==> unique_names(with_entry(entries, name, value)),
{
    let after = with_entry(entries, name, value);
    let at = position(names(entries), name);
    lemma_position(names(entries), name);
    lemma_position(names(after), name);
    lemma_position(names(entries), other);
    lemma_position(names(after), other);
    if at < entries.len() {
        assert(names(after) =~= names(entries));
    } else {
        assert(names(after) =~= names(entries).push(name));
        assert(names(after)[entries.len() as int] == name);
        if other != name {
            let p = position(names(entries), other);
            let q = position(names(after), other);
            if p < entries.len() {
                assert(names(after)[p] == other);
            }
            if q < after.len() {
                assert(q < entries.len());
                assert(names(entries)[q] == other);
            }
        }
    }
}

/// After `without_entry` of a store with unique names, `name` has no value
/// and every other name the value it had.
pub proof fn lemma_without_entry(
    entries: Seq<(Seq<char>, PropertyModel)>,
    name: Seq<char>,
    other: Seq<char>,
)
    requires
        unique_names(entries),
    ensures
        lookup(without_entry(entries, name), name) is None,
        other != name ==> lookup(without_entry(entries, name), other) == lookup(entries, other),
        unique_names(without_entry(entries, name)),
{
    let after = without_entry(entries, name);
    let at = position(names(entries), name);
    lemma_position(names(entries), name);
    lemma_position(names(after), name);
    lemma_position(names(entries), other);
    lemma_position(names(after), other);
    if at < entries.len() {
        assert(names(after) =~= names(entries).remove(at));
        let before = names(entries);
        let n = names(after);
        assert forall|i: int| 0 <= i < n.len() implies n[i] == before[if i < at {
            i
        } else {
            i + 1
        }] by {}
        if n.contains(name) {
            let i = choose|i: int| 0 <= i < n.len() && n[i] == name;
            assert(before[if i < at { i } else { i + 1 }] == name);
        }
        if other != name {
            let p = position(before, other);
            let q = position(n, other);
            if p < before.len() {
                let p2 = if p < at { p } else { p - 1 };
                assert(n[p2] == other);
                assert(q <= p2);
                assert(before[if q < at { q } else { q + 1 }] == other);
            }
            if q < n.len() {
                let q2 = if q < at { q } else { q + 1 };
                assert(before[q2] == other);
                assert(p <= q2);
                if p < q2 {
                    let p2 = if p < at { p } else { p - 1 };
                    assert(n[p2] == other);
                }
            }
        }
    }
}

/// The properties of an object: named values, each name at most once, in
/// the order in which the names were first set.
#[derive(Debug, Clone, PartialEq)]
pub struct PropertyMap {
    pub entries: Vec<Property>,
}

impl View for PropertyMap {
    type V = Seq<(Seq<char>, PropertyModel)>;

    open spec fn view(&self) -> Seq<(Seq<char>, PropertyModel)> {
        views(self.entries@)
    }
}

impl PropertyMap {
    /// No two entries have the same name.
    pub open spec fn wf(&self) -> bool {
        unique_names(self@)
    }

    /// The value under `name`.
    pub open spec fn spec_get(&self, name: Seq<char>) -> Option<PropertyModel> {
        lookup(self@, name)
    }

    /// The entries, in the order in which their names were first set.
    pub fn entries(&self) -> (r: &Vec<Property>)
        ensures
            views(r@) == self@,
    {
        &self.entries
    }

    pub fn new() -> (r: Self)
        ensures
            r@ == Seq::<(Seq<char>, PropertyModel)>::empty(),
            r.wf(),
    {
        let r = PropertyMap { entries: Vec::new() };
        assert(r@ =~= Seq::empty());
        r
    }

    pub fn len(&self) -> (r: usize)
        ensures
            r == self@.len(),
    {
        self.entries.len()
    }

    pub fn is_empty(&self) -> (r: bool)
        ensures
            r == (self@.len() == 0),
    {
        self.entries.len() == 0
    }

    /// Index of the first entry named `name`, or the number of entries.
    pub fn position_of(&self, name: &str) -> (r: usize)
        ensures
            r == position(names(self@), name@),
            r <= self@.len(),
    {
        let n = self.entries.len();
        let mut i: usize = 0;
        while i < n && !str_eq(self.entries[i].name.as_str(), name)
            invariant
                i <= n == self.entries@.len(),
                run_to(names(self@), name@, 0) == i + run_to(names(self@), name@, i as int),
            decreases n - i,
        {
            i += 1;
        }
        i
    }

    /// The value under `name`.
    pub fn get(&self, name: &str) -> (r: Option<&PropertyValue>)
        ensures
            match r {
                Some(value) => self.spec_get(name@) == Some(value@),
                None => self.spec_get(name@) is None,
            },
    {
        let at = self.position_of(name);
        if at < self.entries.len() {
            Some(&self.entries[at].value)
        } else {
            None
        }
    }

    pub fn contains_key(&self, name: &str) -> (r: bool)
        ensures
            r == self.spec_get(name@) is Some,
    {
        let at = self.position_of(name);
        at < self.entries.len()
    }

    /// Puts `value` under `name`, in place of the value that was there.
    pub fn insert(&mut self, name: &str, value: PropertyValue)
        ensures
            final(self)@ == with_entry(old(self)@, name@, value@),
    {
        let at = self.position_of(name);
        let entry = Property::new(name, value);
        if at < self.entries.len() {
            self.entries.set(at, entry);
            assert(self@ =~= with_entry(old(self)@, name@, value@));
        } else {
            proof {
                lemma_views_push(self.entries@, entry);
            }
            self.entries.push(entry);
        }
    }

    /// Takes the value under `name` out of the store.
    pub fn remove(&mut self, name: &str) -> (r: Option<PropertyValue>)
        ensures
            final(self)@ == without_entry(old(self)@, name@),
            match r {
                Some(value) => old(self).spec_get(name@) == Some(value@),
                None => old(self).spec_get(name@) is None,
            },
    {
        let at = self.position_of(name);
        if at < self.entries.len() {
            let entry = self.entries.remove(at);
            assert(self@ =~= without_entry(old(self)@, name@));
            Some(entry.value)
        } else {
            None
        }
    }
}

} // verus!
