//! Format bridges between raw bytes and cognitive objects.
//!
//! An adapter turns the bytes of one file into a cognitive object, writes an
//! object back as bytes, and reports the links that an object's content
//! holds.
use crate::dcom::object::{CognitiveObject, CognitiveObjectView};
use crate::paths::{extension, extension_of};
use crate::seqs::views;
use crate::text::{chars_eq_ignore_ascii_case, eq_ignore_ascii_case, to_chars};
use vstd::prelude::*;

pub mod obsidian;

verus! {

/// How a link refers to its target.
#[derive(Debug, Clone, Copy, PartialEq, Eq, Structural)]
pub enum LinkKind {
    /// `[[target]]`
    WikiLink,
    /// `[[note#^blockid]]`
    BlockReference,
    /// `![[target]]`
    Embed,
    /// `[text](https://...)`
    External,
}

impl LinkKind {
    /// The name of the variant, as written in source code.
    pub open spec fn spec_name(self) -> Seq<char> {
        match self {
            LinkKind::WikiLink => "WikiLink"@,
            LinkKind::BlockReference => "BlockReference"@,
            LinkKind::Embed => "Embed"@,
            LinkKind::External => "External"@,
        }
    }

    /// The name of the variant, as written in source code.
    pub fn name(&self) -> (r: &'static str)
        ensures
            r@ == self.spec_name(),
    {
        match self {
            LinkKind::WikiLink => "WikiLink",
            LinkKind::BlockReference => "BlockReference",
            LinkKind::Embed => "Embed",
            LinkKind::External => "External",
        }
    }
}

/// A link found in the content of an object. It is a transient value: the
/// object does not store it.
#[derive(Debug, Clone)]
pub struct ExtractedLink {
    /// A note name, a path or a URL.
    pub target: String,
    pub kind: LinkKind,
    /// The text shown in place of the target, where the link gives one.
    pub display_text: Option<String>,
    /// The line that holds the link, counted from 1.
    pub line_number: Option<usize>,
}

/// The mathematical value of an [`ExtractedLink`].
pub struct ExtractedLinkView {
    pub target: Seq<char>,
    pub kind: LinkKind,
    pub display_text: Option<Seq<char>>,
    pub line_number: Option<usize>,
}

impl View for ExtractedLink {
    type V = ExtractedLinkView;

    open spec fn view(&self) -> ExtractedLinkView {
        ExtractedLinkView {
            target: self.target@,
            kind: self.kind,
            display_text: match self.display_text {
                Some(text) => Some(text@),
                None => None,
            },
            line_number: self.line_number,
        }
    }
}

impl ExtractedLink {
    /// A link to `target` without display text and line number.
    pub fn new(target: &str, kind: LinkKind) -> (r: Self)
        ensures
            r@ == (ExtractedLinkView {
                target: target@,
                kind,
                display_text: None,
                line_number: None,
            }),
    {
        ExtractedLink { target: target.to_owned(), kind, display_text: None, line_number: None }
    }

    /// The same link with `text` as its display text.
    pub fn with_display_text(self, text: &str) -> (r: Self)
        ensures
            r@ == (ExtractedLinkView { display_text: Some(text@), ..self@ }),
    {
        let mut link = self;
        link.display_text = Some(text.to_owned());
        link
    }

    /// The same link with `line` as its line number.
    pub fn with_line_number(self, line: usize) -> (r: Self)
        ensures
            r@ == (ExtractedLinkView { line_number: Some(line), ..self@ }),
    {
        let mut link = self;
        link.line_number = Some(line);
        link
    }
}

/// Why an adapter could not load or save.
#[derive(Debug, Clone, PartialEq, Eq)]
pub enum AdapterError {
    /// The bytes are not valid text where text is required.
    Decode,
    /// The text has a structural fault from which no reading recovers.
    Parse,
    /// The object lacks the named attribute, without which the output would
    /// be ambiguous.
    MissingAttribute(String),
}

impl AdapterError {
    /// A sentence that says what went wrong.
    pub open spec fn spec_message(&self) -> Seq<char> {
        match self {
            AdapterError::Decode => "the content is not valid UTF-8 text"@,
            AdapterError::Parse => "the content cannot be parsed"@,
            AdapterError::MissingAttribute(name) => "the object has no "@ + name@,
        }
    }

    /// A sentence that says what went wrong.
    pub fn message(&self) -> (r: String)
        ensures
            r@ == self.spec_message(),
    {
        match self {
            AdapterError::Decode => "the content is not valid UTF-8 text".to_owned(),
            AdapterError::Parse => "the content cannot be parsed".to_owned(),
            AdapterError::MissingAttribute(name) => {
                let mut text = crate::text::to_chars("the object has no ");
                crate::text::push_str(&mut text, name.as_str());
                crate::text::from_chars(&text)
            },
        }
    }
}

/// Whether one of `extensions` is `ext`, up to the case of ASCII letters.
pub open spec fn claims(extensions: Seq<Seq<char>>, ext: Seq<char>) -> bool {
    exists|i: int| 0 <= i < extensions.len() && eq_ignore_ascii_case(#[trigger] extensions[i], ext)
}

/// A bridge between one file format and cognitive objects.
///
/// An adapter has no state: what it returns depends on its arguments alone,
/// but for the identity and the timestamps that `load` gives a new object.
pub trait ObjectAdapter {
    /// The file extensions that the adapter handles, without leading dot.
    spec fn extensions(&self) -> Seq<Seq<char>>;

    /// The links that the adapter finds in an object. They depend on the
    /// object alone.
    spec fn links_of(&self, object: CognitiveObjectView) -> Seq<ExtractedLinkView>;

    /// Whether the adapter can load the bytes `content` as the file at
    /// `path`. That depends on path and bytes alone.
    spec fn accepts(&self, path: Seq<char>, content: Seq<u8>) -> bool;

    /// Whether `object` is among the objects that the adapter gives for the
    /// bytes `content` of the file at `path`. They differ in what the moment
    /// of loading decides: their identity and their timestamps.
    spec fn produces(&self, path: Seq<char>, content: Seq<u8>, object: CognitiveObjectView) -> bool;

    /// The bytes that the adapter writes for an object; nothing where it
    /// refuses the object. They depend on the object alone.
    spec fn written(&self, object: CognitiveObjectView) -> Option<Seq<u8>>;

    /// The file extensions that the adapter handles, without leading dot.
    fn supported_extensions(&self) -> (r: Vec<String>)
        ensures
            views(r@) == self.extensions(),
    ;

    /// Reads the bytes of the file at `path`, a path relative to the vault,
    /// into a new object.
    fn load(&self, path: &str, content: &[u8]) -> (r: Result<CognitiveObject, AdapterError>)
        ensures
            r is Ok <==> self.accepts(path@, content@),
            r matches Ok(object) ==> self.produces(path@, content@, object@),
    ;

    /// Writes `object` in the format of the adapter.
    fn save(&self, object: &CognitiveObject) -> (r: Result<Vec<u8>, AdapterError>)
        ensures
            match r {
                Ok(bytes) => self.written(object@) == Some(bytes@),
                Err(_) => self.written(object@) is None,
            },
    ;

    /// The links in the content of `object`.
    fn extract_links(&self, object: &CognitiveObject) -> (r: Vec<ExtractedLink>)
        ensures
            views(r@) == self.links_of(object@),
    ;

    /// Whether the adapter handles files with the extension `ext`. Case
    /// does not matter.
    fn supports(&self, ext: &str) -> (r: bool)
        ensures
            r == claims(self.extensions(), ext@),
    {
        let extensions = self.supported_extensions();
        let wanted = to_chars(ext);
        let mut i: usize = 0;
        while i < extensions.len()
            invariant
                i <= extensions@.len(),
                wanted@ == ext@,
                views(extensions@) == self.extensions(),
                forall|k: int|
                    0 <= k < i ==> !eq_ignore_ascii_case(#[trigger] self.extensions()[k], ext@),
            decreases extensions@.len() - i,
        {
            let candidate = to_chars(extensions[i].as_str());
            assert(views(extensions@)[i as int] == extensions@[i as int]@);
            if chars_eq_ignore_ascii_case(&candidate, &wanted) {
                return true;
            }
            i += 1;
        }
        false
    }
}

/// Number of adapters from index `from` up to the first that claims `ext`,
/// or up to the end of `adapters` when none does.
pub open spec fn run_to_claiming<A: ObjectAdapter>(
    adapters: Seq<A>,
    ext: Seq<char>,
    from: int,
) -> nat
    decreases adapters.len() - from,
{
    if from < 0 || from >= adapters.len() || claims(adapters[from].extensions(), ext) {
        0
    } else {
        1 + run_to_claiming(adapters, ext, from + 1)
    }
}

/// Index of the first adapter that claims `ext`, or the number of adapters
/// when none does.
pub open spec fn first_claiming<A: ObjectAdapter>(adapters: Seq<A>, ext: Seq<char>) -> int {
    run_to_claiming(adapters, ext, 0) as int
}

/// The adapters of a vault, in the order in which they were registered.
/// For an extension that several adapters claim, the first one registered
/// answers.
///
/// All adapters of a registry have one type. A vault with several formats
/// takes an enum of its adapters that implements [`ObjectAdapter`].
pub struct AdapterRegistry<A: ObjectAdapter> {
    pub adapters: Vec<A>,
}

impl<A: ObjectAdapter> AdapterRegistry<A> {
    /// Index of the adapter that answers for `ext`, if one does.
    pub open spec fn spec_find(&self, ext: Seq<char>) -> Option<int> {
        let at = first_claiming(self.adapters@, ext);
        if at < self.adapters@.len() {
            Some(at)
        } else {
            None
        }
    }

    /// Index of the adapter that answers for the file at `path`, if one
    /// does.
    pub open spec fn spec_find_for_path(&self, path: Seq<char>) -> Option<int> {
        match extension(path) {
            Some(ext) => self.spec_find(ext),
            None => None,
        }
    }

    /// A registry without adapters.
    pub fn new() -> (r: Self)
        ensures
            r.adapters@.len() == 0,
    {
        AdapterRegistry { adapters: Vec::new() }
    }

    /// Adds `adapter` after the adapters that are registered.
    pub fn register(&mut self, adapter: A)
        ensures
            final(self).adapters@ == old(self).adapters@.push(adapter),
    {
        self.adapters.push(adapter);
    }

    /// Index of the adapter that answers for `ext`, if one does.
    pub fn find_index(&self, ext: &str) -> (r: Option<usize>)
        ensures
            match r {
                Some(at) => self.spec_find(ext@) == Some(at as int),
                None => self.spec_find(ext@) is None,
            },
    {
        let n = self.adapters.len();
        let mut i: usize = 0;
        while i < n
            invariant
                i <= n == self.adapters@.len(),
                first_claiming(self.adapters@, ext@) == i + run_to_claiming(
                    self.adapters@,
                    ext@,
                    i as int,
                ),
            decreases n - i,
        {
            if self.adapters[i].supports(ext) {
                return Some(i);
            }
            i += 1;
        }
        None
    }

    /// Index of the adapter that answers for the file at `path`, if one
    /// does.
    pub fn find_index_for_path(&self, path: &str) -> (r: Option<usize>)
        ensures
            match r {
                Some(at) => self.spec_find_for_path(path@) == Some(at as int),
                None => self.spec_find_for_path(path@) is None,
            },
    {
        match extension_of(path) {
            Some(ext) => self.find_index(ext.as_str()),
            None => None,
        }
    }

    /// The adapter that answers for `ext`: the first registered adapter
    /// that handles the extension.
    pub fn find_adapter(&self, ext: &str) -> (r: Option<&A>)
        ensures
            match r {
                Some(adapter) => self.spec_find(ext@) is Some && *adapter
                    == self.adapters@[self.spec_find(ext@)->0],
                None => self.spec_find(ext@) is None,
            },
    {
        match self.find_index(ext) {
            Some(at) => Some(&self.adapters[at]),
            None => None,
        }
    }

    /// The adapter that answers for the file at `path`, by the extension
    /// of the path.
    pub fn find_adapter_for_path(&self, path: &str) -> (r: Option<&A>)
        ensures
            match r {
                Some(adapter) => self.spec_find_for_path(path@) is Some && *adapter
                    == self.adapters@[self.spec_find_for_path(path@)->0],
                None => self.spec_find_for_path(path@) is None,
            },
    {
        match self.find_index_for_path(path) {
            Some(at) => Some(&self.adapters[at]),
            None => None,
        }
    }
}

impl Default for AdapterRegistry<obsidian::ObsidianAdapter> {
    /// The registry with the Obsidian adapter.
    fn default() -> (r: Self)
        ensures
            r.adapters@ == seq![obsidian::ObsidianAdapter],
    {
        let mut registry = AdapterRegistry::new();
        registry.register(obsidian::ObsidianAdapter::new());
        assert(registry.adapters@ =~= seq![obsidian::ObsidianAdapter]);
        registry
    }
}

} // verus!
