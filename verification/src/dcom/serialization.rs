//! The physical representations of a cognitive object.
//!
//! An object may be backed by a text file, by a binary file, by a rule that
//! computes it, or by several of these at once.
use crate::text::str_eq;
use vstd::prelude::*;

verus! {

/// A Markdown file that backs an object.
#[derive(Debug, Clone, PartialEq)]
pub struct MarkdownSource {
    /// Path of the file, relative to the vault.
    pub path: String,
    /// Fingerprint of the content, for change detection.
    pub content_hash: String,
    /// Time of the last modification, in seconds since the Unix epoch.
    pub last_modified: i64,
}

/// The mathematical value of a [`MarkdownSource`].
pub struct MarkdownSourceView {
    pub path: Seq<char>,
    pub content_hash: Seq<char>,
    pub last_modified: i64,
}

impl View for MarkdownSource {
    type V = MarkdownSourceView;

    open spec fn view(&self) -> MarkdownSourceView {
        MarkdownSourceView {
            path: self.path@,
            content_hash: self.content_hash@,
            last_modified: self.last_modified,
        }
    }
}

impl MarkdownSource {
    pub fn new(path: &str, content_hash: &str, last_modified: i64) -> (r: Self)
        ensures
            r@ == (MarkdownSourceView {
                path: path@,
                content_hash: content_hash@,
                last_modified,
            }),
    {
        MarkdownSource {
            path: path.to_owned(),
            content_hash: content_hash.to_owned(),
            last_modified,
        }
    }

    /// Whether `new_hash` differs from the fingerprint on record.
    pub fn has_changed(&self, new_hash: &str) -> (r: bool)
        ensures
            r == (self@.content_hash != new_hash@),
    {
        !str_eq(self.content_hash.as_str(), new_hash)
    }
}

/// A binary file (a PDF, an image, a recording) that backs an object.
#[derive(Debug, Clone, PartialEq)]
pub struct BinarySource {
    /// Path of the file, relative to the vault.
    pub path: String,
    /// Fingerprint of the content, for change detection.
    pub content_hash: String,
    pub mime_type: String,
    pub size_bytes: u64,
    /// Time of the last modification, in seconds since the Unix epoch.
    pub last_modified: i64,
}

/// The mathematical value of a [`BinarySource`].
pub struct BinarySourceView {
    pub path: Seq<char>,
    pub content_hash: Seq<char>,
    pub mime_type: Seq<char>,
    pub size_bytes: u64,
    pub last_modified: i64,
}

impl View for BinarySource {
    type V = BinarySourceView;

    open spec fn view(&self) -> BinarySourceView {
        BinarySourceView {
            path: self.path@,
            content_hash: self.content_hash@,
            mime_type: self.mime_type@,
            size_bytes: self.size_bytes,
            last_modified: self.last_modified,
        }
    }
}

impl BinarySource {
    pub fn new(
        path: &str,
        content_hash: &str,
        mime_type: &str,
        size_bytes: u64,
        last_modified: i64,
    ) -> (r: Self)
        ensures
            r@ == (BinarySourceView {
                path: path@,
                content_hash: content_hash@,
                mime_type: mime_type@,
                size_bytes,
                last_modified,
            }),
    {
        BinarySource {
            path: path.to_owned(),
            content_hash: content_hash.to_owned(),
            mime_type: mime_type.to_owned(),
            size_bytes,
            last_modified,
        }
    }
}

/// A rule that computes an object which no file backs.
#[derive(Debug, Clone, PartialEq)]
pub struct VirtualSource {
    /// Name of the rule that generates the object.
    pub rule_name: String,
    /// Time of the last computation, in seconds since the Unix epoch.
    pub computed_at: i64,
}

/// The mathematical value of a [`VirtualSource`].
pub struct VirtualSourceView {
    pub rule_name: Seq<char>,
    pub computed_at: i64,
}

impl View for VirtualSource {
    type V = VirtualSourceView;

    open spec fn view(&self) -> VirtualSourceView {
        VirtualSourceView { rule_name: self.rule_name@, computed_at: self.computed_at }
    }
}

impl VirtualSource {
    pub fn new(rule_name: &str, computed_at: i64) -> (r: Self)
        ensures
            r@ == (VirtualSourceView { rule_name: rule_name@, computed_at }),
    {
        VirtualSource { rule_name: rule_name.to_owned(), computed_at }
    }
}

/// One physical representation of an object.
#[derive(Debug, Clone, PartialEq)]
pub enum SerializationSource {
    Markdown(MarkdownSource),
    Binary(BinarySource),
    Virtual(VirtualSource),
}

/// The mathematical value of a [`SerializationSource`].
pub enum SourceView {
    Markdown(MarkdownSourceView),
    Binary(BinarySourceView),
    Virtual(VirtualSourceView),
}

impl SourceView {
    /// The path of the file behind the source; a virtual source has none.
    pub open spec fn path(self) -> Option<Seq<char>> {
        match self {
            SourceView::Markdown(m) => Some(m.path),
            SourceView::Binary(b) => Some(b.path),
            SourceView::Virtual(_) => None,
        }
    }

    /// The fingerprint of the file behind the source; a virtual source has
    /// none.
    pub open spec fn content_hash(self) -> Option<Seq<char>> {
        match self {
            SourceView::Markdown(m) => Some(m.content_hash),
            SourceView::Binary(b) => Some(b.content_hash),
            SourceView::Virtual(_) => None,
        }
    }
}

impl View for SerializationSource {
    type V = SourceView;

    open spec fn view(&self) -> SourceView {
        match self {
            SerializationSource::Markdown(m) => SourceView::Markdown(m@),
            SerializationSource::Binary(b) => SourceView::Binary(b@),
            SerializationSource::Virtual(v) => SourceView::Virtual(v@),
        }
    }
}

impl SerializationSource {
    /// The path of the file behind the source, if a file is behind it.
    pub fn path(&self) -> (r: Option<&str>)
        ensures
            match r {
                Some(p) => self@.path() == Some(p@),
                None => self@.path() is None,
            },
    {
        match self {
            SerializationSource::Markdown(m) => Some(m.path.as_str()),
            SerializationSource::Binary(b) => Some(b.path.as_str()),
            SerializationSource::Virtual(_) => None,
        }
    }

    /// The fingerprint of the file behind the source, if a file is behind
    /// it.
    pub fn content_hash(&self) -> (r: Option<&str>)
        ensures
            match r {
                Some(h) => self@.content_hash() == Some(h@),
                None => self@.content_hash() is None,
            },
    {
        match self {
            SerializationSource::Markdown(m) => Some(m.content_hash.as_str()),
            SerializationSource::Binary(b) => Some(b.content_hash.as_str()),
            SerializationSource::Virtual(_) => None,
        }
    }

    pub fn is_markdown(&self) -> (r: bool)
        ensures
            r == (self@ is Markdown),
    {
        match self {
            SerializationSource::Markdown(_) => true,
            _ => false,
        }
    }

    pub fn is_binary(&self) -> (r: bool)
        ensures
            r == (self@ is Binary),
    {
        match self {
            SerializationSource::Binary(_) => true,
            _ => false,
        }
    }

    pub fn is_virtual(&self) -> (r: bool)
        ensures
            r == (self@ is Virtual),
    {
        match self {
            SerializationSource::Virtual(_) => true,
            _ => false,
        }
    }
}

} // verus!
