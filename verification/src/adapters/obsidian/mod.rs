//! The adapter for Obsidian-style Markdown notes.
//!
//! | Syntax | Meaning |
//! |--------|---------|
//! | `[[link]]` | wiki-link |
//! | `[[link\|alias]]` | wiki-link with display text |
//! | `![[embed]]` | embed |
//! | `#tag` | tag |
//! | `^blockid` | block marker |
//! | `[[note#^blockid]]` | block-reference link |
pub mod adapter;
pub mod commonmark;
pub mod frontmatter;
pub mod links;
pub mod loaded;
pub mod parser;
pub mod pattern;
pub mod roundtrip;
pub mod yaml;

pub use adapter::ObsidianAdapter;
pub use frontmatter::Frontmatter;
pub use links::BlockReference;
pub use parser::{parse_markdown, ParsedMarkdown};
