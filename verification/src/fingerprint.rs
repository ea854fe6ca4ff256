//! 64-bit digests of bytes and of text.
//!
//! The digests come from `std`'s `DefaultHasher`. They serve change
//! detection and the derivation of identities from paths, never security.
//! `std` promises that all hashers made by `DefaultHasher::new` or
//! `DefaultHasher::default` are the same, so a digest depends on what is
//! hashed alone; it does not promise the same algorithm in later releases.
//! A byte slice is hashed with its length before it, written as a machine
//! word. The digest of bytes is therefore that of one word size: a build
//! for 32 bits and one for 64 bits give different digests for the same
//! bytes. A string slice is hashed without its length.
use vstd::prelude::*;

verus! {

/// The digest that a `DefaultHasher`, as `DefaultHasher::default` makes it,
/// gives for a byte slice, on machines of the word size that the library
/// is built for.
pub uninterp spec fn bytes_digest(bytes: Seq<u8>) -> u64;

/// The digest that a `DefaultHasher`, as `DefaultHasher::default` makes it,
/// gives for a string slice.
pub uninterp spec fn text_digest(text: Seq<char>) -> u64;

/// `BuildHasher::hash_one` of `BuildHasherDefault<DefaultHasher>` on a byte
/// slice: the slice is hashed into a hasher that `DefaultHasher::default`
/// made, and the hasher is finished.
#[verifier::external_body]
pub(crate) fn digest_bytes(content: &[u8]) -> (h: u64)
    ensures
        h == bytes_digest(content@),
{
    std::hash::BuildHasher::hash_one(
        &std::hash::BuildHasherDefault::<std::collections::hash_map::DefaultHasher>::default(),
        content,
    )
}

/// `BuildHasher::hash_one` of `BuildHasherDefault<DefaultHasher>` on a
/// string slice: the slice is hashed into a hasher that
/// `DefaultHasher::default` made, and the hasher is finished.
#[verifier::external_body]
pub(crate) fn digest_text(content: &str) -> (h: u64)
    ensures
        h == text_digest(content@),
{
    std::hash::BuildHasher::hash_one(
        &std::hash::BuildHasherDefault::<std::collections::hash_map::DefaultHasher>::default(),
        content,
    )
}

} // verus!
