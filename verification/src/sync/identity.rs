//! Fingerprints of content and identities of files.
//!
//! The identity of a file is a function of its path relative to the vault:
//! the same path gives the same identity in every run, and two paths give
//! the same identity only where their digests collide.
use crate::fingerprint::{digest_text, text_digest};
use crate::numeral::{
    hex_fixed, hex_fixed_chars, hex_minimal, hex_minimal_chars, lemma_hex_fixed_injective,
    lemma_hex_fixed_len, lemma_hex_minimal_injective, pow16,
};
use crate::text::{from_chars, push_all};
use vstd::prelude::*;

verus! {

/// The fingerprint of a text: its digest in hexadecimal digits, without
/// leading zeros.
pub open spec fn text_fingerprint(content: Seq<char>) -> Seq<char> {
    hex_minimal(text_digest(content) as nat)
}

/// A 64-bit number in the shape of a UUID: five groups of 8, 4, 4, 4 and 12
/// hexadecimal digits, with hyphens between them. The groups hold the high
/// half of the number, its third and fourth quarter, its first quarter, and
/// its low three quarters.
pub open spec fn uuid_text(h: nat) -> Seq<char> {
    hex_fixed(h / 0x1_0000_0000, 8) + seq!['-'] + hex_fixed((h / 0x1_0000) % 0x1_0000, 4) + seq![
        '-',
    ] + hex_fixed(h % 0x1_0000, 4) + seq!['-'] + hex_fixed((h / 0x1_0000_0000_0000) % 0x1_0000, 4)
        + seq!['-'] + hex_fixed(h % 0x1_0000_0000_0000, 12)
}

/// The identity of the file at `relative_path`.
pub open spec fn path_identity(relative_path: Seq<char>) -> Seq<char> {
    uuid_text(text_digest(relative_path) as nat)
}

/// The pseudo-identity of a tag: the tag in the namespace `tag:`.
pub open spec fn tag_identity(tag: Seq<char>) -> Seq<char> {
    "tag:"@ + tag
}

/// An identity has 36 characters.
pub proof fn lemma_uuid_text_len(h: nat)
    ensures
        uuid_text(h).len() == 36,
        uuid_text(h)[8] == '-',
        uuid_text(h)[13] == '-',
        uuid_text(h)[18] == '-',
        uuid_text(h)[23] == '-',
{
    lemma_hex_fixed_len(h / 0x1_0000_0000, 8);
    lemma_hex_fixed_len((h / 0x1_0000) % 0x1_0000, 4);
    lemma_hex_fixed_len(h % 0x1_0000, 4);
    lemma_hex_fixed_len((h / 0x1_0000_0000_0000) % 0x1_0000, 4);
    lemma_hex_fixed_len(h % 0x1_0000_0000_0000, 12);
}

/// The first three groups of an identity are where the shape puts them.
pub proof fn lemma_uuid_text_groups(h: nat)
    ensures
        uuid_text(h).subrange(0, 8) == hex_fixed(h / 0x1_0000_0000, 8),
        uuid_text(h).subrange(9, 13) == hex_fixed((h / 0x1_0000) % 0x1_0000, 4),
        uuid_text(h).subrange(14, 18) == hex_fixed(h % 0x1_0000, 4),
{
    let g1 = hex_fixed(h / 0x1_0000_0000, 8);
    let g2 = hex_fixed((h / 0x1_0000) % 0x1_0000, 4);
    let g3 = hex_fixed(h % 0x1_0000, 4);
    let g4 = hex_fixed((h / 0x1_0000_0000_0000) % 0x1_0000, 4);
    let g5 = hex_fixed(h % 0x1_0000_0000_0000, 12);
    lemma_hex_fixed_len(h / 0x1_0000_0000, 8);
    lemma_hex_fixed_len((h / 0x1_0000) % 0x1_0000, 4);
    lemma_hex_fixed_len(h % 0x1_0000, 4);
    lemma_hex_fixed_len((h / 0x1_0000_0000_0000) % 0x1_0000, 4);
    lemma_hex_fixed_len(h % 0x1_0000_0000_0000, 12);
    let t = g1 + seq!['-'] + g2 + seq!['-'] + g3 + seq!['-'] + g4 + seq!['-'] + g5;
    assert(t.subrange(0, 8) =~= g1);
    assert(t.subrange(9, 13) =~= g2);
    assert(t.subrange(14, 18) =~= g3);
}

/// A number below `2^64` is given by its high half and its two low
/// quarters.
pub proof fn lemma_recompose(a: nat, b: nat)
    requires
        a / 0x1_0000_0000 == b / 0x1_0000_0000,
        (a / 0x1_0000) % 0x1_0000 == (b / 0x1_0000) % 0x1_0000,
        a % 0x1_0000 == b % 0x1_0000,
    ensures
        a == b,
{
    assert((a / 0x1_0000) / 0x1_0000 == a / 0x1_0000_0000);
    assert((b / 0x1_0000) / 0x1_0000 == b / 0x1_0000_0000);
    assert(a / 0x1_0000 == b / 0x1_0000);
}

/// Two 64-bit numbers with the same UUID shape are equal.
pub proof fn lemma_uuid_text_injective(a: nat, b: nat)
    requires
        a < 0x1_0000_0000_0000_0000,
        b < 0x1_0000_0000_0000_0000,
        uuid_text(a) == uuid_text(b),
    ensures
        a == b,
{
    lemma_uuid_text_groups(a);
    lemma_uuid_text_groups(b);
    assert(pow16(4) == 0x1_0000) by {
        reveal_with_fuel(pow16, 5);
    }
    assert(pow16(8) == 0x1_0000_0000) by {
        reveal_with_fuel(pow16, 9);
    }
    lemma_hex_fixed_injective(a / 0x1_0000_0000, b / 0x1_0000_0000, 8);
    lemma_hex_fixed_injective((a / 0x1_0000) % 0x1_0000, (b / 0x1_0000) % 0x1_0000, 4);
    lemma_hex_fixed_injective(a % 0x1_0000, b % 0x1_0000, 4);
    lemma_recompose(a, b);
}

/// The identity of a file depends on its path alone.
pub proof fn lemma_identity_deterministic(p: Seq<char>, q: Seq<char>)
    requires
        p == q,
    ensures
        path_identity(p) == path_identity(q),
{
}

/// Two paths whose digests differ have different identities.
pub proof fn lemma_identity_distinct(p: Seq<char>, q: Seq<char>)
    requires
        text_digest(p) != text_digest(q),
    ensures
        path_identity(p) != path_identity(q),
{
    if path_identity(p) == path_identity(q) {
        lemma_uuid_text_injective(text_digest(p) as nat, text_digest(q) as nat);
    }
}

/// The fingerprint of a text depends on the text alone.
pub proof fn lemma_text_fingerprint_deterministic(a: Seq<char>, b: Seq<char>)
    requires
        a == b,
    ensures
        text_fingerprint(a) == text_fingerprint(b),
{
}

/// Two texts whose digests differ have different fingerprints.
pub proof fn lemma_text_fingerprint_distinct(a: Seq<char>, b: Seq<char>)
    requires
        text_digest(a) != text_digest(b),
    ensures
        text_fingerprint(a) != text_fingerprint(b),
{
    if text_fingerprint(a) == text_fingerprint(b) {
        lemma_hex_minimal_injective(text_digest(a) as nat, text_digest(b) as nat);
    }
}

/// The fingerprint of a text, for change detection.
pub fn calculate_hash(content: &str) -> (r: String)
    ensures
        r@ == text_fingerprint(content@),
{
    format_fingerprint(digest_text(content))
}

/// A digest in hexadecimal digits, without leading zeros.
pub fn format_fingerprint(digest: u64) -> (r: String)
    ensures
        r@ == hex_minimal(digest as nat),
{
    from_chars(&hex_minimal_chars(digest))
}

/// The identity of the file at `relative_path`, in the shape of a UUID.
pub fn path_to_uuid(relative_path: &str) -> (r: String)
    ensures
        r@ == path_identity(relative_path@),
        r@.len() == 36,
{
    format_identity(digest_text(relative_path))
}

/// A digest in the shape of a UUID.
pub fn format_identity(h: u64) -> (r: String)
    ensures
        r@ == uuid_text(h as nat),
        r@.len() == 36,
{
    let mut out = hex_fixed_chars(h / 0x1_0000_0000, 8);
    out.push('-');
    push_all(&mut out, &hex_fixed_chars((h / 0x1_0000) % 0x1_0000, 4));
    out.push('-');
    push_all(&mut out, &hex_fixed_chars(h % 0x1_0000, 4));
    out.push('-');
    push_all(&mut out, &hex_fixed_chars((h / 0x1_0000_0000_0000) % 0x1_0000, 4));
    out.push('-');
    push_all(&mut out, &hex_fixed_chars(h % 0x1_0000_0000_0000, 12));
    proof {
        lemma_uuid_text_len(h as nat);
        assert(out@ =~= uuid_text(h as nat));
    }
    from_chars(&out)
}

/// The pseudo-identity of a tag.
pub fn tag_to_identity(tag: &str) -> (r: String)
    ensures
        r@ == tag_identity(tag@),
{
    let mut out = crate::text::to_chars("tag:");
    crate::text::push_str(&mut out, tag);
    from_chars(&out)
}

} // verus!
