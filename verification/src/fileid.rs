//! File identifiers.
//!
//! A file is known by a 128-bit identifier. Inside the library it is a plain
//! `u128`; its text form, its parser, its hash input and the random draw of a
//! fresh one are those of the `uuid` crate.

use std::collections::hash_map::DefaultHasher;
use std::hash::Hash;
use std::hash::Hasher;
use uuid::Uuid;
use vstd::arithmetic::power::pow;
use vstd::prelude::*;
use vstd::std_specs::hash::DefaultHasherAdditionalSpecFns;

verus! {

/// Number of characters of an identifier's text form.
pub const TEXT_LEN: usize = 36;

/// The bits of an identifier that tell its version and variant.
pub const VERSION_MASK: u128 = 0x0000_0000_0000_f000_c000_0000_0000_0000;

/// What those bits hold in a randomly drawn identifier.
pub const RANDOM_VERSION: u128 = 0x0000_0000_0000_4000_8000_0000_0000_0000;

/// The `k`-th byte of an identifier, the most significant being byte 0.
pub open spec fn id_byte(id: u128, k: int) -> u8 {
    ((id as int / pow(256, (15 - k) as nat)) % 256) as u8
}

/// The sixteen bytes of an identifier, most significant first.
pub open spec fn id_bytes(id: u128) -> Seq<u8> {
    Seq::new(16, |k: int| id_byte(id, k))
}

/// The `k`-th hexadecimal digit of an identifier, the most significant being
/// digit 0.
pub open spec fn id_nibble(id: u128, k: int) -> int {
    (id as int / pow(16, (31 - k) as nat)) % 16
}

/// The lower-case hexadecimal digits.
pub open spec fn hex_digits() -> Seq<char> {
    seq!['0', '1', '2', '3', '4', '5', '6', '7', '8', '9', 'a', 'b', 'c', 'd', 'e', 'f']
}

/// The character at position `i` of the text form: thirty-two lower-case
/// hexadecimal digits in groups of 8, 4, 4, 4 and 12, with a hyphen between
/// two groups.
pub open spec fn text_char(id: u128, i: int) -> char {
    if i == 8 || i == 13 || i == 18 || i == 23 {
        '-'
    } else if i < 8 {
        hex_digits()[id_nibble(id, i)]
    } else if i < 13 {
        hex_digits()[id_nibble(id, i - 1)]
    } else if i < 18 {
        hex_digits()[id_nibble(id, i - 2)]
    } else if i < 23 {
        hex_digits()[id_nibble(id, i - 3)]
    } else {
        hex_digits()[id_nibble(id, i - 4)]
    }
}

/// The text form of an identifier, such as
/// `a1a2a3a4-b1b2-c1c2-d1d2-d3d4d5d6d7d8`.
pub open spec fn fileid_text(id: u128) -> Seq<char> {
    Seq::new(TEXT_LEN as nat, |i: int| text_char(id, i))
}

/// The identifier that a text stands for, if it stands for one.
pub uninterp spec fn parsed_fileid(text: Seq<char>) -> Option<u128>;

/// The hash of an identifier: that of a default hasher which was fed the
/// sixteen bytes of the identifier in one write.
pub open spec fn hash_of(id: u128) -> u64 {
    DefaultHasher::spec_finish(seq![id_bytes(id)])
}

/// Why a text is no identifier. The library does not look inside.
#[verifier::external_type_specification]
#[verifier::external_body]
pub struct ExUuidError(uuid::Error);

/// `<Uuid as Hash>::hash`, on the identifier `Uuid::from_u128(id)`.
///
/// The crate implements `Hash` for `Uuid` by hand, as a single `write` of the
/// sixteen bytes that the value holds; `from_u128` stores the integer's
/// big-endian bytes. The contract says exactly that: the hasher has received
/// one more write, of the identifier's bytes from the most significant down.
#[verifier::external_body]
fn feed_uuid(id: u128, state: &mut DefaultHasher)
    ensures
        final(state)@ == old(state)@.push(id_bytes(id)),
{
    Uuid::from_u128(id).hash(state);
}

/// `Uuid::to_string`, on the identifier `Uuid::from_u128(id)`.
///
/// `Display` for `Uuid` is its hyphenated lower-case form. The contract claims
/// that the string returned is that form of the integer's big-endian bytes,
/// and that `Uuid::parse_str` reads it back: the parser accepts every form
/// that the crate writes, the hyphenated one among them.
#[verifier::external_body]
fn uuid_to_string(id: u128) -> (text: String)
    ensures
        text@ == fileid_text(id),
        parsed_fileid(text@) == Some(id),
{
    Uuid::from_u128(id).to_string()
}

/// `Uuid::parse_str`, with the identifier handed back as an integer
/// (`Uuid::as_u128`).
///
/// The parser accepts several spellings and is a function of the text alone.
/// The contract gives its answer the name `parsed_fileid` and claims nothing
/// else of it.
#[verifier::external_body]
fn uuid_parse_str(text: &str) -> (parsed: Result<u128, uuid::Error>)
    ensures
        match parsed {
            Ok(id) => parsed_fileid(text@) == Some(id),
            Err(_) => parsed_fileid(text@) is None,
        },
{
    match Uuid::parse_str(text) {
        Ok(id) => Ok(id.as_u128()),
        Err(refusal) => Err(refusal),
    }
}

/// `Uuid::new_v4`, handed back as an integer (`Uuid::as_u128`).
///
/// The value is random. The contract claims only what the crate sets in every
/// such value: the version bits say 4 and the variant bits say `10`. The crate
/// panics where the operating system hands out no random bytes; no argument
/// decides that, so no precondition can rule it out.
#[verifier::external_body]
fn uuid_new_v4() -> (id: u128)
    ensures
        (id & VERSION_MASK) == RANDOM_VERSION,
{
    Uuid::new_v4().as_u128()
}

/// Hashes an identifier with the default hasher in its initial state.
pub fn calculate_hash(id: u128) -> (hash: u64)
    ensures
        hash == hash_of(id),
{
    let mut state = DefaultHasher::new();
    feed_uuid(id, &mut state);
    state.finish()
}

/// Renders an identifier as text. The text parses back to the identifier.
pub fn fileid_to_string(id: u128) -> (text: String)
    ensures
        text@ == fileid_text(id),
        text@.len() == TEXT_LEN,
        parsed_fileid(text@) == Some(id),
{
    uuid_to_string(id)
}

/// Reads an identifier from text.
///
/// `None` when the text is not an identifier in any spelling the parser knows.
pub fn parse_fileid(text: &str) -> (id: Option<u128>)
    ensures
        id == parsed_fileid(text@),
{
    match uuid_parse_str(text) {
        Ok(id) => Some(id),
        Err(_) => None,
    }
}

/// Draws a fresh random identifier.
pub fn new_fileid() -> (id: u128)
    ensures
        (id & VERSION_MASK) == RANDOM_VERSION,
{
    uuid_new_v4()
}

} // verus!
