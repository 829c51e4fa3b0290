use vstd::prelude::*;

verus! {

/// What `uuid::Uuid::parse_str` gives for a text: the UUID's 128-bit
/// value (`Uuid::as_u128`), or `None` when the text is not a UUID.
pub uninterp spec fn uuid_parse(text: Seq<char>) -> Option<u128>;

/// The lower-case hexadecimal digit of `n` (`0 <= n < 16`).
pub open spec fn hex_digit(n: int) -> char {
    if n < 10 {
        (48 + n) as char
    } else {
        (87 + n) as char
    }
}

/// The `k`-th hexadecimal digit (from the most significant) of `v`.
pub open spec fn nibble(v: u128, k: int) -> int {
    ((v >> ((124 - 4 * k) as u128)) & 0xF) as int
}

/// How many hyphens the hyphenated form has before position `i`.
pub open spec fn hyphens_before(i: int) -> int {
    if i < 8 {
        0
    } else if i < 13 {
        1
    } else if i < 18 {
        2
    } else if i < 23 {
        3
    } else {
        4
    }
}

/// The hyphenated lower-case form of a UUID, such as
/// `a1a2a3a4-b1b2-c1c2-d1d2-d3d4d5d6d7d8`: 32 hexadecimal digits,
/// most significant first, with hyphens after the 8th, 12th, 16th and
/// 20th digit.
pub open spec fn hyphenated(v: u128) -> Seq<char> {
    Seq::new(
        36,
        |i: int|
            if i == 8 || i == 13 || i == 18 || i == 23 {
                '-'
            } else {
                hex_digit(nibble(v, i - hyphens_before(i)))
            },
    )
}

/// Mask of the version and variant bits of a UUID.
pub open spec fn version_variant_mask() -> u128 {
    0x0000_0000_0000_F000_C000_0000_0000_0000u128
}

/// Version and variant bits of a random (version 4, RFC 4122) UUID.
pub open spec fn random_uuid_bits() -> u128 {
    0x0000_0000_0000_4000_8000_0000_0000_0000u128
}

/// Parses a UUID with `uuid::Uuid::parse_str`; the result is named
/// `uuid_parse` and nothing more is claimed of it.
#[verifier::external_body]
fn parse_uuid(text: &str) -> (r: Option<u128>)
    ensures
        r == uuid_parse(text@),
{
    match ::uuid::Uuid::parse_str(text) {
        Ok(u) => Some(u.as_u128()),
        Err(_) => None,
    }
}

/// Writes a UUID with `Uuid::to_string` (its `Display`, the hyphenated
/// lower-case form, as `format_hyphenated` in the crate writes it); the
/// crate's `parse_str` reads that form back to the same value.
#[verifier::external_body]
fn uuid_to_text(value: u128) -> (s: String)
    ensures
        s@ == hyphenated(value),
        uuid_parse(s@) == Some(value),
{
    ::uuid::Uuid::from_u128(value).to_string()
}

/// A fresh random UUID from `uuid::Uuid::new_v4`: random bits except the
/// version (4) and variant (RFC 4122) bits, which the crate sets.
#[verifier::external_body]
fn random_uuid() -> (v: u128)
    ensures
        v & version_variant_mask() == random_uuid_bits(),
{
    ::uuid::Uuid::new_v4().as_u128()
}

/// Why a request was refused.
#[derive(Debug, PartialEq, Eq, Clone, Copy, Structural)]
pub enum ApiKeyError {
    /// The request has no `api_key` header.
    Missing,
    /// The header holds something other than the server's key.
    Invalid,
}

/// The key that requests must carry, a UUID.
#[derive(Debug, PartialEq, Eq, Clone, Copy, Structural)]
pub struct ApiKey {
    pub uuid: u128,
}

impl ApiKey {
    /// A new random key.
    pub fn generate() -> (k: Self)
        ensures
            k.uuid & version_variant_mask() == random_uuid_bits(),
    {
        ApiKey { uuid: random_uuid() }
    }

    /// The text the key is stored as: its hyphenated form. Reading that
    /// text back gives the same key.
    pub fn file_text(&self) -> (s: String)
        ensures
            s@ == hyphenated(self.uuid),
            uuid_parse(s@) == Some(self.uuid),
    {
        uuid_to_text(self.uuid)
    }

    /// The key stored as `data`, if `data` is a UUID.
    pub fn from_text(data: &str) -> (k: Option<Self>)
        ensures
            uuid_parse(data@) is Some ==> k == Some(ApiKey { uuid: uuid_parse(data@)->0 }),
            uuid_parse(data@) is None ==> k is None,
    {
        match parse_uuid(data) {
            Some(v) => Some(ApiKey { uuid: v }),
            None => None,
        }
    }

    /// Whether `check_with` is a UUID equal to this key.
    pub fn equal_to_string(&self, check_with: &str) -> (r: bool)
        ensures
            r == (uuid_parse(check_with@) == Some(self.uuid)),
    {
        match parse_uuid(check_with) {
            Some(v) => v == self.uuid,
            None => false,
        }
    }

    /// Whether a request that carries `header` as its `api_key` header
    /// may go on: a missing header and one that is not this key are
    /// refused, each with its own reason.
    pub fn authorize(&self, header: Option<&str>) -> (r: Result<(), ApiKeyError>)
        ensures
            header is None ==> r == Err::<(), ApiKeyError>(ApiKeyError::Missing),
            header is Some ==> (r is Ok <==> uuid_parse(header->0@) == Some(self.uuid)),
            header is Some && r is Err ==> r == Err::<(), ApiKeyError>(ApiKeyError::Invalid),
    {
        match header {
            None => Err(ApiKeyError::Missing),
            Some(key) => if self.equal_to_string(key) {
                Ok(())
            } else {
                Err(ApiKeyError::Invalid)
            },
        }
    }
}

} // verus!
