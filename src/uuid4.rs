//! Version 4 UUIDs held as their canonical text: 32 lowercase hex digits in
//! groups of 8-4-4-4-12, and a terminating NUL byte.
use vstd::prelude::*;

verus! {

/// The byte `-` between groups.
pub const HYPHEN: u8 = 45;

#[verifier::external_type_specification]
#[verifier::external_body]
pub struct ExUuidParseError(uuid::Error);

/// The sixteen bytes that `uuid::Uuid::try_parse` reads from a text it accepts.
pub uninterp spec fn parsed_uuid_bytes(text: Seq<char>) -> Seq<u8>;

/// Relies on `uuid::Uuid::try_parse` and `Uuid::as_bytes`: the bytes of the
/// UUID spelled by `text` in one of the formats uuid accepts, or uuid's error.
#[verifier::external_body]
fn parse_uuid(text: &str) -> (r: Result<[u8; 16], uuid::Error>)
    ensures
        r is Ok ==> r->Ok_0@ == parsed_uuid_bytes(text@),
{
    match uuid::Uuid::try_parse(text) {
        Ok(u) => Ok(*u.as_bytes()),
        Err(e) => Err(e),
    }
}

/// Why a text is not a version 4 UUID.
#[derive(Debug)]
pub enum UuidError {
    /// uuid could not read a UUID from the text.
    Parse(uuid::Error),
    /// The text spells a UUID of another version or variant.
    NotVersion4,
}

/// A version 4 (random), RFC 4122 variant UUID.
#[derive(Clone, Copy, Debug, PartialEq, Eq, Hash)]
pub struct UUID4 {
    pub(crate) value: [u8; 37],
}

impl View for UUID4 {
    type V = Seq<u8>;

    open(crate) spec fn view(&self) -> Seq<u8> {
        self.value@
    }
}

/// The lowercase hex digit of a nibble.
pub open spec fn hex_char(n: u8) -> u8 {
    if n < 10 {
        (48 + n) as u8
    } else {
        (87 + n) as u8
    }
}

/// Where the two digits of byte `k` start in the text.
pub open spec fn digit_pos(k: int) -> int {
    2 * k + (if k >= 4 { 1int } else { 0 }) + (if k >= 6 { 1int } else { 0 }) + (if k >= 8 {
        1int
    } else {
        0
    }) + (if k >= 10 { 1int } else { 0 })
}

/// `text` is the canonical text of the sixteen bytes `b`.
pub open spec fn is_uuid_text(text: Seq<u8>, b: Seq<u8>) -> bool {
    &&& b.len() == 16
    &&& text.len() == 37
    &&& text[8] == HYPHEN && text[13] == HYPHEN && text[18] == HYPHEN && text[23] == HYPHEN
    &&& text[36] == 0
    &&& forall|k: int|
        0 <= k < 16 ==> text[#[trigger] digit_pos(k)] == hex_char(b[k] / 16) && text[digit_pos(k)
            + 1] == hex_char(b[k] % 16)
}

/// The version nibble is 4 and the variant bits are `10`.
pub open spec fn is_v4_rfc4122(b: Seq<u8>) -> bool {
    b.len() == 16 && b[6] / 16 == 4 && b[8] / 64 == 2
}

/// Random bytes with the version and variant bits of a version 4 UUID set.
pub open spec fn with_v4_bits(b: Seq<u8>) -> Seq<u8> {
    b.update(6, ((b[6] % 16) + 64) as u8).update(8, ((b[8] % 64) + 128) as u8)
}

fn hex_digit(n: u8) -> (r: u8)
    requires
        n < 16,
    ensures
        r == hex_char(n),
{
    if n < 10 {
        48 + n
    } else {
        87 + n
    }
}

/// Relies on `rand::rng` and `RngCore::fill_bytes`: sixteen bytes from the
/// thread-local generator.
#[verifier::external_body]
fn random_bytes() -> (r: [u8; 16]) {
    let mut bytes = [0u8; 16];
    rand::RngCore::fill_bytes(&mut rand::rng(), &mut bytes);
    bytes
}

impl UUID4 {
    /// A fresh random version 4 UUID.
    pub fn new() -> (r: Self)
        ensures
            exists|b: Seq<u8>| is_uuid_text(r@, b) && is_v4_rfc4122(b),
    {
        let bytes = random_bytes();
        let r = Self::from_random_bytes(bytes);
        assert(is_uuid_text(r@, with_v4_bits(bytes@)) && is_v4_rfc4122(with_v4_bits(bytes@)));
        r
    }

    /// The UUID made of `bytes` once its version and variant bits are set.
    pub fn from_random_bytes(bytes: [u8; 16]) -> (r: Self)
        ensures
            is_uuid_text(r@, with_v4_bits(bytes@)),
            is_v4_rfc4122(with_v4_bits(bytes@)),
    {
        let mut b = bytes;
        b[6] = (b[6] % 16) + 64;
        b[8] = (b[8] % 64) + 128;
        proof {
            assert(b@ =~= with_v4_bits(bytes@));
        }
        Self::from_validated_uuid(&b)
    }

    /// Whether `bytes` carry the version 4 and RFC 4122 variant bits.
    pub fn validate_v4(bytes: &[u8; 16]) -> (r: bool)
        ensures
            r == is_v4_rfc4122(bytes@),
    {
        bytes[6] / 16 == 4 && bytes[8] / 64 == 2
    }

    /// The canonical text of `bytes`.
    pub fn from_validated_uuid(bytes: &[u8; 16]) -> (r: Self)
        ensures
            is_uuid_text(r@, bytes@),
    {
        let mut value = [0u8; 37];
        let mut pos: usize = 0;
        let mut k: usize = 0;
        while k < 16
            invariant
                k <= 16,
                pos == digit_pos(k as int) - (if k == 4 || k == 6 || k == 8 || k == 10 {
                    1int
                } else {
                    0
                }),
                value@.len() == 37,
                value@[36] == 0,
                k > 4 ==> value@[8] == HYPHEN,
                k > 6 ==> value@[13] == HYPHEN,
                k > 8 ==> value@[18] == HYPHEN,
                k > 10 ==> value@[23] == HYPHEN,
                forall|j: int|
                    0 <= j < k ==> value@[#[trigger] digit_pos(j)] == hex_char(bytes@[j] / 16)
                        && value@[digit_pos(j) + 1] == hex_char(bytes@[j] % 16),
            decreases 16 - k,
        {
            if k == 4 || k == 6 || k == 8 || k == 10 {
                value[pos] = HYPHEN;
                pos += 1;
            }
            proof {
                assert(pos == digit_pos(k as int));
            }
            value[pos] = hex_digit(bytes[k] / 16);
            value[pos + 1] = hex_digit(bytes[k] % 16);
            pos += 2;
            k += 1;
        }
        UUID4 { value }
    }

    /// The version 4 UUID that `bytes` spell, if they carry its version and
    /// variant bits.
    pub fn from_parsed_bytes(bytes: [u8; 16]) -> (r: Result<Self, UuidError>)
        ensures
            r is Ok <==> is_v4_rfc4122(bytes@),
            r is Ok ==> is_uuid_text(r->Ok_0@, bytes@),
            r is Err ==> r->Err_0 is NotVersion4,
    {
        if Self::validate_v4(&bytes) {
            Ok(Self::from_validated_uuid(&bytes))
        } else {
            Err(UuidError::NotVersion4)
        }
    }

    /// Reads a version 4 UUID from text in any format uuid accepts.
    pub fn from_text(text: &str) -> (r: Result<Self, UuidError>)
        ensures
            r is Ok ==> is_v4_rfc4122(parsed_uuid_bytes(text@)) && is_uuid_text(
                r->Ok_0@,
                parsed_uuid_bytes(text@),
            ),
    {
        match parse_uuid(text) {
            Ok(bytes) => Self::from_parsed_bytes(bytes),
            Err(e) => Err(UuidError::Parse(e)),
        }
    }

    /// The text followed by its terminating NUL.
    pub fn as_bytes(&self) -> (r: &[u8])
        ensures
            r@ == self@,
    {
        self.value.as_slice()
    }

    /// Whether the two UUIDs are the same.
    pub fn same_as(&self, other: &UUID4) -> (r: bool)
        ensures
            r == (self@ == other@),
    {
        let mut i: usize = 0;
        while i < 37
            invariant
                self@.len() == 37,
                other@.len() == 37,
                i <= 37,
                forall|j: int| 0 <= j < i ==> self@[j] == other@[j],
            decreases 37 - i,
        {
            if self.value[i] != other.value[i] {
                return false;
            }
            i += 1;
        }
        proof {
            assert(self@ =~= other@);
        }
        true
    }
}

impl std::str::FromStr for UUID4 {
    type Err = UuidError;

    fn from_str(value: &str) -> Result<Self, Self::Err> {
        UUID4::from_text(value)
    }
}

impl Default for UUID4 {
    /// A fresh random UUID, as `new` makes.
    fn default() -> (r: Self)
        ensures
            exists|b: Seq<u8>| is_uuid_text(r@, b) && is_v4_rfc4122(b),
    {
        UUID4::new()
    }
}

} // verus!
