//! Sync-safe integers: 28 bits spread over four bytes, seven bits to a byte,
//! most significant byte first. The top bit of every byte carries nothing.

use vstd::prelude::*;
use vstd::std_specs::convert::{FromSpecImpl, TryFromSpecImpl};
use vstd::arithmetic::div_mod::lemma_fundamental_div_mod_converse;
use crate::error::SyncSafeError;

verus! {

/// The number that four bytes stand for: each byte contributes its low seven
/// bits, the first byte the most significant ones.
pub open spec fn spec_decode(bytes: Seq<u8>) -> nat
    recommends
        bytes.len() == 4,
{
    ((bytes[0] % 128) * 0x20_0000 + (bytes[1] % 128) * 0x4000 + (bytes[2] % 128) * 0x80
        + (bytes[3] % 128)) as nat
}

/// The four bytes that stand for the low 28 bits of `value`.
pub open spec fn spec_encode(value: nat) -> Seq<u8> {
    seq![
        (value / 0x20_0000 % 128) as u8,
        (value / 0x4000 % 128) as u8,
        (value / 0x80 % 128) as u8,
        (value % 128) as u8,
    ]
}

/// What a length-checked conversion yields for `bytes`.
pub open spec fn spec_decode_checked(bytes: Seq<u8>) -> Result<SyncSafe, SyncSafeError> {
    if bytes.len() == 4 {
        Ok(SyncSafe(spec_decode(bytes) as u32))
    } else {
        Err(SyncSafeError::IncorrectLength(bytes.len() as usize))
    }
}

/// A sync-safe integer, held as the number it stands for.
#[derive(Clone, Copy, Debug, PartialEq, Eq)]
pub struct SyncSafe(pub u32);

impl View for SyncSafe {
    type V = nat;

    open spec fn view(&self) -> nat {
        self.0 as nat
    }
}

impl From<[u8; 4]> for SyncSafe {
    /// Decodes four bytes; a set top bit is dropped, never rejected.
    fn from(value: [u8; 4]) -> (ret: Self)
        ensures
            ret@ == spec_decode(value@),
            ret@ < 0x1000_0000,
    {
        let b0: u8 = value[0];
        let b1: u8 = value[1];
        let b2: u8 = value[2];
        let b3: u8 = value[3];
        let val: u32 = ((b0 & 0x7f) as u32) << 21 | ((b1 & 0x7f) as u32) << 14 | ((b2 & 0x7f) as u32)
            << 7 | ((b3 & 0x7f) as u32);
        assert(val == (b0 % 128) * 0x20_0000 + (b1 % 128) * 0x4000 + (b2 % 128) * 0x80 + (b3 % 128)
            && val < 0x1000_0000) by (bit_vector)
            requires
                val == ((b0 & 0x7f) as u32) << 21 | ((b1 & 0x7f) as u32) << 14 | ((b2 & 0x7f) as u32)
                    << 7 | ((b3 & 0x7f) as u32),
        ;
        SyncSafe(val)
    }
}

impl FromSpecImpl<[u8; 4]> for SyncSafe {
    open spec fn obeys_from_spec() -> bool {
        true
    }

    open spec fn from_spec(v: [u8; 4]) -> Self {
        SyncSafe(spec_decode(v@) as u32)
    }
}

impl TryFrom<Vec<u8>> for SyncSafe {
    type Error = SyncSafeError;

    /// Decodes a vector that must hold exactly four bytes.
    fn try_from(value: Vec<u8>) -> (ret: Result<Self, Self::Error>)
        ensures
            value@.len() == 4 ==> ret == Ok::<SyncSafe, SyncSafeError>(
                SyncSafe(spec_decode(value@) as u32),
            ),
            value@.len() != 4 ==> ret == Err::<SyncSafe, SyncSafeError>(
                SyncSafeError::IncorrectLength(value@.len() as usize),
            ),
    {
        if value.len() != 4 {
            return Err(SyncSafeError::IncorrectLength(value.len()));
        }
        Ok(SyncSafe::from([value[0], value[1], value[2], value[3]]))
    }
}

impl TryFromSpecImpl<Vec<u8>> for SyncSafe {
    open spec fn obeys_try_from_spec() -> bool {
        true
    }

    open spec fn try_from_spec(v: Vec<u8>) -> Result<Self, Self::Error> {
        spec_decode_checked(v@)
    }
}

impl<'a> TryFrom<&'a [u8]> for SyncSafe {
    type Error = SyncSafeError;

    /// Decodes a slice that must hold exactly four bytes.
    fn try_from(value: &'a [u8]) -> (ret: Result<Self, Self::Error>)
        ensures
            value@.len() == 4 ==> ret == Ok::<SyncSafe, SyncSafeError>(
                SyncSafe(spec_decode(value@) as u32),
            ),
            value@.len() != 4 ==> ret == Err::<SyncSafe, SyncSafeError>(
                SyncSafeError::IncorrectLength(value@.len() as usize),
            ),
    {
        if value.len() != 4 {
            return Err(SyncSafeError::IncorrectLength(value.len()));
        }
        Ok(SyncSafe::from([value[0], value[1], value[2], value[3]]))
    }
}

impl<'a> TryFromSpecImpl<&'a [u8]> for SyncSafe {
    open spec fn obeys_try_from_spec() -> bool {
        true
    }

    open spec fn try_from_spec(v: &'a [u8]) -> Result<Self, Self::Error> {
        spec_decode_checked(v@)
    }
}

impl From<SyncSafe> for Vec<u8> {
    /// Encodes the low 28 bits, seven to a byte; higher bits are dropped.
    fn from(value: SyncSafe) -> (ret: Self)
        ensures
            ret@ == spec_encode(value@),
    {
        let v: u32 = value.0;
        let b0: u8 = ((v >> 21) & 0x7f) as u8;
        let b1: u8 = ((v >> 14) & 0x7f) as u8;
        let b2: u8 = ((v >> 7) & 0x7f) as u8;
        let b3: u8 = (v & 0x7f) as u8;
        assert(b0 == v / 0x20_0000 % 128 && b1 == v / 0x4000 % 128 && b2 == v / 0x80 % 128 && b3 == v
            % 128) by (bit_vector)
            requires
                b0 == ((v >> 21) & 0x7f) as u8,
                b1 == ((v >> 14) & 0x7f) as u8,
                b2 == ((v >> 7) & 0x7f) as u8,
                b3 == (v & 0x7f) as u8,
        ;
        let mut bytes: Vec<u8> = Vec::with_capacity(4);
        bytes.push(b0);
        bytes.push(b1);
        bytes.push(b2);
        bytes.push(b3);
        assert(bytes@ =~= spec_encode(v as nat));
        bytes
    }
}

/// A vector is known by its view alone, so the conversion is stated in the
/// `ensures` of `from` and not as a value here.
impl FromSpecImpl<SyncSafe> for Vec<u8> {
    open spec fn obeys_from_spec() -> bool {
        false
    }

    open spec fn from_spec(v: SyncSafe) -> Self {
        arbitrary()
    }
}

/// Four digits of seven bits are read back from the number they make up.
proof fn lemma_digits(d0: int, d1: int, d2: int, d3: int)
    requires
        0 <= d0 < 128,
        0 <= d1 < 128,
        0 <= d2 < 128,
        0 <= d3 < 128,
    ensures
        ({
            let v: int = d0 * 0x20_0000 + d1 * 0x4000 + d2 * 0x80 + d3;
            &&& 0 <= v < 0x1000_0000
            &&& v / 0x20_0000 % 128 == d0
            &&& v / 0x4000 % 128 == d1
            &&& v / 0x80 % 128 == d2
            &&& v % 128 == d3
        }),
{
    let v: int = d0 * 0x20_0000 + d1 * 0x4000 + d2 * 0x80 + d3;
    lemma_fundamental_div_mod_converse(v, 0x80, d0 * 0x4000 + d1 * 0x80 + d2, d3);
    lemma_fundamental_div_mod_converse(d0 * 0x4000 + d1 * 0x80 + d2, 128, d0 * 0x80 + d1, d2);
    lemma_fundamental_div_mod_converse(v, 0x4000, d0 * 0x80 + d1, d2 * 0x80 + d3);
    lemma_fundamental_div_mod_converse(d0 * 0x80 + d1, 128, d0, d1);
    lemma_fundamental_div_mod_converse(v, 0x20_0000, d0, d1 * 0x4000 + d2 * 0x80 + d3);
    lemma_fundamental_div_mod_converse(d0, 128, 0, d0);
}

/// Decoding never looks at the top bit of a byte, and always yields a number
/// of 28 bits.
pub proof fn lemma_decode_ignores_top_bits(bytes: Seq<u8>, other: Seq<u8>)
    requires
        bytes.len() == 4,
        other.len() == 4,
        forall|i: int| 0 <= i < 4 ==> bytes[i] % 128 == other[i] % 128,
    ensures
        spec_decode(bytes) == spec_decode(other),
        spec_decode(bytes) < 0x1000_0000,
{
}

/// Encoding what four bytes decode to gives the same bytes with the top bit of
/// each cleared, and these decode to the same number again.
pub proof fn lemma_encode_decode(bytes: Seq<u8>)
    requires
        bytes.len() == 4,
    ensures
        spec_encode(spec_decode(bytes)) == seq![
            bytes[0] & 0x7f,
            bytes[1] & 0x7f,
            bytes[2] & 0x7f,
            bytes[3] & 0x7f,
        ],
        forall|i: int| 0 <= i < 4 ==> #[trigger] spec_encode(spec_decode(bytes))[i] < 128,
        spec_decode(spec_encode(spec_decode(bytes))) == spec_decode(bytes),
{
    let b0: u8 = bytes[0];
    let b1: u8 = bytes[1];
    let b2: u8 = bytes[2];
    let b3: u8 = bytes[3];
    assert(b0 & 0x7f == b0 % 128 && b1 & 0x7f == b1 % 128 && b2 & 0x7f == b2 % 128 && b3 & 0x7f
        == b3 % 128) by (bit_vector);
    lemma_digits((b0 % 128) as int, (b1 % 128) as int, (b2 % 128) as int, (b3 % 128) as int);
    let masked = seq![b0 & 0x7f, b1 & 0x7f, b2 & 0x7f, b3 & 0x7f];
    assert(spec_encode(spec_decode(bytes)) =~= masked);
    assert(spec_decode(masked) == spec_decode(bytes));
}

/// Decoding an encoded number gives back its low 28 bits, so encoding and then
/// decoding a second time changes nothing.
pub proof fn lemma_decode_encode(value: u32)
    ensures
        spec_decode(spec_encode(value as nat)) == value % 0x1000_0000,
        spec_decode(spec_encode(spec_decode(spec_encode(value as nat)))) == spec_decode(
            spec_encode(value as nat),
        ),
{
    let e = spec_encode(value as nat);
    let x0: u32 = value / 0x20_0000 % 128;
    let x1: u32 = value / 0x4000 % 128;
    let x2: u32 = value / 0x80 % 128;
    let x3: u32 = value % 128;
    assert(x0 < 128 && x1 < 128 && x2 < 128 && x3 < 128 && x0 * 0x20_0000u32 + x1 * 0x4000u32 + x2
        * 0x80u32 + x3 == value % 0x1000_0000u32) by (bit_vector)
        requires
            x0 == value / 0x20_0000u32 % 128u32,
            x1 == value / 0x4000u32 % 128u32,
            x2 == value / 0x80u32 % 128u32,
            x3 == value % 128u32,
    ;
    assert(spec_decode(e) == value % 0x1000_0000);
    lemma_encode_decode(e);
}

} // verus!
