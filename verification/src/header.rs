//! The ten-byte header that opens a tag.
//!
//! | offset | length | field                                              |
//! |--------|--------|----------------------------------------------------|
//! | 0      | 3      | the identifier, ASCII "ID3"                        |
//! | 3      | 2      | version: major, minor                              |
//! | 5      | 1      | flags: bits 7, 6, 5; bits 0 to 4 are zero           |
//! | 6      | 4      | size of the tag after this header, sync-safe       |

use vstd::prelude::*;
use crate::bytes::{spec_bit_set, top_bit_set};
use crate::error::ID3Error;
use crate::reader::Reader;
use crate::sync_safe::{spec_decode, SyncSafe};

verus! {

/// The first three bytes are the ASCII letters "ID3".
pub open spec fn spec_identifier_ok(bytes: Seq<u8>) -> bool {
    bytes[0] == 0x49 && bytes[1] == 0x44 && bytes[2] == 0x33
}

/// None of the five low bits of a flags byte is set.
pub open spec fn spec_flags_ok(flags: u8) -> bool {
    flags % 32 == 0
}

/// Each of the four size bytes, at offsets 6 to 9, has its top bit clear.
pub open spec fn spec_size_ok(bytes: Seq<u8>) -> bool {
    bytes[6] < 128 && bytes[7] < 128 && bytes[8] < 128 && bytes[9] < 128
}

/// The bytes start with ten that have the shape of a tag header of any
/// revision: identifier, flags and size as the format demands, and neither
/// version byte 0xFF.
pub open spec fn spec_valid_bytes(bytes: Seq<u8>) -> bool {
    &&& bytes.len() >= 10
    &&& spec_identifier_ok(bytes)
    &&& bytes[3] < 0xFF
    &&& bytes[4] < 0xFF
    &&& spec_flags_ok(bytes[5])
    &&& spec_size_ok(bytes)
}

/// The bytes start with the header of a tag of version 2.3.0.
pub open spec fn spec_header_exists(bytes: Seq<u8>) -> bool {
    &&& bytes.len() >= 10
    &&& spec_identifier_ok(bytes)
    &&& bytes[3] == 3
    &&& bytes[4] == 0
    &&& spec_flags_ok(bytes[5])
    &&& spec_size_ok(bytes)
}

/// What a tag header says, as plain values.
pub struct HeaderView {
    /// The three identifier bytes.
    pub identifier: Seq<u8>,
    /// Major and minor version.
    pub version: Seq<u8>,
    /// The flags byte.
    pub flags: u8,
    /// Byte length of everything in the tag after the header.
    pub size: nat,
}

impl HeaderView {
    /// The unsynchronisation flag: bit 7 of the flags.
    pub open spec fn unsynchronisation(self) -> bool {
        spec_bit_set(self.flags, 128)
    }

    /// The flag that announces an extended header: bit 6 of the flags.
    pub open spec fn extended_header(self) -> bool {
        spec_bit_set(self.flags, 64)
    }

    /// The experimental flag: bit 5 of the flags.
    pub open spec fn experimental(self) -> bool {
        spec_bit_set(self.flags, 32)
    }
}

/// What the first ten bytes of `bytes` say when they are read as a header.
pub open spec fn spec_header(bytes: Seq<u8>) -> HeaderView
    recommends
        bytes.len() >= 10,
{
    HeaderView {
        identifier: bytes.subrange(0, 3),
        version: bytes.subrange(3, 5),
        flags: bytes[5],
        size: spec_decode(bytes.subrange(6, 10)),
    }
}

/// Whether `file` starts with the header of a tag of version 2.3.0.
pub fn header_exists(file: &[u8]) -> (found: bool)
    ensures
        found == spec_header_exists(file@),
{
    if file.len() < 10 {
        return false;
    }
    let flags: u8 = file[5];
    assert((flags & 0b0001_1111 == 0) == (flags % 32 == 0)) by (bit_vector);
    file[0] == 0x49 && file[1] == 0x44 && file[2] == 0x33 && file[3] == 3 && file[4] == 0 && flags
        & 0b0001_1111 == 0 && file[6] < 128 && file[7] < 128 && file[8] < 128 && file[9] < 128
}

/// A parsed tag header.
#[derive(Clone, Copy, Debug, PartialEq, Eq)]
pub struct Header {
    /// The three identifier bytes.
    pub identifier: [u8; 3],
    /// Major and minor version.
    pub version: [u8; 2],
    /// The flags byte.
    pub flags: u8,
    /// Byte length of everything in the tag after these ten bytes.
    pub size: SyncSafe,
}

impl View for Header {
    type V = HeaderView;

    open spec fn view(&self) -> HeaderView {
        HeaderView {
            identifier: self.identifier@,
            version: self.version@,
            flags: self.flags,
            size: self.size@,
        }
    }
}

impl Header {
    /// Whether ten bytes have the shape of a tag header of any revision.
    pub fn valid_bytes(bytes: [u8; 10]) -> (valid: bool)
        ensures
            valid == spec_valid_bytes(bytes@),
    {
        let flags: u8 = bytes[5];
        assert((flags & 0b0001_1111 == 0) == (flags % 32 == 0)) by (bit_vector);
        bytes[0] == 0x49 && bytes[1] == 0x44 && bytes[2] == 0x33 && bytes[3] < 0xFF && bytes[4]
            < 0xFF && flags & 0b0001_1111 == 0 && bytes[6] < 0x80 && bytes[7] < 0x80 && bytes[8]
            < 0x80 && bytes[9] < 0x80
    }

    /// Builds the header from ten bytes, without judging them.
    fn assemble(bytes: &[u8]) -> (header: Self)
        requires
            bytes@.len() >= 10,
        ensures
            header@ == spec_header(bytes@),
    {
        let header = Header {
            identifier: [bytes[0], bytes[1], bytes[2]],
            version: [bytes[3], bytes[4]],
            flags: bytes[5],
            size: SyncSafe::from([bytes[6], bytes[7], bytes[8], bytes[9]]),
        };
        proof {
            assert(header.identifier@ =~= bytes@.subrange(0, 3));
            assert(header.version@ =~= bytes@.subrange(3, 5));
            assert(seq![bytes[6], bytes[7], bytes[8], bytes[9]] =~= bytes@.subrange(6, 10));
        }
        header
    }

    /// Parses the header of a version 2.3.0 tag from the start of `bytes`.
    /// Bytes after the tenth are not looked at.
    pub fn from_bytes(bytes: &[u8]) -> (r: Option<Self>)
        ensures
            spec_header_exists(bytes@) ==> r is Some && r->Some_0@ == spec_header(bytes@),
            !spec_header_exists(bytes@) ==> r is None,
    {
        if !header_exists(bytes) {
            return None;
        }
        Some(Self::assemble(bytes))
    }

    /// Reads ten bytes and parses them as the header of a tag of any
    /// revision. The ten bytes are consumed whether or not they are a header.
    pub fn read_from(reader: &mut Reader) -> (r: Result<Self, ID3Error>)
        ensures
            old(reader)@.len() < 10 ==> ({
                &&& r matches Err(ID3Error::NotEnoughBytes)
                &&& final(reader)@ == Seq::<u8>::empty()
            }),
            old(reader)@.len() >= 10 ==> final(reader)@ == old(reader)@.skip(10),
            spec_valid_bytes(old(reader)@) ==> ({
                &&& r is Ok
                &&& r->Ok_0@ == spec_header(old(reader)@)
            }),
            old(reader)@.len() >= 10 && !spec_valid_bytes(old(reader)@) ==> (r matches Err(
                ID3Error::HeaderNotFound,
            )),
    {
        let bytes = match reader.read_n_bytes(10) {
            Ok(bytes) => bytes,
            Err(_) => {
                return Err(ID3Error::NotEnoughBytes);
            },
        };
        let array: [u8; 10] = [
            bytes[0],
            bytes[1],
            bytes[2],
            bytes[3],
            bytes[4],
            bytes[5],
            bytes[6],
            bytes[7],
            bytes[8],
            bytes[9],
        ];
        assert(array@ =~= bytes@);
        if !Self::valid_bytes(array) {
            return Err(ID3Error::HeaderNotFound);
        }
        let header = Self::assemble(bytes.as_slice());
        proof {
            lemma_header_of_prefix(old(reader)@);
        }
        Ok(header)
    }

    /// Reads ten bytes and parses them as the header of a version 2.3.0 tag.
    /// The ten bytes are consumed whether or not they are such a header.
    pub fn from_reader(reader: &mut Reader) -> (r: Result<Self, ID3Error>)
        ensures
            old(reader)@.len() < 10 ==> ({
                &&& r matches Err(ID3Error::NotEnoughBytes)
                &&& final(reader)@ == Seq::<u8>::empty()
            }),
            old(reader)@.len() >= 10 ==> final(reader)@ == old(reader)@.skip(10),
            spec_header_exists(old(reader)@) ==> ({
                &&& r is Ok
                &&& r->Ok_0@ == spec_header(old(reader)@)
            }),
            old(reader)@.len() >= 10 && !spec_header_exists(old(reader)@) ==> (r matches Err(
                ID3Error::HeaderNotFound,
            )),
    {
        let bytes = match reader.read_n_bytes(10) {
            Ok(bytes) => bytes,
            Err(_) => {
                return Err(ID3Error::NotEnoughBytes);
            },
        };
        proof {
            lemma_header_of_prefix(old(reader)@);
        }
        match Self::from_bytes(bytes.as_slice()) {
            Some(header) => Ok(header),
            None => Err(ID3Error::HeaderNotFound),
        }
    }

    /// Byte length of everything in the tag after the ten header bytes.
    pub fn size(&self) -> (size: u32)
        ensures
            size == self@.size,
    {
        self.size.0
    }

    /// Whether the unsynchronisation flag, bit 7 of the flags, is set.
    pub fn unsynchronisation(&self) -> (set: bool)
        ensures
            set == self@.unsynchronisation(),
    {
        top_bit_set(self.flags)
    }

    /// Whether the flag that announces an extended header, bit 6, is set.
    pub fn extended_header(&self) -> (set: bool)
        ensures
            set == self@.extended_header(),
    {
        let flags: u8 = self.flags;
        assert((flags & 0b0100_0000 == 0b0100_0000) == (flags / 64 % 2 == 1)) by (bit_vector);
        flags & 0b0100_0000 == 0b0100_0000
    }

    /// Whether the experimental flag, bit 5 of the flags, is set.
    pub fn experimental(&self) -> (set: bool)
        ensures
            set == self@.experimental(),
    {
        let flags: u8 = self.flags;
        assert((flags & 0b0010_0000 == 0b0010_0000) == (flags / 32 % 2 == 1)) by (bit_vector);
        flags & 0b0010_0000 == 0b0010_0000
    }
}

/// What a header says, and whether there is one, depends on the first ten
/// bytes alone.
proof fn lemma_header_of_prefix(bytes: Seq<u8>)
    requires
        bytes.len() >= 10,
    ensures
        spec_header(bytes.take(10)) == spec_header(bytes),
        spec_valid_bytes(bytes.take(10)) == spec_valid_bytes(bytes),
        spec_header_exists(bytes.take(10)) == spec_header_exists(bytes),
{
    let head = bytes.take(10);
    assert(head.subrange(0, 3) =~= bytes.subrange(0, 3));
    assert(head.subrange(3, 5) =~= bytes.subrange(3, 5));
    assert(head.subrange(6, 10) =~= bytes.subrange(6, 10));
}

/// Ten bytes of which neither version byte is 0xFF are accepted as a header
/// exactly when they begin with "ID3", the five low bits of the flags byte
/// are clear, and each size byte is below 128.
pub proof fn lemma_valid_bytes(bytes: Seq<u8>)
    requires
        bytes.len() == 10,
        bytes[3] != 0xFF,
        bytes[4] != 0xFF,
    ensures
        spec_valid_bytes(bytes) <==> ({
            &&& bytes.subrange(0, 3) == seq![0x49u8, 0x44u8, 0x33u8]
            &&& bytes[5] & 0b0001_1111 == 0
            &&& forall|i: int| 6 <= i < 10 ==> bytes[i] < 128
        }),
{
    let flags: u8 = bytes[5];
    assert((flags & 0b0001_1111 == 0) == (flags % 32 == 0)) by (bit_vector);
    let id = seq![0x49u8, 0x44u8, 0x33u8];
    if spec_valid_bytes(bytes) {
        assert(bytes.subrange(0, 3) =~= id);
    }
    if bytes.subrange(0, 3) == id {
        assert(bytes[0] == bytes.subrange(0, 3)[0]);
        assert(bytes[1] == bytes.subrange(0, 3)[1]);
        assert(bytes[2] == bytes.subrange(0, 3)[2]);
    }
}

/// Ten bytes that give the version as 2.3.0 are accepted as a header of that
/// version exactly when they begin with "ID3", the five low bits of the flags
/// byte are clear, and each size byte is below 128.
pub proof fn lemma_header_exists(bytes: Seq<u8>)
    requires
        bytes.len() == 10,
        bytes[3] == 3,
        bytes[4] == 0,
    ensures
        spec_header_exists(bytes) <==> ({
            &&& bytes.subrange(0, 3) == seq![0x49u8, 0x44u8, 0x33u8]
            &&& bytes[5] & 0b0001_1111 == 0
            &&& forall|i: int| 6 <= i < 10 ==> bytes[i] < 128
        }),
{
    lemma_valid_bytes(bytes);
}

/// A header of version 2.3.0 is a header of any revision.
pub proof fn lemma_header_exists_is_valid(bytes: Seq<u8>)
    requires
        spec_header_exists(bytes),
    ensures
        spec_valid_bytes(bytes),
{
}

/// The size that a valid header gives is the plain sum of its size bytes by
/// their place: no bit of them is dropped.
pub proof fn lemma_valid_size(bytes: Seq<u8>)
    requires
        spec_valid_bytes(bytes),
    ensures
        spec_header(bytes).size == bytes[6] * 0x20_0000 + bytes[7] * 0x4000 + bytes[8] * 0x80
            + bytes[9],
        spec_header(bytes).size < 0x1000_0000,
{
}

} // verus!
