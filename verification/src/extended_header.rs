//! The extended header that may follow the tag header.
//!
//! | offset | length | field                                         |
//! |--------|--------|-----------------------------------------------|
//! | 0      | 4      | size of what follows, big-endian              |
//! | 4      | 2      | flags; bit 7 of the first byte: padding       |
//! | 6      | 4      | size of the padding, big-endian               |
//! | 10     | 4      | checksum, present exactly when the size is 10 |
//!
//! The size field frames the header: it is followed by exactly that many
//! bytes. They always hold the flags and the padding size, so a size below 6
//! declares a header too short for its own fields.

use vstd::prelude::*;
use vstd::slice::slice_subrange;
use crate::bytes::{spec_be_u32, spec_bit_set, top_bit_set, u32_from_be_bytes};
use crate::error::ID3Error;
use crate::reader::Reader;

verus! {

/// The size that an extended header at the start of `bytes` declares.
pub open spec fn spec_declared_size(bytes: Seq<u8>) -> nat
    recommends
        bytes.len() >= 4,
{
    spec_be_u32(bytes.subrange(0, 4))
}

/// The length of the whole extended header at the start of `bytes`: its size
/// field and the bytes that the field declares.
pub open spec fn spec_framed_len(bytes: Seq<u8>) -> int
    recommends
        bytes.len() >= 4,
{
    4 + spec_declared_size(bytes) as int
}

/// `bytes` starts with a whole extended header: the size field, and after it
/// as many bytes as it declares, which are enough to hold the fixed fields.
pub open spec fn spec_complete(bytes: Seq<u8>) -> bool {
    &&& bytes.len() >= 4
    &&& spec_declared_size(bytes) >= 6
    &&& bytes.len() >= spec_framed_len(bytes)
}

/// What an extended header says, each field as the bytes it is made of.
pub struct ExtendedHeaderView {
    /// The size field.
    pub size: Seq<u8>,
    /// The two flag bytes.
    pub flags: Seq<u8>,
    /// The padding size field.
    pub padding_size: Seq<u8>,
    /// The checksum field, where there is one.
    pub crc: Option<Seq<u8>>,
}

impl ExtendedHeaderView {
    /// The declared size of the header after its size field.
    pub open spec fn size(self) -> nat {
        spec_be_u32(self.size)
    }

    /// The declared size of the padding at the end of the tag.
    pub open spec fn padding_size(self) -> nat {
        spec_be_u32(self.padding_size)
    }

    /// The flags announce padding: bit 7 of the first flag byte.
    pub open spec fn has_padding(self) -> bool {
        spec_bit_set(self.flags[0], 128)
    }

    /// The checksum as a number, where there is one.
    pub open spec fn crc(self) -> Option<nat> {
        match self.crc {
            Some(bytes) => Some(spec_be_u32(bytes)),
            None => None,
        }
    }

    /// There is a checksum exactly when the size field says 10.
    pub open spec fn wf(self) -> bool {
        self.crc is Some <==> self.size() == 10
    }
}

/// What the extended header at the start of `bytes` says. It has a checksum
/// exactly when it declares a size of 10, whatever its flags are.
pub open spec fn spec_extended_header(bytes: Seq<u8>) -> ExtendedHeaderView
    recommends
        spec_complete(bytes),
{
    ExtendedHeaderView {
        size: bytes.subrange(0, 4),
        flags: bytes.subrange(4, 6),
        padding_size: bytes.subrange(6, 10),
        crc: if spec_declared_size(bytes) == 10 {
            Some(bytes.subrange(10, 14))
        } else {
            None
        },
    }
}

/// A parsed extended header, each field as the bytes it was read from.
#[derive(Clone, Copy, Debug, PartialEq, Eq)]
pub struct ExtendedHeader {
    /// Byte length of the header after this field, big-endian.
    pub size: [u8; 4],
    /// The two flag bytes.
    pub flags: [u8; 2],
    /// Byte length of the padding at the end of the tag, big-endian.
    pub padding_size: [u8; 4],
    /// The checksum, big-endian, where the header has one.
    pub crc: Option<[u8; 4]>,
}

impl View for ExtendedHeader {
    type V = ExtendedHeaderView;

    open spec fn view(&self) -> ExtendedHeaderView {
        ExtendedHeaderView {
            size: self.size@,
            flags: self.flags@,
            padding_size: self.padding_size@,
            crc: match self.crc {
                Some(bytes) => Some(bytes@),
                None => None,
            },
        }
    }
}

impl ExtendedHeader {
    /// Builds the header from the size field and the bytes that follow it.
    fn assemble(size: [u8; 4], body: &[u8]) -> (header: Self)
        requires
            body@.len() == spec_be_u32(size@),
            body@.len() >= 6,
        ensures
            header@ == spec_extended_header(size@ + body@),
    {
        let crc = if body.len() == 10 {
            Some([body[6], body[7], body[8], body[9]])
        } else {
            None
        };
        let header = ExtendedHeader {
            size,
            flags: [body[0], body[1]],
            padding_size: [body[2], body[3], body[4], body[5]],
            crc,
        };
        proof {
            let bytes = size@ + body@;
            assert(bytes.subrange(0, 4) =~= size@);
            assert(header.flags@ =~= bytes.subrange(4, 6));
            assert(header.padding_size@ =~= bytes.subrange(6, 10));
            if crc is Some {
                assert(crc->Some_0@ =~= bytes.subrange(10, 14));
            }
        }
        header
    }

    /// Parses the extended header at the start of `bytes`. Bytes after the
    /// header's declared end are not looked at. There is no header where the
    /// bytes end before it does, and where its declared size is below 6.
    pub fn from_bytes(bytes: &[u8]) -> (r: Option<Self>)
        ensures
            spec_complete(bytes@) ==> ({
                &&& r is Some
                &&& r->Some_0@ == spec_extended_header(bytes@)
                &&& r->Some_0.crc is Some <==> spec_declared_size(bytes@) == 10
            }),
            !spec_complete(bytes@) ==> r is None,
    {
        if bytes.len() < 4 {
            return None;
        }
        let size: [u8; 4] = [bytes[0], bytes[1], bytes[2], bytes[3]];
        assert(size@ =~= bytes@.subrange(0, 4));
        let length: u32 = u32_from_be_bytes(size);
        if length < 6 || ((bytes.len() - 4) as u64) < length as u64 {
            return None;
        }
        let end: usize = 4 + length as usize;
        let body = slice_subrange(bytes, 4, end);
        let header = Self::assemble(size, body);
        proof {
            assert(size@ + body@ =~= bytes@.take(end as int));
            lemma_extended_header_of_prefix(bytes@);
        }
        Some(header)
    }

    /// Reads an extended header: the four bytes of the size field, then as
    /// many bytes as it declares. The read fails where the source holds fewer
    /// bytes than that, and where the declared size is below 6.
    pub fn read_from(reader: &mut Reader) -> (r: Result<Self, ID3Error>)
        ensures
            spec_complete(old(reader)@) ==> ({
                &&& r is Ok
                &&& r->Ok_0@ == spec_extended_header(old(reader)@)
                &&& r->Ok_0.crc is Some <==> spec_declared_size(old(reader)@) == 10
            }),
            !spec_complete(old(reader)@) ==> (r matches Err(ID3Error::NotEnoughBytes)),
            old(reader)@.len() >= 4 && old(reader)@.len() >= spec_framed_len(old(reader)@)
                ==> final(reader)@ == old(reader)@.skip(spec_framed_len(old(reader)@)),
            old(reader)@.len() < 4 || old(reader)@.len() < spec_framed_len(old(reader)@)
                ==> final(reader)@ == Seq::<u8>::empty(),
    {
        let head = match reader.read_n_bytes(4) {
            Ok(head) => head,
            Err(_) => {
                return Err(ID3Error::NotEnoughBytes);
            },
        };
        let size: [u8; 4] = [head[0], head[1], head[2], head[3]];
        assert(size@ =~= old(reader)@.subrange(0, 4));
        let length: u32 = u32_from_be_bytes(size);
        let body = match reader.read_n_bytes(length as usize) {
            Ok(body) => body,
            Err(_) => {
                return Err(ID3Error::NotEnoughBytes);
            },
        };
        assert(reader@ =~= old(reader)@.skip(4 + length as int));
        if length < 6 {
            return Err(ID3Error::NotEnoughBytes);
        }
        let header = Self::assemble(size, body.as_slice());
        proof {
            assert(size@ + body@ =~= old(reader)@.take(4 + length as int));
            lemma_extended_header_of_prefix(old(reader)@);
        }
        Ok(header)
    }

    /// The declared size of the header after its size field.
    pub fn size(&self) -> (size: u32)
        ensures
            size == self@.size(),
    {
        u32_from_be_bytes(self.size)
    }

    /// The checksum, where the header has one.
    pub fn crc(&self) -> (crc: Option<u32>)
        ensures
            crc is Some <==> self@.crc() is Some,
            crc is Some ==> crc->Some_0 == self@.crc()->Some_0,
    {
        match self.crc {
            Some(bytes) => Some(u32_from_be_bytes(bytes)),
            None => None,
        }
    }

    /// The declared size of the padding at the end of the tag.
    pub fn padding_size(&self) -> (size: u32)
        ensures
            size == self@.padding_size(),
    {
        u32_from_be_bytes(self.padding_size)
    }

    /// Whether the flags announce padding: bit 7 of the first flag byte.
    pub fn has_padding(&self) -> (set: bool)
        ensures
            set == self@.has_padding(),
    {
        top_bit_set(self.flags[0])
    }
}

/// What an extended header says depends on its own bytes alone: the size
/// field and the bytes that it declares.
proof fn lemma_extended_header_of_prefix(bytes: Seq<u8>)
    requires
        spec_complete(bytes),
    ensures
        spec_extended_header(bytes.take(spec_framed_len(bytes))) == spec_extended_header(bytes),
{
    let head = bytes.take(spec_framed_len(bytes));
    assert(head.subrange(0, 4) =~= bytes.subrange(0, 4));
    assert(head.subrange(4, 6) =~= bytes.subrange(4, 6));
    assert(head.subrange(6, 10) =~= bytes.subrange(6, 10));
    if spec_declared_size(bytes) == 10 {
        assert(head.subrange(10, 14) =~= bytes.subrange(10, 14));
    }
}

/// A header read from bytes that hold a whole one has a checksum exactly when
/// its size field says 10.
pub proof fn lemma_extended_header_wf(bytes: Seq<u8>)
    requires
        spec_complete(bytes),
    ensures
        spec_extended_header(bytes).wf(),
        spec_extended_header(bytes).crc is Some <==> spec_declared_size(bytes) == 10,
        spec_extended_header(bytes).size() == spec_declared_size(bytes),
{
}

} // verus!
