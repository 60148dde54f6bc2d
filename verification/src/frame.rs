//! Frames: a header of ten bytes, then as many bytes of payload as the header
//! declares.
//!
//! | offset | length | field                               |
//! |--------|--------|-------------------------------------|
//! | 0      | 4      | the frame's identifier              |
//! | 4      | 4      | size of the payload, big-endian     |
//! | 8      | 2      | flags                               |
//! | 10     | size   | the payload                         |

use vstd::prelude::*;
use crate::bytes::{spec_be_u32, u32_from_be_bytes};
use crate::error::ID3Error;
use crate::reader::Reader;
use crate::text::{latin1_from_bytes, spec_all_ascii, spec_latin1};

verus! {

/// The payload size that a frame header at the start of `bytes` declares.
pub open spec fn spec_declared_size(bytes: Seq<u8>) -> nat
    recommends
        bytes.len() >= 10,
{
    spec_be_u32(bytes.subrange(4, 8))
}

/// The length of the whole frame at the start of `bytes`: its header and the
/// payload that the header declares.
pub open spec fn spec_framed_len(bytes: Seq<u8>) -> int
    recommends
        bytes.len() >= 10,
{
    10 + spec_declared_size(bytes) as int
}

/// `bytes` starts with a whole frame.
pub open spec fn spec_complete(bytes: Seq<u8>) -> bool {
    &&& bytes.len() >= 10
    &&& bytes.len() >= spec_framed_len(bytes)
}

/// What a frame header says, each field as the bytes it is made of.
pub struct FrameHeaderView {
    /// The identifier of the frame.
    pub frame_id: Seq<u8>,
    /// The size field.
    pub size: Seq<u8>,
    /// The two flag bytes.
    pub flags: Seq<u8>,
}

impl FrameHeaderView {
    /// The declared byte length of the payload.
    pub open spec fn size(self) -> nat {
        spec_be_u32(self.size)
    }

    /// The identifier as text, one character for each byte.
    pub open spec fn id(self) -> Seq<char> {
        spec_latin1(self.frame_id)
    }
}

/// What the first ten bytes of `bytes` say when they are read as a frame
/// header.
pub open spec fn spec_frame_header(bytes: Seq<u8>) -> FrameHeaderView
    recommends
        bytes.len() >= 10,
{
    FrameHeaderView {
        frame_id: bytes.subrange(0, 4),
        size: bytes.subrange(4, 8),
        flags: bytes.subrange(8, 10),
    }
}

/// What a frame holds, as plain values.
pub struct FrameView {
    /// The identifier of the frame.
    pub id: Seq<u8>,
    /// The size field.
    pub size: Seq<u8>,
    /// The two flag bytes.
    pub flags: Seq<u8>,
    /// The payload.
    pub data: Seq<u8>,
}

impl FrameView {
    /// The declared byte length of the payload.
    pub open spec fn size(self) -> nat {
        spec_be_u32(self.size)
    }

    /// The identifier as text, one character for each byte.
    pub open spec fn id(self) -> Seq<char> {
        spec_latin1(self.id)
    }

    /// The payload is as long as the size field says.
    pub open spec fn wf(self) -> bool {
        self.data.len() == self.size()
    }
}

/// The frame at the start of `bytes`: what its header says, and the payload
/// of the declared length that follows the header.
pub open spec fn spec_frame(bytes: Seq<u8>) -> FrameView
    recommends
        spec_complete(bytes),
{
    FrameView {
        id: bytes.subrange(0, 4),
        size: bytes.subrange(4, 8),
        flags: bytes.subrange(8, 10),
        data: bytes.subrange(10, spec_framed_len(bytes)),
    }
}

/// The frames that, one after another, fill the first `budget` bytes of
/// `bytes` exactly. There are none where they do not: where fewer than ten
/// bytes of the budget are left for a header, where a frame would end after
/// the budget does, or where the bytes end before a frame does.
pub open spec fn spec_frames(bytes: Seq<u8>, budget: int) -> Option<Seq<FrameView>>
    decreases budget,
{
    if budget <= 0 {
        Some(Seq::empty())
    } else if budget < 10 || !spec_complete(bytes) || spec_framed_len(bytes) > budget {
        None
    } else {
        match spec_frames(bytes.skip(spec_framed_len(bytes)), budget - spec_framed_len(bytes)) {
            Some(rest) => Some(seq![spec_frame(bytes)] + rest),
            None => None,
        }
    }
}

/// The header of a frame, each field as the bytes it was read from.
#[derive(Clone, Copy, Debug, PartialEq, Eq)]
pub struct FrameHeader {
    /// The identifier of the frame, such as "TIT2".
    pub frame_id: [u8; 4],
    /// Byte length of the payload, big-endian.
    pub size: [u8; 4],
    /// The two flag bytes.
    pub flags: [u8; 2],
}

impl View for FrameHeader {
    type V = FrameHeaderView;

    open spec fn view(&self) -> FrameHeaderView {
        FrameHeaderView { frame_id: self.frame_id@, size: self.size@, flags: self.flags@ }
    }
}

impl FrameHeader {
    /// Reads the ten bytes of a frame header. Nothing is asked of what they
    /// hold.
    pub fn read_from(reader: &mut Reader) -> (r: Result<Self, ID3Error>)
        ensures
            old(reader)@.len() >= 10 ==> ({
                &&& r is Ok
                &&& r->Ok_0@ == spec_frame_header(old(reader)@)
                &&& final(reader)@ == old(reader)@.skip(10)
            }),
            old(reader)@.len() < 10 ==> ({
                &&& r matches Err(ID3Error::NotEnoughBytes)
                &&& final(reader)@ == Seq::<u8>::empty()
            }),
    {
        let bytes = match reader.read_n_bytes(10) {
            Ok(bytes) => bytes,
            Err(_) => {
                return Err(ID3Error::NotEnoughBytes);
            },
        };
        let header = FrameHeader {
            frame_id: [bytes[0], bytes[1], bytes[2], bytes[3]],
            size: [bytes[4], bytes[5], bytes[6], bytes[7]],
            flags: [bytes[8], bytes[9]],
        };
        proof {
            assert(header.frame_id@ =~= old(reader)@.subrange(0, 4));
            assert(header.size@ =~= old(reader)@.subrange(4, 8));
            assert(header.flags@ =~= old(reader)@.subrange(8, 10));
        }
        Ok(header)
    }

    /// The declared byte length of the payload.
    pub fn size(&self) -> (size: u32)
        ensures
            size == self@.size(),
    {
        u32_from_be_bytes(self.size)
    }

    /// The identifier as text, one character for each of its four bytes.
    pub fn id(&self) -> (id: String)
        requires
            spec_all_ascii(self@.frame_id),
        ensures
            id@ == self@.id(),
    {
        latin1_from_bytes(self.frame_id.as_slice())
    }
}

/// A frame: what its header says, and its payload.
#[derive(Debug, PartialEq, Eq)]
pub struct Frame {
    /// The identifier of the frame, such as "TIT2".
    pub id: [u8; 4],
    /// Byte length of the payload, big-endian.
    pub size: [u8; 4],
    /// The two flag bytes.
    pub flags: [u8; 2],
    /// The payload.
    pub data: Vec<u8>,
}

impl View for Frame {
    type V = FrameView;

    open spec fn view(&self) -> FrameView {
        FrameView { id: self.id@, size: self.size@, flags: self.flags@, data: self.data@ }
    }
}

impl DeepView for Frame {
    type V = FrameView;

    open spec fn deep_view(&self) -> FrameView {
        self@
    }
}

impl Frame {
    /// Reads the payload that `header` declares and joins the two to a frame.
    /// `head` is the ten bytes that `header` was read from.
    fn read_payload(header: FrameHeader, reader: &mut Reader, Ghost(head): Ghost<Seq<u8>>) -> (r:
        Result<Self, ID3Error>)
        requires
            head.len() == 10,
            header@ == spec_frame_header(head),
        ensures
            old(reader)@.len() >= spec_declared_size(head) ==> ({
                &&& r is Ok
                &&& r->Ok_0@ == spec_frame(head + old(reader)@)
                &&& final(reader)@ == old(reader)@.skip(spec_declared_size(head) as int)
            }),
            old(reader)@.len() < spec_declared_size(head) ==> ({
                &&& r matches Err(ID3Error::NotEnoughBytes)
                &&& final(reader)@ == Seq::<u8>::empty()
            }),
    {
        let size: u32 = header.size();
        let data = match reader.read_n_bytes(size as usize) {
            Ok(data) => data,
            Err(_) => {
                return Err(ID3Error::NotEnoughBytes);
            },
        };
        let frame = Frame { id: header.frame_id, size: header.size, flags: header.flags, data };
        proof {
            let bytes = head + old(reader)@;
            assert(bytes.subrange(0, 4) =~= head.subrange(0, 4));
            assert(bytes.subrange(4, 8) =~= head.subrange(4, 8));
            assert(bytes.subrange(8, 10) =~= head.subrange(8, 10));
            assert(frame.data@ =~= bytes.subrange(10, 10 + size as int));
        }
        Ok(frame)
    }

    /// Reads a frame: the ten bytes of its header, then the payload of the
    /// length that the header declares. The read fails where the source holds
    /// fewer bytes than that; no frame is ever cut short.
    pub fn from_reader(reader: &mut Reader) -> (r: Result<Self, ID3Error>)
        ensures
            spec_complete(old(reader)@) ==> ({
                &&& r is Ok
                &&& r->Ok_0@ == spec_frame(old(reader)@)
                &&& r->Ok_0@.wf()
                &&& final(reader)@ == old(reader)@.skip(spec_framed_len(old(reader)@))
            }),
            !spec_complete(old(reader)@) ==> ({
                &&& r matches Err(ID3Error::NotEnoughBytes)
                &&& final(reader)@ == Seq::<u8>::empty()
            }),
    {
        let header = match FrameHeader::read_from(reader) {
            Ok(header) => header,
            Err(_) => {
                return Err(ID3Error::NotEnoughBytes);
            },
        };
        let ghost head = old(reader)@.take(10);
        proof {
            lemma_frame_header_of_prefix(old(reader)@);
            assert(head + reader@ =~= old(reader)@);
        }
        let r = Self::read_payload(header, reader, Ghost(head));
        proof {
            if spec_complete(old(reader)@) {
                assert(reader@ =~= old(reader)@.skip(spec_framed_len(old(reader)@)));
            }
        }
        r
    }

    /// The declared byte length of the payload.
    pub fn size(&self) -> (size: u32)
        ensures
            size == self@.size(),
    {
        u32_from_be_bytes(self.size)
    }

    /// The identifier as text, one character for each of its four bytes.
    pub fn id(&self) -> (id: String)
        requires
            spec_all_ascii(self@.id),
        ensures
            id@ == self@.id(),
    {
        latin1_from_bytes(self.id.as_slice())
    }
}

/// `rest` with the frames `done` before it.
spec fn spec_frames_after(done: Seq<FrameView>, rest: Option<Seq<FrameView>>) -> Option<
    Seq<FrameView>,
> {
    match rest {
        Some(frames) => Some(done + frames),
        None => None,
    }
}

/// Reads the frames of a tag body: frame after frame until exactly `size`
/// bytes have been consumed. `size` counts the bytes that hold frames, not a
/// padding that may follow them.
///
/// Never more than `size` bytes are consumed: a frame whose payload would
/// reach past them is not read, and the read fails.
pub fn read_frames(reader: &mut Reader, size: u32) -> (r: Result<Vec<Frame>, ID3Error>)
    ensures
        spec_frames(old(reader)@, size as int) matches Some(frames) ==> ({
            &&& r is Ok
            &&& r->Ok_0.deep_view() == frames
            &&& final(reader)@ == old(reader)@.skip(size as int)
        }),
        spec_frames(old(reader)@, size as int) is None ==> (r matches Err(
            ID3Error::NotEnoughBytes,
        )),
        old(reader)@.len() - final(reader)@.len() <= size,
        final(reader)@ == old(reader)@.skip(old(reader)@.len() - final(reader)@.len()),
{
    let mut frames: Vec<Frame> = Vec::new();
    let mut left: u32 = size;
    while left > 0
        invariant
            left <= size,
            size - left <= old(reader)@.len(),
            reader@ == old(reader)@.skip(size - left),
            spec_frames(old(reader)@, size as int) == spec_frames_after(
                frames.deep_view(),
                spec_frames(reader@, left as int),
            ),
        decreases left,
    {
        let ghost before = reader@;
        let ghost done = frames.deep_view();
        if left < 10 {
            assert(reader@ =~= old(reader)@.skip(old(reader)@.len() - reader@.len()));
            return Err(ID3Error::NotEnoughBytes);
        }
        let header = match FrameHeader::read_from(reader) {
            Ok(header) => header,
            Err(_) => {
                assert(reader@ =~= old(reader)@.skip(old(reader)@.len() - reader@.len()));
                return Err(ID3Error::NotEnoughBytes);
            },
        };
        let ghost head = before.take(10);
        proof {
            lemma_frame_header_of_prefix(before);
            assert(head + reader@ =~= before);
        }
        let length: u32 = header.size();
        if length > left - 10 {
            assert(reader@ =~= old(reader)@.skip(old(reader)@.len() - reader@.len()));
            return Err(ID3Error::NotEnoughBytes);
        }
        let frame = match Frame::read_payload(header, reader, Ghost(head)) {
            Ok(frame) => frame,
            Err(_) => {
                assert(reader@ =~= old(reader)@.skip(old(reader)@.len() - reader@.len()));
                return Err(ID3Error::NotEnoughBytes);
            },
        };
        frames.push(frame);
        left = left - 10 - length;
        proof {
            assert(reader@ =~= before.skip(spec_framed_len(before)));
            assert(reader@ =~= old(reader)@.skip(size - left));
            assert(frames.deep_view() =~= done.push(spec_frame(before)));
            match spec_frames(reader@, left as int) {
                Some(rest) => {
                    assert(done + (seq![spec_frame(before)] + rest) =~= done.push(
                        spec_frame(before),
                    ) + rest);
                },
                None => {},
            }
        }
    }
    proof {
        assert(reader@ =~= old(reader)@.skip(old(reader)@.len() - reader@.len()));
        assert(frames.deep_view() + Seq::<FrameView>::empty() =~= frames.deep_view());
    }
    Ok(frames)
}

/// What a frame header says depends on the first ten bytes alone.
proof fn lemma_frame_header_of_prefix(bytes: Seq<u8>)
    requires
        bytes.len() >= 10,
    ensures
        spec_frame_header(bytes.take(10)) == spec_frame_header(bytes),
        spec_declared_size(bytes.take(10)) == spec_declared_size(bytes),
{
    let head = bytes.take(10);
    assert(head.subrange(0, 4) =~= bytes.subrange(0, 4));
    assert(head.subrange(4, 8) =~= bytes.subrange(4, 8));
    assert(head.subrange(8, 10) =~= bytes.subrange(8, 10));
}

/// A frame read from bytes that hold a whole one has a payload as long as
/// its size field says, and its header is the frame header of the same bytes.
pub proof fn lemma_frame_wf(bytes: Seq<u8>)
    requires
        spec_complete(bytes),
    ensures
        spec_frame(bytes).wf(),
        spec_frame(bytes).size() == spec_declared_size(bytes),
        spec_frame(bytes).id == spec_frame_header(bytes).frame_id,
        spec_frame(bytes).size == spec_frame_header(bytes).size,
        spec_frame(bytes).flags == spec_frame_header(bytes).flags,
{
}

/// The bytes that a sequence of frames takes up: ten for each header, and
/// each payload.
pub open spec fn spec_total_len(frames: Seq<FrameView>) -> int
    decreases frames.len(),
{
    if frames.len() == 0 {
        0
    } else {
        10 + frames[0].data.len() + spec_total_len(frames.drop_first())
    }
}

/// Frames that fill a budget take up exactly the budget, each of them is
/// whole, and the bytes hold at least the budget.
pub proof fn lemma_frames_fill_budget(bytes: Seq<u8>, budget: int)
    requires
        budget >= 0,
        spec_frames(bytes, budget) is Some,
    ensures
        budget <= bytes.len(),
        forall|k: int|
            #![trigger spec_frames(bytes, budget)->Some_0[k]]
            0 <= k < spec_frames(bytes, budget)->Some_0.len() ==> spec_frames(
                bytes,
                budget,
            )->Some_0[k].wf(),
        spec_total_len(spec_frames(bytes, budget)->Some_0) == budget,
    decreases budget,
{
    if budget > 0 {
        let len: int = spec_framed_len(bytes);
        let rest = spec_frames(bytes.skip(len), budget - len)->Some_0;
        lemma_frames_fill_budget(bytes.skip(len), budget - len);
        let all = seq![spec_frame(bytes)] + rest;
        assert(all.drop_first() =~= rest);
        assert forall|k: int| 0 <= k < all.len() implies (#[trigger] all[k]).wf() by {
            if k > 0 {
                assert(all[k] == rest[k - 1]);
            }
        }
    }
}

} // verus!
