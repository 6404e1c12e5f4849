//! One protocol unit on the wire: two synchronization bytes, a header of
//! category and payload length, the payload, and a checksum over header and
//! payload.

use crate::bytes::append;
use crate::checksum::{checksum, fletcher, Checksum};
use vstd::prelude::*;

verus! {

/// First byte of the synchronization pattern.
pub const SYNC_ONE: u8 = 0x75;

/// Second byte of the synchronization pattern.
pub const SYNC_TWO: u8 = 0x65;

/// Bytes in front of the payload: the synchronization pattern, the category
/// and the payload length.
pub const HEADER_LEN: usize = 4;

/// Bytes behind the payload: the checksum.
pub const TRAILER_LEN: usize = 2;

/// The longest payload that the length byte can announce.
pub const MAX_PAYLOAD: usize = 255;

/// A frame as a mathematical value.
pub struct FrameView {
    pub category: u8,
    pub payload: Seq<u8>,
    pub checksum: Checksum,
}

impl FrameView {
    /// The bytes that the checksum covers: category, payload length, payload.
    pub open spec fn covered(self) -> Seq<u8> {
        seq![self.category, self.payload.len() as u8] + self.payload
    }

    /// The payload fits the length byte and the checksum is the one of the
    /// covered bytes.
    pub open spec fn wf(self) -> bool {
        &&& self.payload.len() <= MAX_PAYLOAD
        &&& self.checksum == fletcher(self.covered())
    }

    /// The frame with the given content and the checksum that belongs to it.
    pub open spec fn sealed(category: u8, payload: Seq<u8>) -> FrameView {
        let open = FrameView { category, payload, checksum: Checksum { sum1: 0, sum2: 0 } };
        FrameView { category, payload, checksum: fletcher(open.covered()) }
    }

    /// The bytes of the frame on the wire.
    pub open spec fn encoding(self) -> Seq<u8> {
        seq![SYNC_ONE, SYNC_TWO] + self.covered() + seq![self.checksum.sum1, self.checksum.sum2]
    }
}

/// A validated frame: its checksum has been checked against its header and
/// payload, or computed from them.
#[derive(Debug, PartialEq, Eq)]
pub struct RawFrame {
    category: u8,
    payload: Vec<u8>,
    checksum: Checksum,
}

impl View for RawFrame {
    type V = FrameView;

    closed spec fn view(&self) -> FrameView {
        FrameView { category: self.category, payload: self.payload@, checksum: self.checksum }
    }
}

impl RawFrame {
    #[verifier::type_invariant]
    spec fn valid(self) -> bool {
        self@.wf()
    }

    /// Builds the frame that carries `payload` under `category`, unless the
    /// payload is too long for the length byte.
    pub fn new(category: u8, payload: Vec<u8>) -> (frame: Option<RawFrame>)
        ensures
            payload@.len() > MAX_PAYLOAD ==> frame is None,
            payload@.len() <= MAX_PAYLOAD ==> frame is Some && frame->0@ == FrameView::sealed(
                category,
                payload@,
            ),
    {
        if payload.len() > MAX_PAYLOAD {
            return None;
        }
        let mut covered: Vec<u8> = Vec::new();
        covered.push(category);
        covered.push(payload.len() as u8);
        append(&mut covered, payload.as_slice());
        let sums = checksum(covered.as_slice());
        proof {
            assert(covered@ =~= FrameView::sealed(category, payload@).covered());
        }
        Some(RawFrame { category, payload, checksum: sums })
    }

    /// Takes over a frame whose parts were read off the wire and validated.
    pub(crate) fn from_parts(category: u8, payload: Vec<u8>, sums: Checksum) -> (frame: RawFrame)
        requires
            (FrameView { category, payload: payload@, checksum: sums }).wf(),
        ensures
            frame@ == (FrameView { category, payload: payload@, checksum: sums }),
    {
        RawFrame { category, payload, checksum: sums }
    }

    /// The category byte of the frame.
    pub fn category(&self) -> (category: u8)
        ensures
            category == self@.category,
    {
        self.category
    }

    /// The payload of the frame.
    pub fn payload(&self) -> (payload: &[u8])
        ensures
            payload@ == self@.payload,
            payload@.len() <= MAX_PAYLOAD,
    {
        proof {
            use_type_invariant(self);
        }
        self.payload.as_slice()
    }

    /// The checksum of the frame, which matches its header and payload.
    pub fn checksum(&self) -> (sums: Checksum)
        ensures
            sums == self@.checksum,
            self@.wf(),
    {
        proof {
            use_type_invariant(self);
        }
        self.checksum
    }

    /// Writes the frame as it goes over the wire.
    pub fn encode(&self) -> (bytes: Vec<u8>)
        ensures
            bytes@ == self@.encoding(),
            self@.wf(),
    {
        proof {
            use_type_invariant(self);
        }
        let mut bytes: Vec<u8> = Vec::new();
        bytes.push(SYNC_ONE);
        bytes.push(SYNC_TWO);
        bytes.push(self.category);
        bytes.push(self.payload.len() as u8);
        append(&mut bytes, self.payload.as_slice());
        bytes.push(self.checksum.sum1);
        bytes.push(self.checksum.sum2);
        proof {
            assert(bytes@ =~= self@.encoding());
        }
        bytes
    }
}

impl Clone for RawFrame {
    fn clone(&self) -> (copy: RawFrame)
        ensures
            copy@ == self@,
    {
        proof {
            use_type_invariant(self);
        }
        let mut payload: Vec<u8> = Vec::new();
        append(&mut payload, self.payload.as_slice());
        RawFrame { category: self.category, payload, checksum: self.checksum }
    }
}

} // verus!
