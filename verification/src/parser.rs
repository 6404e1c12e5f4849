//! The frame parser: it finds frames in a noisy byte stream, validates their
//! checksums and resynchronizes after every failure.
//!
//! The parser is fed with the stream piece by piece. What it finds is fixed
//! by [`scan`](crate::scan::scan).

use crate::bytes::{append, copy_range};
use crate::checksum::checksum;
use crate::frame::{FrameView, RawFrame, HEADER_LEN, MAX_PAYLOAD, SYNC_ONE, SYNC_TWO, TRAILER_LEN};
use crate::scan::{attempt, candidate, scan};
use vstd::prelude::*;

verus! {

/// The frames of `frames` as mathematical values.
pub open spec fn views(frames: Seq<RawFrame>) -> Seq<FrameView> {
    Seq::new(frames.len(), |i: int| frames[i]@)
}

/// What the parser is waiting for between two calls of `push`.
#[derive(Clone, Copy, Debug, PartialEq, Eq, Structural)]
pub enum ParserState {
    /// No synchronization pattern is pending.
    SeekSync,
    /// The pattern was seen; category and payload length are incomplete.
    ReadHeader,
    /// The header is complete; the payload is not.
    ReadPayload,
    /// The payload is complete; the checksum is not.
    ReadChecksum,
}

/// The state in which a parser rests that holds back the bytes `pending`.
pub open spec fn resting_state(pending: Seq<u8>) -> ParserState {
    if pending.len() < 2 {
        ParserState::SeekSync
    } else if pending.len() < HEADER_LEN {
        ParserState::ReadHeader
    } else if pending.len() < HEADER_LEN + pending[3] {
        ParserState::ReadPayload
    } else {
        ParserState::ReadChecksum
    }
}

/// A parser fed with the stream piece by piece. Between calls it keeps the
/// bytes of a frame that has begun and is not complete yet.
#[derive(Debug)]
pub struct FrameParser {
    pending: Vec<u8>,
}

impl View for FrameParser {
    type V = Seq<u8>;

    /// The bytes held back for the next call.
    closed spec fn view(&self) -> Seq<u8> {
        self.pending@
    }
}

impl FrameParser {
    #[verifier::type_invariant]
    spec fn stalled(self) -> bool {
        attempt(self.pending@) is Wait
    }

    /// A parser that has seen no bytes.
    pub fn new() -> (parser: FrameParser)
        ensures
            parser@ == Seq::<u8>::empty(),
    {
        FrameParser { pending: Vec::new() }
    }

    /// Feeds the next bytes of the stream and returns the frames that they
    /// complete. Validation runs as soon as a frame's checksum has arrived, so
    /// the parser is back at seeking or collecting when the call returns.
    pub fn push(&mut self, bytes: &[u8]) -> (frames: Vec<RawFrame>)
        ensures
            views(frames@) == scan(old(self)@ + bytes@).frames,
            final(self)@ == scan(old(self)@ + bytes@).rest,
    {
        let ghost all = old(self)@ + bytes@;
        let mut buffer: Vec<u8> = Vec::new();
        append(&mut buffer, self.pending.as_slice());
        append(&mut buffer, bytes);
        let mut frames: Vec<RawFrame> = Vec::new();
        let mut at: usize = 0;
        let mut waiting: bool = false;
        proof {
            assert(all.skip(0) =~= all);
            assert(views(frames@) + scan(all).frames =~= scan(all).frames);
        }
        while at < buffer.len() && !waiting
            invariant
                at <= buffer.len(),
                buffer@ == all,
                scan(all).frames == views(frames@) + scan(all.skip(at as int)).frames,
                scan(all).rest == scan(all.skip(at as int)).rest,
                waiting ==> attempt(all.skip(at as int)) is Wait,
            decreases buffer.len() - at + (if waiting { 0int } else { 1int }),
        {
            let ghost here = all.skip(at as int);
            let left: usize = buffer.len() - at;
            proof {
                assert(here.len() == left);
                assert(here.skip(1) =~= all.skip(at + 1));
            }
            if buffer[at] != SYNC_ONE {
                at += 1;
            } else if left < 2 {
                waiting = true;
            } else if buffer[at + 1] != SYNC_TWO {
                at += 1;
            } else if left < HEADER_LEN {
                waiting = true;
            } else {
                let n: usize = buffer[at + 3] as usize;
                let total: usize = HEADER_LEN + n + TRAILER_LEN;
                if left < total {
                    waiting = true;
                } else {
                    let sums = checksum(
                        vstd::slice::slice_subrange(buffer.as_slice(), at + 2, at + 4 + n),
                    );
                    proof {
                        assert(candidate(here).covered() =~= all.subrange(at + 2, at + 4 + n));
                        assert(candidate(here).payload =~= all.subrange(at + 4, at + 4 + n));
                        assert(here.skip(total as int) =~= all.skip(at + total));
                    }
                    if sums.sum1 == buffer[at + 4 + n] && sums.sum2 == buffer[at + 5 + n] {
                        let payload = copy_range(buffer.as_slice(), at + 4, at + 4 + n);
                        let frame = RawFrame::from_parts(buffer[at + 2], payload, sums);
                        proof {
                            assert(frame@ == candidate(here));
                            assert(views(frames@.push(frame)) =~= views(frames@).push(frame@));
                            assert(views(frames@).push(frame@) + scan(
                                all.skip(at + total),
                            ).frames =~= views(frames@) + scan(here).frames);
                        }
                        frames.push(frame);
                        at += total;
                    } else {
                        at += 1;
                    }
                }
            }
        }
        proof {
            assert(attempt(all.skip(at as int)) is Wait);
            assert(views(frames@) + Seq::<FrameView>::empty() =~= views(frames@));
            assert(all.skip(at as int) =~= all.subrange(at as int, all.len() as int));
        }
        let rest = copy_range(buffer.as_slice(), at, buffer.len());
        self.pending = rest;
        frames
    }

    /// What the parser is waiting for.
    pub fn state(&self) -> (state: ParserState)
        ensures
            state == resting_state(self@),
    {
        let held: usize = self.pending.len();
        if held < 2 {
            ParserState::SeekSync
        } else if held < HEADER_LEN {
            ParserState::ReadHeader
        } else if held < HEADER_LEN + self.pending[3] as usize {
            ParserState::ReadPayload
        } else {
            ParserState::ReadChecksum
        }
    }

    /// The number of bytes held back for the next call.
    pub fn pending_len(&self) -> (held: usize)
        ensures
            held == self@.len(),
            held < HEADER_LEN + MAX_PAYLOAD + TRAILER_LEN,
    {
        proof {
            use_type_invariant(self);
        }
        self.pending.len()
    }
}

} // verus!
