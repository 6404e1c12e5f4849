//! What the frame parser finds in a stretch of bytes.
//!
//! [`scan`] is the parser as a function: from the bytes seen so far to the
//! frames in them and the bytes that are still undecided. The laws below it
//! say that cutting the stream into pieces changes nothing, that a frame's
//! encoding is read back as that frame, and how the parser finds its way
//! back after a damaged frame.

use crate::checksum::Checksum;
use crate::frame::{FrameView, HEADER_LEN, MAX_PAYLOAD, SYNC_ONE, SYNC_TWO, TRAILER_LEN};
use vstd::prelude::*;

verus! {

/// What the parser does with the bytes in front of it.
pub enum Attempt {
    /// The first byte cannot start a frame, or starts one that fails its
    /// checksum: drop that one byte and look again.
    Skip,
    /// The bytes may start a frame, but more are needed to decide.
    Wait,
    /// The bytes start with a complete frame whose checksum matches.
    Accept,
}

/// The length of the frame that `s` starts with, going by its length byte.
pub open spec fn candidate_len(s: Seq<u8>) -> int {
    HEADER_LEN + s[3] + TRAILER_LEN
}

/// The frame that the first `candidate_len(s)` bytes of `s` spell out.
pub open spec fn candidate(s: Seq<u8>) -> FrameView {
    let n = s[3] as int;
    FrameView {
        category: s[2],
        payload: s.subrange(4, 4 + n),
        checksum: Checksum { sum1: s[4 + n], sum2: s[5 + n] },
    }
}

/// The parser's decision on the bytes `s`.
pub open spec fn attempt(s: Seq<u8>) -> Attempt {
    if s.len() == 0 {
        Attempt::Wait
    } else if s[0] != SYNC_ONE {
        Attempt::Skip
    } else if s.len() < 2 {
        Attempt::Wait
    } else if s[1] != SYNC_TWO {
        Attempt::Skip
    } else if s.len() < HEADER_LEN || s.len() < candidate_len(s) {
        Attempt::Wait
    } else if candidate(s).wf() {
        Attempt::Accept
    } else {
        Attempt::Skip
    }
}

/// The outcome of parsing a stretch of bytes.
pub struct Scan {
    /// The frames found, in stream order.
    pub frames: Seq<FrameView>,
    /// The bytes at the end that wait for more input.
    pub rest: Seq<u8>,
}

/// Parses `s` from its first byte on: accepted frames are taken out whole,
/// everything else is passed over one byte at a time, and parsing stops where
/// more input is needed.
pub open spec fn scan(s: Seq<u8>) -> Scan
    decreases s.len(),
{
    match attempt(s) {
        Attempt::Wait => Scan { frames: Seq::empty(), rest: s },
        Attempt::Skip => scan(s.skip(1)),
        Attempt::Accept => {
            let tail = scan(s.skip(candidate_len(s)));
            Scan { frames: seq![candidate(s)] + tail.frames, rest: tail.rest }
        },
    }
}

/// A decision that does not wait for input stands when more input follows.
pub proof fn lemma_attempt_settled(a: Seq<u8>, b: Seq<u8>)
    requires
        !(attempt(a) is Wait),
    ensures
        attempt(a + b) == attempt(a),
        attempt(a) is Accept ==> candidate(a + b) == candidate(a) && candidate_len(a + b)
            == candidate_len(a),
{
    let s = a + b;
    assert(s[0] == a[0]);
    if a[0] == SYNC_ONE {
        assert(s[1] == a[1]);
        if a[1] == SYNC_TWO {
            assert(s[2] == a[2] && s[3] == a[3]);
            let n = a[3] as int;
            assert(s.subrange(4, 4 + n) =~= a.subrange(4, 4 + n));
            assert(s[4 + n] == a[4 + n] && s[5 + n] == a[5 + n]);
        }
    }
}

/// Every frame that the parser emits carries a checksum that matches its
/// header and payload.
pub proof fn lemma_scan_frames_valid(s: Seq<u8>)
    ensures
        forall|i: int| 0 <= i < scan(s).frames.len() ==> (#[trigger] scan(s).frames[i]).wf(),
    decreases s.len(),
{
    match attempt(s) {
        Attempt::Wait => {
            assert(scan(s).frames.len() == 0);
        },
        Attempt::Skip => {
            lemma_scan_frames_valid(s.skip(1));
            assert(scan(s) == scan(s.skip(1)));
        },
        Attempt::Accept => {
            let tail = scan(s.skip(candidate_len(s)));
            lemma_scan_frames_valid(s.skip(candidate_len(s)));
            assert(scan(s).frames == seq![candidate(s)] + tail.frames);
            assert forall|i: int| 0 <= i < scan(s).frames.len() implies (#[trigger] scan(
                s,
            ).frames[i]).wf() by {
                if i > 0 {
                    assert(scan(s).frames[i] == tail.frames[i - 1]);
                }
            }
        },
    }
}

/// The bytes that the parser holds back are undecided: parsing them again
/// finds no frame and holds back the same bytes. They are the end of the
/// input and shorter than the longest frame.
pub proof fn lemma_scan_rest_waits(s: Seq<u8>)
    ensures
        attempt(scan(s).rest) is Wait,
        scan(scan(s).rest) == (Scan { frames: Seq::empty(), rest: scan(s).rest }),
        scan(s).rest.len() <= s.len(),
        scan(s).rest == s.skip(s.len() - scan(s).rest.len()),
        scan(s).rest.len() < HEADER_LEN + MAX_PAYLOAD + TRAILER_LEN,
    decreases s.len(),
{
    match attempt(s) {
        Attempt::Wait => {
            assert(s.skip(0) =~= s);
        },
        Attempt::Skip => {
            let t = s.skip(1);
            lemma_scan_rest_waits(t);
            assert(t.skip(t.len() - scan(t).rest.len()) =~= s.skip(s.len() - scan(t).rest.len()));
        },
        Attempt::Accept => {
            let t = s.skip(candidate_len(s));
            lemma_scan_rest_waits(t);
            assert(t.skip(t.len() - scan(t).rest.len()) =~= s.skip(s.len() - scan(t).rest.len()));
        },
    }
}

/// Parsing does not depend on how the stream is cut into pieces: parsing `a`,
/// and then what was held back of it together with `b`, finds the frames of
/// `a + b` and holds back the same bytes.
pub proof fn lemma_scan_chunks(a: Seq<u8>, b: Seq<u8>)
    ensures
        scan(a + b).frames == scan(a).frames + scan(scan(a).rest + b).frames,
        scan(a + b).rest == scan(scan(a).rest + b).rest,
    decreases a.len(),
{
    match attempt(a) {
        Attempt::Wait => {
            assert(scan(a).frames + scan(a + b).frames =~= scan(a + b).frames);
        },
        Attempt::Skip => {
            lemma_attempt_settled(a, b);
            lemma_scan_chunks(a.skip(1), b);
            assert((a + b).skip(1) =~= a.skip(1) + b);
        },
        Attempt::Accept => {
            lemma_attempt_settled(a, b);
            let n = candidate_len(a);
            lemma_scan_chunks(a.skip(n), b);
            assert((a + b).skip(n) =~= a.skip(n) + b);
            assert(seq![candidate(a)] + (scan(a.skip(n)).frames + scan(scan(a).rest + b).frames)
                =~= scan(a).frames + scan(scan(a).rest + b).frames);
        },
    }
}

/// Bytes that do not hold the first byte of the synchronization pattern are
/// passed over without a trace: what follows them is parsed as if they had
/// not been there.
pub proof fn lemma_noise_discarded(noise: Seq<u8>, tail: Seq<u8>)
    requires
        forall|i: int| 0 <= i < noise.len() ==> noise[i] != SYNC_ONE,
    ensures
        scan(noise + tail) == scan(tail),
    decreases noise.len(),
{
    if noise.len() == 0 {
        assert(noise + tail =~= tail);
    } else {
        let s = noise + tail;
        assert(s[0] == noise[0]);
        assert(s.skip(1) =~= noise.skip(1) + tail);
        assert forall|i: int| 0 <= i < noise.skip(1).len() implies noise.skip(1)[i] != SYNC_ONE by {
            assert(noise.skip(1)[i] == noise[i + 1]);
        }
        lemma_noise_discarded(noise.skip(1), tail);
    }
}

/// A frame's encoding is parsed back into that frame, whatever follows it.
pub proof fn lemma_scan_encoding(frame: FrameView, tail: Seq<u8>)
    requires
        frame.wf(),
    ensures
        scan(frame.encoding() + tail).frames == seq![frame] + scan(tail).frames,
        scan(frame.encoding() + tail).rest == scan(tail).rest,
{
    let s = frame.encoding() + tail;
    let n = frame.payload.len() as int;
    assert(s[0] == SYNC_ONE && s[1] == SYNC_TWO && s[2] == frame.category && s[3] == n);
    assert(candidate(s).payload =~= frame.payload);
    assert(candidate(s) == frame);
    assert(s.skip(candidate_len(s)) =~= tail);
}

/// A frame's encoding alone is parsed back into that frame, with nothing
/// held back.
pub proof fn lemma_scan_roundtrip(frame: FrameView)
    requires
        frame.wf(),
    ensures
        scan(frame.encoding()) == (Scan { frames: seq![frame], rest: Seq::empty() }),
{
    lemma_scan_encoding(frame, Seq::empty());
    assert(frame.encoding() + Seq::<u8>::empty() =~= frame.encoding());
    assert(seq![frame] + Seq::<FrameView>::empty() =~= seq![frame]);
}

/// Whether the parser, started at the head of `s`, comes to look at the byte
/// at index `k` as the possible start of a frame: no frame accepted on the
/// way reaches over that byte, and no decision before it waits for input.
pub open spec fn lands_on(s: Seq<u8>, k: int) -> bool
    decreases s.len(),
{
    if k <= 0 {
        k == 0
    } else {
        match attempt(s) {
            Attempt::Wait => false,
            Attempt::Skip => lands_on(s.skip(1), k - 1),
            Attempt::Accept => lands_on(s.skip(candidate_len(s)), k - candidate_len(s)),
        }
    }
}

/// The frames that the parser emits from `s` before it looks at index `k`.
pub open spec fn frames_before(s: Seq<u8>, k: int) -> Seq<FrameView>
    decreases s.len(),
{
    if k <= 0 {
        Seq::empty()
    } else {
        match attempt(s) {
            Attempt::Wait => Seq::empty(),
            Attempt::Skip => frames_before(s.skip(1), k - 1),
            Attempt::Accept => seq![candidate(s)] + frames_before(
                s.skip(candidate_len(s)),
                k - candidate_len(s),
            ),
        }
    }
}

/// Where the parser lands on index `k`, the outcome is what it emitted on the
/// way followed by the outcome of parsing from `k` on.
pub proof fn lemma_scan_from_landing(s: Seq<u8>, k: int)
    requires
        lands_on(s, k),
    ensures
        0 <= k <= s.len(),
        scan(s).frames == frames_before(s, k) + scan(s.skip(k)).frames,
        scan(s).rest == scan(s.skip(k)).rest,
    decreases s.len(),
{
    if k <= 0 {
        assert(s.skip(0) =~= s);
        assert(frames_before(s, k) + scan(s).frames =~= scan(s).frames);
    } else {
        match attempt(s) {
            Attempt::Wait => {},
            Attempt::Skip => {
                lemma_scan_from_landing(s.skip(1), k - 1);
                assert(s.skip(1).skip(k - 1) =~= s.skip(k));
            },
            Attempt::Accept => {
                let n = candidate_len(s);
                lemma_scan_from_landing(s.skip(n), k - n);
                assert(s.skip(n).skip(k - n) =~= s.skip(k));
                assert(seq![candidate(s)] + (frames_before(s.skip(n), k - n) + scan(
                    s.skip(k),
                ).frames) =~= frames_before(s, k) + scan(s.skip(k)).frames);
            },
        }
    }
}

/// The bytes `s` are a complete frame by their synchronization pattern and
/// length byte, but the checksum at their end does not match.
pub open spec fn damaged(s: Seq<u8>) -> bool {
    &&& s.len() >= HEADER_LEN + TRAILER_LEN
    &&& s[0] == SYNC_ONE
    &&& s[1] == SYNC_TWO
    &&& s.len() == candidate_len(s)
    &&& !candidate(s).wf()
}

/// The synchronization pattern does not begin anywhere in `s` behind its
/// first byte.
pub open spec fn quiet(s: Seq<u8>) -> bool {
    forall|i: int| 1 <= i < s.len() - 1 ==> !(#[trigger] s[i] == SYNC_ONE && s[i + 1] == SYNC_TWO)
}

/// A frame with a damaged checksum is dropped, and parsing resumes at the
/// byte behind its first: the outcome is that of parsing everything but that
/// first byte.
pub proof fn lemma_damaged_frame_dropped(bad: Seq<u8>, tail: Seq<u8>)
    requires
        damaged(bad),
    ensures
        scan(bad + tail) == scan(bad.skip(1) + tail),
{
    assert(attempt(bad) is Skip);
    lemma_attempt_settled(bad, tail);
    assert((bad + tail).skip(1) =~= bad.skip(1) + tail);
}

/// A valid frame right behind a frame with a damaged checksum is still
/// decoded, and nothing is held back, whenever the parser, resuming behind
/// the first byte of the damaged frame, lands on the start of the valid one.
pub proof fn lemma_resync(bad: Seq<u8>, next: FrameView)
    requires
        damaged(bad),
        next.wf(),
        lands_on(bad.skip(1) + next.encoding(), bad.len() - 1),
    ensures
        scan(bad + next.encoding()).frames == frames_before(
            bad.skip(1) + next.encoding(),
            bad.len() - 1,
        ).push(next),
        scan(bad + next.encoding()).rest == Seq::<u8>::empty(),
{
    let s = bad.skip(1) + next.encoding();
    let k = bad.len() - 1;
    lemma_damaged_frame_dropped(bad, next.encoding());
    lemma_scan_from_landing(s, k);
    assert(s.skip(k) =~= next.encoding());
    lemma_scan_roundtrip(next);
    assert(frames_before(s, k) + seq![next] =~= frames_before(s, k).push(next));
}

/// Where the synchronization pattern does not occur inside the damaged frame,
/// the parser passes over it byte by byte and lands on whatever follows.
pub proof fn lemma_quiet_lands(bad: Seq<u8>, tail: Seq<u8>, from: int)
    requires
        bad.len() >= 1,
        quiet(bad),
        1 <= from <= bad.len(),
        tail.len() >= 1,
        tail[0] != SYNC_TWO,
    ensures
        lands_on(bad.skip(from) + tail, bad.len() - from),
        frames_before(bad.skip(from) + tail, bad.len() - from) == Seq::<FrameView>::empty(),
    decreases bad.len() - from,
{
    if from < bad.len() {
        let s = bad.skip(from) + tail;
        assert(s[0] == bad[from]);
        if bad[from] == SYNC_ONE {
            if from + 1 < bad.len() {
                assert(s[1] == bad[from + 1]);
            } else {
                assert(s[1] == tail[0]);
            }
        }
        assert(attempt(s) is Skip);
        lemma_quiet_lands(bad, tail, from + 1);
        assert(s.skip(1) =~= bad.skip(from + 1) + tail);
    }
}

/// The encoding of `frame` with byte `which` of its checksum replaced by
/// `value`.
pub open spec fn with_checksum_byte(frame: FrameView, which: int, value: u8) -> Seq<u8> {
    frame.encoding().update(frame.encoding().len() - TRAILER_LEN + which, value)
}

/// Changing one byte of a valid frame's checksum leaves a frame that fails
/// validation.
pub proof fn lemma_checksum_damage_detected(frame: FrameView, which: int, value: u8)
    requires
        frame.wf(),
        which == 0 || which == 1,
        value != frame.encoding()[frame.encoding().len() - TRAILER_LEN + which],
    ensures
        damaged(with_checksum_byte(frame, which, value)),
{
    let good = frame.encoding();
    let n = frame.payload.len() as int;
    let bad = with_checksum_byte(frame, which, value);
    assert(good[3] == n);
    assert(candidate(bad).payload =~= frame.payload);
    assert(candidate(bad).covered() == frame.covered());
}

/// Changing one byte of a valid frame's checksum makes the parser drop that
/// frame, and a valid frame right behind it is still decoded, whenever the
/// parser, resuming behind the first byte of the damaged frame, lands on the
/// start of the valid one.
pub proof fn lemma_checksum_damage(first: FrameView, which: int, value: u8, next: FrameView)
    requires
        first.wf(),
        next.wf(),
        which == 0 || which == 1,
        value != first.encoding()[first.encoding().len() - TRAILER_LEN + which],
        lands_on(
            with_checksum_byte(first, which, value).skip(1) + next.encoding(),
            first.encoding().len() - 1,
        ),
    ensures
        scan(with_checksum_byte(first, which, value) + next.encoding()).frames == frames_before(
            with_checksum_byte(first, which, value).skip(1) + next.encoding(),
            first.encoding().len() - 1,
        ).push(next),
        scan(with_checksum_byte(first, which, value) + next.encoding()).rest == Seq::<u8>::empty(),
{
    lemma_checksum_damage_detected(first, which, value);
    lemma_resync(with_checksum_byte(first, which, value), next);
}

/// Changing one byte of a valid frame's checksum, where the synchronization
/// pattern does not occur inside the damaged frame: no frame is decoded from
/// it, and a valid frame right behind it is decoded.
pub proof fn lemma_checksum_damage_quiet(first: FrameView, which: int, value: u8, next: FrameView)
    requires
        first.wf(),
        next.wf(),
        which == 0 || which == 1,
        value != first.encoding()[first.encoding().len() - TRAILER_LEN + which],
        quiet(with_checksum_byte(first, which, value)),
    ensures
        scan(with_checksum_byte(first, which, value) + next.encoding()) == (Scan {
            frames: seq![next],
            rest: Seq::empty(),
        }),
{
    let bad = with_checksum_byte(first, which, value);
    lemma_checksum_damage_detected(first, which, value);
    lemma_quiet_lands(bad, next.encoding(), 1);
    lemma_resync(bad, next);
    assert(Seq::<FrameView>::empty().push(next) =~= seq![next]);
}

} // verus!
