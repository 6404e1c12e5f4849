//! The live feed: from the bytes of the sensor to the packets that are
//! rendered and published.
//!
//! Reading the device and rendering a packet are the caller's part. What is
//! here turns each piece of input into packets, and says which of them go
//! out.

use crate::dispatch::{
    dispatch, dispatched, field_bytes, kind_of, lemma_dispatch_roundtrip, CategoryKind,
    CategoryPacket, PacketView, RecordView, SubFieldView,
};
use crate::field::{encoded, lemma_value_roundtrip, shape_of, FieldDescriptor, FieldRule, FieldValue};
use crate::frame::FrameView;
use crate::parser::{views, FrameParser};
use crate::scan::{lemma_scan_roundtrip, scan, Scan};
use crate::registry::FieldRegistry;
use vstd::prelude::*;

verus! {

/// The packets of `packets` as mathematical values.
pub open spec fn packet_views(packets: Seq<CategoryPacket>) -> Seq<PacketView> {
    Seq::new(packets.len(), |i: int| packets[i]@)
}

/// The packets that the frames are dispatched to, in order. A malformed
/// frame gives no packet.
pub open spec fn dispatch_each(rules: Map<FieldDescriptor, FieldRule>, frames: Seq<FrameView>) -> Seq<
    PacketView,
>
    decreases frames.len(),
{
    if frames.len() == 0 {
        Seq::empty()
    } else {
        let front = dispatch_each(rules, frames.drop_last());
        match dispatched(rules, frames.last()) {
            Some(packet) => front.push(packet),
            None => front,
        }
    }
}

/// Whether a packet is rendered and published. A packet of an unrecognized
/// category is left out: nothing is sent for it to any peer, and the packets
/// around it go out as usual.
pub open spec fn goes_out(packet: PacketView) -> bool {
    !(packet is Unrecognized)
}

/// Whether `packet` is rendered and published.
pub fn should_publish(packet: &CategoryPacket) -> (out: bool)
    ensures
        out == goes_out(packet@),
{
    match packet {
        CategoryPacket::Unrecognized(_) => false,
        _ => true,
    }
}

/// Feeds the next bytes of the stream to the parser and dispatches every
/// frame that they complete. Malformed frames are dropped.
pub fn decode_chunk(parser: &mut FrameParser, registry: &FieldRegistry, bytes: &[u8]) -> (packets:
    Vec<CategoryPacket>)
    ensures
        packet_views(packets@) == dispatch_each(registry@, scan(old(parser)@ + bytes@).frames),
        final(parser)@ == scan(old(parser)@ + bytes@).rest,
{
    let frames = parser.push(bytes);
    let mut packets: Vec<CategoryPacket> = Vec::new();
    let mut i: usize = 0;
    while i < frames.len()
        invariant
            i <= frames.len(),
            packet_views(packets@) == dispatch_each(registry@, views(frames@).take(i as int)),
        decreases frames.len() - i,
    {
        proof {
            let upto = views(frames@).take(i + 1);
            assert(upto.drop_last() =~= views(frames@).take(i as int));
            assert(upto.last() == frames@[i as int]@);
        }
        match dispatch(registry, &frames[i]) {
            Some(packet) => {
                proof {
                    assert(packet_views(packets@.push(packet)) =~= packet_views(packets@).push(
                        packet@,
                    ));
                }
                packets.push(packet);
            },
            None => {},
        }
        i += 1;
    }
    proof {
        assert(views(frames@).take(i as int) =~= views(frames@));
    }
    packets
}

/// The frame that carries `value` as its one sub-field, of the kind and
/// under the category that `descriptor` names.
pub open spec fn frame_of(descriptor: FieldDescriptor, value: FieldValue) -> FrameView {
    FrameView::sealed(
        descriptor.category,
        field_bytes(SubFieldView { kind: descriptor.kind, data: encoded(value) }),
    )
}

/// A value sent under a registered descriptor of a recognized category comes
/// back exactly: the bytes of its frame are parsed into that one frame, and
/// the frame is dispatched to one record that holds the value under the
/// rule's name.
pub proof fn lemma_roundtrip(
    rules: Map<FieldDescriptor, FieldRule>,
    descriptor: FieldDescriptor,
    value: FieldValue,
)
    requires
        rules.contains_key(descriptor),
        rules[descriptor].shape == shape_of(value),
        kind_of(descriptor.category) != CategoryKind::Unrecognized,
    ensures
        frame_of(descriptor, value).wf(),
        scan(frame_of(descriptor, value).encoding()) == (Scan {
            frames: seq![frame_of(descriptor, value)],
            rest: Seq::empty(),
        }),
        dispatch_each(rules, scan(frame_of(descriptor, value).encoding()).frames) == seq![
            if kind_of(descriptor.category) == CategoryKind::Imu {
                PacketView::Imu(seq![RecordView::Known { name: rules[descriptor].name, value }])
            } else {
                PacketView::Gnss(seq![RecordView::Known { name: rules[descriptor].name, value }])
            },
        ],
{
    let frame = frame_of(descriptor, value);
    lemma_value_roundtrip(value);
    lemma_scan_roundtrip(frame);
    lemma_dispatch_roundtrip(rules, descriptor, value, frame.checksum);
    let frames = seq![frame];
    assert(frames.drop_last() =~= Seq::<FrameView>::empty());
    assert(dispatch_each(rules, frames.drop_last()) =~= Seq::<PacketView>::empty());
    assert(dispatch_each(rules, frames) =~= seq![dispatched(rules, frame)->0]);
}

} // verus!
