//! The dispatcher: it splits a frame's payload into sub-fields, decodes each
//! through the registry, and groups the results by the frame's category.
//!
//! A sub-field is a length byte, a kind byte, and as many data bytes as the
//! length byte says. The sub-fields of a payload follow each other without
//! gaps and fill it exactly.

use crate::bytes::{append, copy_range};
use crate::field::{
    decoded, encoded, lemma_value_roundtrip, shape_of, width_of, FieldDescriptor, FieldName,
    FieldRule, FieldValue,
};
use crate::frame::{FrameView, RawFrame, MAX_PAYLOAD};
use crate::registry::{FieldRegistry, CATEGORY_GNSS, CATEGORY_IMU};
use vstd::prelude::*;

verus! {

/// Bytes in front of a sub-field's data: its length and its kind.
pub const FIELD_HEADER_LEN: usize = 2;

/// One sub-field of a payload, before decoding. It borrows its data from the
/// frame.
#[derive(Clone, Copy, Debug, PartialEq, Eq)]
pub struct RawSubField<'a> {
    pub kind: u8,
    pub data: &'a [u8],
}

/// A sub-field as a mathematical value.
pub struct SubFieldView {
    pub kind: u8,
    pub data: Seq<u8>,
}

impl<'a> View for RawSubField<'a> {
    type V = SubFieldView;

    open spec fn view(&self) -> SubFieldView {
        SubFieldView { kind: self.kind, data: self.data@ }
    }
}

/// The outcome of decoding one sub-field.
#[derive(Debug, PartialEq, Eq)]
pub enum DecodedRecord {
    /// The descriptor has a rule: the value under the rule's name.
    Known { name: FieldName, value: FieldValue },
    /// The descriptor has no rule: the sub-field as it came.
    Opaque { kind: u8, bytes: Vec<u8> },
}

/// A decoded record as a mathematical value.
pub enum RecordView {
    Known { name: FieldName, value: FieldValue },
    Opaque { kind: u8, bytes: Seq<u8> },
}

impl View for DecodedRecord {
    type V = RecordView;

    open spec fn view(&self) -> RecordView {
        match *self {
            DecodedRecord::Known { name, value } => RecordView::Known { name, value },
            DecodedRecord::Opaque { kind, bytes } => RecordView::Opaque { kind, bytes: bytes@ },
        }
    }
}

/// The groups into which frames fall by their category byte.
#[derive(Clone, Copy, Debug, PartialEq, Eq, Structural)]
pub enum CategoryKind {
    /// Inertial measurements.
    Imu,
    /// Satellite navigation.
    Gnss,
    /// Any other category.
    Unrecognized,
}

/// The decoded content of one frame.
#[derive(Debug, PartialEq, Eq)]
pub enum CategoryPacket {
    /// The records of an inertial measurement frame, in payload order.
    Imu(Vec<DecodedRecord>),
    /// The records of a satellite navigation frame, in payload order.
    Gnss(Vec<DecodedRecord>),
    /// A frame of another category, untouched.
    Unrecognized(RawFrame),
}

/// A packet as a mathematical value.
pub enum PacketView {
    Imu(Seq<RecordView>),
    Gnss(Seq<RecordView>),
    Unrecognized(FrameView),
}

/// The records of `records` as mathematical values.
pub open spec fn record_views(records: Seq<DecodedRecord>) -> Seq<RecordView> {
    Seq::new(records.len(), |i: int| records[i]@)
}

/// The sub-fields of `fields` as mathematical values.
pub open spec fn field_views(fields: Seq<RawSubField<'_>>) -> Seq<SubFieldView> {
    Seq::new(fields.len(), |i: int| fields[i]@)
}

impl View for CategoryPacket {
    type V = PacketView;

    open spec fn view(&self) -> PacketView {
        match *self {
            CategoryPacket::Imu(records) => PacketView::Imu(record_views(records@)),
            CategoryPacket::Gnss(records) => PacketView::Gnss(record_views(records@)),
            CategoryPacket::Unrecognized(frame) => PacketView::Unrecognized(frame@),
        }
    }
}

/// The group of a category byte.
pub open spec fn kind_of(category: u8) -> CategoryKind {
    if category == CATEGORY_IMU {
        CategoryKind::Imu
    } else if category == CATEGORY_GNSS {
        CategoryKind::Gnss
    } else {
        CategoryKind::Unrecognized
    }
}

/// The sub-fields that fill `payload` exactly, or `None` where the length
/// bytes do not add up to the payload's length.
pub open spec fn split(payload: Seq<u8>) -> Option<Seq<SubFieldView>>
    decreases payload.len(),
{
    if payload.len() == 0 {
        Some(Seq::empty())
    } else if payload.len() < FIELD_HEADER_LEN || payload.len() < FIELD_HEADER_LEN + payload[0] {
        None
    } else {
        let end = FIELD_HEADER_LEN + payload[0];
        match split(payload.skip(end)) {
            Some(more) => Some(
                seq![SubFieldView { kind: payload[1], data: payload.subrange(2, end) }] + more,
            ),
            None => None,
        }
    }
}

/// The bytes of one sub-field: length, kind, data.
pub open spec fn field_bytes(field: SubFieldView) -> Seq<u8> {
    seq![field.data.len() as u8, field.kind] + field.data
}

/// The payload made of the given sub-fields, one after the other.
pub open spec fn joined(fields: Seq<SubFieldView>) -> Seq<u8>
    decreases fields.len(),
{
    if fields.len() == 0 {
        Seq::empty()
    } else {
        field_bytes(fields.first()) + joined(fields.drop_first())
    }
}

/// The record that one sub-field of a frame of the given category decodes
/// to: the value under the rule of its descriptor, or the sub-field as it
/// came where the descriptor has no rule. `None` where the descriptor has a
/// rule and the data has not the width that the rule expects.
pub open spec fn decode_one(
    rules: Map<FieldDescriptor, FieldRule>,
    category: u8,
    field: SubFieldView,
) -> Option<RecordView> {
    let descriptor = FieldDescriptor { category, kind: field.kind };
    if rules.contains_key(descriptor) {
        let rule = rules[descriptor];
        if field.data.len() == width_of(rule.shape) {
            Some(RecordView::Known { name: rule.name, value: decoded(rule.shape, field.data) })
        } else {
            None
        }
    } else {
        Some(RecordView::Opaque { kind: field.kind, bytes: field.data })
    }
}

/// The records of all the sub-fields, in order, or `None` if one of them
/// cannot be decoded.
pub open spec fn decode_all(
    rules: Map<FieldDescriptor, FieldRule>,
    category: u8,
    fields: Seq<SubFieldView>,
) -> Option<Seq<RecordView>>
    decreases fields.len(),
{
    if fields.len() == 0 {
        Some(Seq::empty())
    } else {
        match (
            decode_all(rules, category, fields.drop_last()),
            decode_one(rules, category, fields.last()),
        ) {
            (Some(front), Some(last)) => Some(front.push(last)),
            _ => None,
        }
    }
}

/// The packet that a frame is dispatched to. A frame of an unrecognized
/// category is passed through untouched. A frame of a recognized category
/// gives the records of its sub-fields, or `None` if it is malformed: its
/// sub-fields do not fill the payload exactly, or one of them has a rule and
/// not the width that the rule expects.
pub open spec fn dispatched(rules: Map<FieldDescriptor, FieldRule>, frame: FrameView) -> Option<
    PacketView,
> {
    match kind_of(frame.category) {
        CategoryKind::Unrecognized => Some(PacketView::Unrecognized(frame)),
        kind => match split(frame.payload) {
            None => None,
            Some(fields) => match decode_all(rules, frame.category, fields) {
                None => None,
                Some(records) => Some(
                    if kind == CategoryKind::Imu {
                        PacketView::Imu(records)
                    } else {
                        PacketView::Gnss(records)
                    },
                ),
            },
        },
    }
}

/// The group of a category byte.
pub fn category_kind(category: u8) -> (kind: CategoryKind)
    ensures
        kind == kind_of(category),
{
    if category == CATEGORY_IMU {
        CategoryKind::Imu
    } else if category == CATEGORY_GNSS {
        CategoryKind::Gnss
    } else {
        CategoryKind::Unrecognized
    }
}

/// Splits a payload into its sub-fields. `None` where the sub-fields do not
/// fill the payload exactly.
pub fn split_payload<'a>(payload: &'a [u8]) -> (fields: Option<Vec<RawSubField<'a>>>)
    ensures
        fields is Some ==> split(payload@) == Some(field_views(fields->0@)),
        fields is None ==> split(payload@) is None,
{
    let mut fields: Vec<RawSubField<'a>> = Vec::new();
    let mut at: usize = 0;
    proof {
        assert(payload@.skip(0) =~= payload@);
    }
    while at < payload.len()
        invariant
            at <= payload.len(),
            split(payload@) == match split(payload@.skip(at as int)) {
                Some(more) => Some(field_views(fields@) + more),
                None => None,
            },
        decreases payload.len() - at,
    {
        let ghost here = payload@.skip(at as int);
        let left: usize = payload.len() - at;
        if left < FIELD_HEADER_LEN {
            return None;
        }
        let n: usize = payload[at] as usize;
        if left < FIELD_HEADER_LEN + n {
            return None;
        }
        let end: usize = at + FIELD_HEADER_LEN + n;
        let field = RawSubField {
            kind: payload[at + 1],
            data: vstd::slice::slice_subrange(payload, at + FIELD_HEADER_LEN, end),
        };
        proof {
            assert(here.skip(FIELD_HEADER_LEN + n) =~= payload@.skip(end as int));
            assert(here.subrange(2, FIELD_HEADER_LEN + n) =~= field@.data);
            assert(field_views(fields@.push(field)) =~= field_views(fields@).push(field@));
            match split(payload@.skip(end as int)) {
                Some(more) => {
                    assert(field_views(fields@) + (seq![field@] + more) =~= field_views(
                        fields@,
                    ).push(field@) + more);
                },
                None => {},
            }
        }
        fields.push(field);
        at = end;
    }
    proof {
        assert(payload@.skip(at as int) =~= Seq::<u8>::empty());
        assert(field_views(fields@) + Seq::<SubFieldView>::empty() =~= field_views(fields@));
    }
    Some(fields)
}

/// Decodes one sub-field of a frame of the given category. `None` where the
/// descriptor has a rule and the data has not the width that the rule
/// expects.
pub fn decode_field(registry: &FieldRegistry, category: u8, field: &RawSubField<'_>) -> (record:
    Option<DecodedRecord>)
    ensures
        record is Some ==> decode_one(registry@, category, field@) == Some(record->0@),
        record is None ==> decode_one(registry@, category, field@) is None,
{
    match registry.lookup(FieldDescriptor { category, kind: field.kind }) {
        Some(rule) => match rule.shape.decode(field.data) {
            Some(value) => Some(DecodedRecord::Known { name: rule.name, value }),
            None => None,
        },
        None => {
            let bytes = copy_range(field.data, 0, field.data.len());
            proof {
                assert(bytes@ =~= field.data@);
            }
            Some(DecodedRecord::Opaque { kind: field.kind, bytes })
        },
    }
}

/// Dispatches a frame: decodes its sub-fields and groups them under the
/// frame's category. `None` where the frame is malformed, in which case
/// nothing of it is emitted.
pub fn dispatch(registry: &FieldRegistry, frame: &RawFrame) -> (packet: Option<CategoryPacket>)
    ensures
        packet is Some ==> dispatched(registry@, frame@) == Some(packet->0@),
        packet is None ==> dispatched(registry@, frame@) is None,
{
    let category = frame.category();
    let kind = category_kind(category);
    if kind == CategoryKind::Unrecognized {
        return Some(CategoryPacket::Unrecognized(frame.clone()));
    }
    let fields = match split_payload(frame.payload()) {
        Some(fields) => fields,
        None => {
            return None;
        },
    };
    let mut records: Vec<DecodedRecord> = Vec::new();
    let mut i: usize = 0;
    while i < fields.len()
        invariant
            i <= fields.len(),
            category == frame@.category,
            kind_of(category) != CategoryKind::Unrecognized,
            split(frame@.payload) == Some(field_views(fields@)),
            decode_all(registry@, category, field_views(fields@).take(i as int)) == Some(
                record_views(records@),
            ),
        decreases fields.len() - i,
    {
        let ghost upto = field_views(fields@).take(i + 1);
        proof {
            assert(upto.drop_last() =~= field_views(fields@).take(i as int));
            assert(upto.last() == fields@[i as int]@);
        }
        match decode_field(registry, category, &fields[i]) {
            Some(record) => {
                proof {
                    assert(record_views(records@.push(record)) =~= record_views(records@).push(
                        record@,
                    ));
                }
                records.push(record);
            },
            None => {
                proof {
                    assert(decode_one(registry@, category, upto.last()) is None);
                    assert(decode_all(registry@, category, upto) is None);
                    lemma_decode_all_fails(registry@, category, field_views(fields@), i + 1);
                }
                return None;
            },
        }
        i += 1;
    }
    proof {
        assert(field_views(fields@).take(i as int) =~= field_views(fields@));
    }
    if kind == CategoryKind::Imu {
        Some(CategoryPacket::Imu(records))
    } else {
        Some(CategoryPacket::Gnss(records))
    }
}

/// Once the first `n` sub-fields cannot all be decoded, the whole list
/// cannot.
proof fn lemma_decode_all_fails(
    rules: Map<FieldDescriptor, FieldRule>,
    category: u8,
    fields: Seq<SubFieldView>,
    n: int,
)
    requires
        0 <= n <= fields.len(),
        decode_all(rules, category, fields.take(n)) is None,
    ensures
        decode_all(rules, category, fields) is None,
    decreases fields.len() - n,
{
    if n < fields.len() {
        assert(fields.take(n + 1).drop_last() =~= fields.take(n));
        lemma_decode_all_fails(rules, category, fields, n + 1);
    } else {
        assert(fields.take(n) =~= fields);
    }
}

/// Writes the payload made of the given sub-fields. `None` where the data of
/// one of them is too long for its length byte.
pub fn join_fields(fields: &[RawSubField<'_>]) -> (payload: Option<Vec<u8>>)
    ensures
        payload is Some <==> (forall|i: int|
            0 <= i < fields@.len() ==> (#[trigger] fields@[i]).data@.len() <= MAX_PAYLOAD),
        payload is Some ==> payload->0@ == joined(field_views(fields@)),
{
    let mut payload: Vec<u8> = Vec::new();
    let mut i: usize = 0;
    while i < fields.len()
        invariant
            i <= fields.len(),
            forall|k: int| 0 <= k < i ==> (#[trigger] fields@[k]).data@.len() <= MAX_PAYLOAD,
            payload@ == joined(field_views(fields@).take(i as int)),
        decreases fields.len() - i,
    {
        let field = &fields[i];
        if field.data.len() > MAX_PAYLOAD {
            return None;
        }
        proof {
            lemma_joined_push(field_views(fields@).take(i as int), field@);
            assert(field_views(fields@).take(i + 1) =~= field_views(fields@).take(i as int).push(
                field@,
            ));
        }
        payload.push(field.data.len() as u8);
        payload.push(field.kind);
        append(&mut payload, field.data);
        proof {
            assert(payload@ =~= joined(field_views(fields@).take(i as int)) + field_bytes(field@));
        }
        i += 1;
    }
    proof {
        assert(field_views(fields@).take(i as int) =~= field_views(fields@));
    }
    Some(payload)
}

/// Joining one more sub-field appends its bytes.
pub proof fn lemma_joined_push(fields: Seq<SubFieldView>, field: SubFieldView)
    ensures
        joined(fields.push(field)) == joined(fields) + field_bytes(field),
    decreases fields.len(),
{
    let more = fields.push(field);
    if fields.len() == 0 {
        assert(more.drop_first() =~= Seq::<SubFieldView>::empty());
        assert(joined(more.drop_first()) =~= Seq::<u8>::empty());
        assert(joined(more) =~= joined(fields) + field_bytes(field));
    } else {
        lemma_joined_push(fields.drop_first(), field);
        assert(more.drop_first() =~= fields.drop_first().push(field));
        assert(joined(more) =~= joined(fields) + field_bytes(field));
    }
}

/// Splitting the payload made of some sub-fields gives these sub-fields
/// back, as long as the data of each fits its length byte.
pub proof fn lemma_split_joined(fields: Seq<SubFieldView>)
    requires
        forall|i: int| 0 <= i < fields.len() ==> (#[trigger] fields[i]).data.len() <= MAX_PAYLOAD,
    ensures
        split(joined(fields)) == Some(fields),
    decreases fields.len(),
{
    if fields.len() > 0 {
        let first = fields.first();
        let others = fields.drop_first();
        let payload = joined(fields);
        let end = FIELD_HEADER_LEN + first.data.len();
        assert forall|i: int| 0 <= i < others.len() implies (#[trigger] others[i]).data.len()
            <= MAX_PAYLOAD by {
            assert(others[i] == fields[i + 1]);
        }
        lemma_split_joined(others);
        assert(payload[0] == first.data.len() && payload[1] == first.kind);
        assert(payload.subrange(2, end as int) =~= first.data);
        assert(payload.skip(end as int) =~= joined(others));
        assert(seq![first] + others =~= fields);
    }
}

/// The sub-fields that a payload splits into make up that payload.
pub proof fn lemma_joined_split(payload: Seq<u8>)
    requires
        split(payload) is Some,
    ensures
        joined(split(payload)->0) == payload,
    decreases payload.len(),
{
    if payload.len() > 0 {
        let end = FIELD_HEADER_LEN + payload[0];
        let first = SubFieldView { kind: payload[1], data: payload.subrange(2, end) };
        let others = split(payload.skip(end))->0;
        let fields = split(payload)->0;
        lemma_joined_split(payload.skip(end));
        assert(fields.first() == first);
        assert(fields.drop_first() =~= others);
        assert(joined(fields) =~= payload);
    }
}

/// Decoding a list of one sub-field decodes that sub-field.
pub proof fn lemma_decode_single(
    rules: Map<FieldDescriptor, FieldRule>,
    category: u8,
    field: SubFieldView,
)
    ensures
        decode_all(rules, category, seq![field]) == match decode_one(rules, category, field) {
            Some(record) => Some(seq![record]),
            None => None,
        },
{
    let fields = seq![field];
    assert(fields.drop_last() =~= Seq::<SubFieldView>::empty());
    assert(decode_all(rules, category, fields.drop_last()) == Some(Seq::<RecordView>::empty()));
    match decode_one(rules, category, field) {
        Some(record) => {
            assert(Seq::<RecordView>::empty().push(record) =~= seq![record]);
        },
        None => {},
    }
}

/// A list of sub-fields is decoded one by one: there are as many records as
/// sub-fields, each the record of the sub-field at its place, and the list
/// as a whole is decoded exactly if each of its sub-fields is.
pub proof fn lemma_decode_all_each(
    rules: Map<FieldDescriptor, FieldRule>,
    category: u8,
    fields: Seq<SubFieldView>,
)
    ensures
        decode_all(rules, category, fields) is Some <==> forall|i: int|
            0 <= i < fields.len() ==> decode_one(rules, category, #[trigger] fields[i]) is Some,
        decode_all(rules, category, fields) is Some ==> decode_all(
            rules,
            category,
            fields,
        )->0.len() == fields.len(),
        decode_all(rules, category, fields) is Some ==> forall|i: int|
            0 <= i < fields.len() ==> decode_one(rules, category, #[trigger] fields[i]) == Some(
                decode_all(rules, category, fields)->0[i],
            ),
    decreases fields.len(),
{
    if fields.len() > 0 {
        let front = fields.drop_last();
        lemma_decode_all_each(rules, category, front);
        assert forall|i: int| 0 <= i < front.len() implies #[trigger] front[i] == fields[i] by {}
        if decode_all(rules, category, fields) is Some {
            assert forall|i: int| 0 <= i < fields.len() implies decode_one(
                rules,
                category,
                #[trigger] fields[i],
            ) == Some(decode_all(rules, category, fields)->0[i]) by {
                if i < front.len() {
                    assert(front[i] == fields[i]);
                }
            }
        } else {
            if decode_all(rules, category, front) is Some {
                assert(decode_one(rules, category, fields[fields.len() - 1]) is None);
            } else {
                let i = choose|i: int|
                    0 <= i < front.len() && !(decode_one(rules, category, #[trigger] front[i])
                        is Some);
                assert(front[i] == fields[i]);
            }
        }
    }
}

/// Any number of sub-fields sent in one frame of a recognized category are
/// dispatched to as many records, in order, each the record of its
/// sub-field; and a sub-field that carries a value under a descriptor whose
/// rule has the value's shape comes back as that value exactly. Where one of
/// the sub-fields cannot be decoded, the frame gives no packet at all.
pub proof fn lemma_dispatch_joined(
    rules: Map<FieldDescriptor, FieldRule>,
    category: u8,
    fields: Seq<SubFieldView>,
    sums: crate::checksum::Checksum,
)
    requires
        kind_of(category) != CategoryKind::Unrecognized,
        forall|i: int| 0 <= i < fields.len() ==> (#[trigger] fields[i]).data.len() <= MAX_PAYLOAD,
    ensures
        dispatched(rules, FrameView { category, payload: joined(fields), checksum: sums }) == match decode_all(
            rules,
            category,
            fields,
        ) {
            Some(records) => Some(
                if kind_of(category) == CategoryKind::Imu {
                    PacketView::Imu(records)
                } else {
                    PacketView::Gnss(records)
                },
            ),
            None => None,
        },
        forall|i: int, value: FieldValue|
            #![trigger fields[i], encoded(value)]
            0 <= i < fields.len() && decode_all(rules, category, fields) is Some && rules.contains_key(
                FieldDescriptor { category, kind: fields[i].kind },
            ) && rules[FieldDescriptor { category, kind: fields[i].kind }].shape == shape_of(value)
                && fields[i].data == encoded(value) ==> decode_all(rules, category, fields)->0[i]
                == (RecordView::Known {
                name: rules[FieldDescriptor { category, kind: fields[i].kind }].name,
                value,
            }),
{
    lemma_split_joined(fields);
    lemma_decode_all_each(rules, category, fields);
    assert forall|i: int, value: FieldValue|
        #![trigger fields[i], encoded(value)]
        0 <= i < fields.len() && decode_all(rules, category, fields) is Some && rules.contains_key(
            FieldDescriptor { category, kind: fields[i].kind },
        ) && rules[FieldDescriptor { category, kind: fields[i].kind }].shape == shape_of(value)
            && fields[i].data == encoded(value) implies decode_all(rules, category, fields)->0[i]
        == (RecordView::Known {
        name: rules[FieldDescriptor { category, kind: fields[i].kind }].name,
        value,
    }) by {
        lemma_value_roundtrip(value);
    }
}

/// A value sent as the one sub-field of a frame, under a descriptor whose
/// rule has the value's shape, is dispatched to a packet that holds that
/// value exactly, under the rule's name.
pub proof fn lemma_dispatch_roundtrip(
    rules: Map<FieldDescriptor, FieldRule>,
    descriptor: FieldDescriptor,
    value: FieldValue,
    sums: crate::checksum::Checksum,
)
    requires
        rules.contains_key(descriptor),
        rules[descriptor].shape == shape_of(value),
        kind_of(descriptor.category) != CategoryKind::Unrecognized,
    ensures
        dispatched(
            rules,
            FrameView {
                category: descriptor.category,
                payload: field_bytes(SubFieldView { kind: descriptor.kind, data: encoded(value) }),
                checksum: sums,
            },
        ) == Some(
            if kind_of(descriptor.category) == CategoryKind::Imu {
                PacketView::Imu(seq![RecordView::Known { name: rules[descriptor].name, value }])
            } else {
                PacketView::Gnss(seq![RecordView::Known { name: rules[descriptor].name, value }])
            },
        ),
{
    let field = SubFieldView { kind: descriptor.kind, data: encoded(value) };
    lemma_value_roundtrip(value);
    lemma_split_joined(seq![field]);
    assert(seq![field].drop_first() =~= Seq::<SubFieldView>::empty());
    assert(joined(seq![field].drop_first()) =~= Seq::<u8>::empty());
    assert(joined(seq![field]) =~= field_bytes(field));
    lemma_decode_single(rules, descriptor.category, field);
}

} // verus!
