//! Field descriptors, decode rules and the values they produce.
//!
//! The sensor sends floating-point components as big-endian IEEE-754 single
//! precision words. A decoded value keeps each component as that 32-bit
//! pattern, so decoding loses nothing and turns back into the same bytes.

use vstd::prelude::*;

verus! {

/// The key of a decodable field shape: the category of the frame and the
/// kind byte of the sub-field.
#[derive(Clone, Copy, Debug, PartialEq, Eq, Structural)]
pub struct FieldDescriptor {
    pub category: u8,
    pub kind: u8,
}

/// The names of the fields that a rule can produce.
#[derive(Clone, Copy, Debug, PartialEq, Eq, Structural)]
pub enum FieldName {
    ScaledAccelerometerVector,
    ScaledGyroVector,
    ScaledMagnetometerVector,
}

/// The fixed layouts in which a field's data can come.
#[derive(Clone, Copy, Debug, PartialEq, Eq, Structural)]
pub enum FieldShape {
    /// Three single-precision components, in the order x, y, z.
    Vector3,
}

/// How to decode the data of one kind of field: under which name, and from
/// which layout.
#[derive(Clone, Copy, Debug, PartialEq, Eq, Structural)]
pub struct FieldRule {
    pub name: FieldName,
    pub shape: FieldShape,
}

/// Three single-precision components, each kept as its bit pattern.
#[derive(Clone, Copy, Debug, PartialEq, Eq, Structural)]
pub struct Vector3 {
    pub x: u32,
    pub y: u32,
    pub z: u32,
}

/// A decoded value, in one of the known shapes.
#[derive(Clone, Copy, Debug, PartialEq, Eq, Structural)]
pub enum FieldValue {
    Vector3(Vector3),
}

/// The 32-bit word that four bytes spell, most significant byte first.
pub open spec fn word_of(bytes: Seq<u8>) -> u32 {
    (bytes[0] * 0x100_0000 + bytes[1] * 0x1_0000 + bytes[2] * 0x100 + bytes[3]) as u32
}

/// The four bytes of a 32-bit word, most significant byte first.
pub open spec fn bytes_of(word: u32) -> Seq<u8> {
    seq![
        (word / 0x100_0000) as u8,
        (word / 0x1_0000 % 0x100) as u8,
        (word / 0x100 % 0x100) as u8,
        (word % 0x100) as u8,
    ]
}

/// The number of data bytes of a field of the given shape.
pub open spec fn width_of(shape: FieldShape) -> nat {
    match shape {
        FieldShape::Vector3 => 12,
    }
}

/// The shape in which a value comes.
pub open spec fn shape_of(value: FieldValue) -> FieldShape {
    match value {
        FieldValue::Vector3(_) => FieldShape::Vector3,
    }
}

/// The value that `data` holds when read in the given shape.
pub open spec fn decoded(shape: FieldShape, data: Seq<u8>) -> FieldValue {
    match shape {
        FieldShape::Vector3 => FieldValue::Vector3(
            Vector3 {
                x: word_of(data.subrange(0, 4)),
                y: word_of(data.subrange(4, 8)),
                z: word_of(data.subrange(8, 12)),
            },
        ),
    }
}

/// The data bytes of a value.
pub open spec fn encoded(value: FieldValue) -> Seq<u8> {
    match value {
        FieldValue::Vector3(v) => bytes_of(v.x) + bytes_of(v.y) + bytes_of(v.z),
    }
}

/// Reading the bytes of a word gives the word back.
pub proof fn lemma_word_roundtrip(word: u32)
    ensures
        bytes_of(word).len() == 4,
        word_of(bytes_of(word)) == word,
{
}

/// The word put together from four bytes falls apart into the same bytes.
proof fn lemma_word_split(b0: u8, b1: u8, b2: u8, b3: u8)
    by (bit_vector)
    ensures
        b0 * 0x100_0000 + b1 * 0x1_0000 + b2 * 0x100 + b3 < 0x1_0000_0000,
        (b0 * 0x100_0000 + b1 * 0x1_0000 + b2 * 0x100 + b3) / 0x100_0000 == b0,
        (b0 * 0x100_0000 + b1 * 0x1_0000 + b2 * 0x100 + b3) / 0x1_0000 % 0x100 == b1,
        (b0 * 0x100_0000 + b1 * 0x1_0000 + b2 * 0x100 + b3) / 0x100 % 0x100 == b2,
        (b0 * 0x100_0000 + b1 * 0x1_0000 + b2 * 0x100 + b3) % 0x100 == b3,
{
}

/// Writing the word that four bytes spell gives the bytes back.
pub proof fn lemma_bytes_roundtrip(bytes: Seq<u8>)
    requires
        bytes.len() == 4,
    ensures
        bytes_of(word_of(bytes)) == bytes,
{
    lemma_word_split(bytes[0], bytes[1], bytes[2], bytes[3]);
    assert(bytes_of(word_of(bytes)) =~= bytes);
}

/// Decoding the bytes of a value, in the value's own shape, gives the value
/// back exactly.
pub proof fn lemma_value_roundtrip(value: FieldValue)
    ensures
        encoded(value).len() == width_of(shape_of(value)),
        decoded(shape_of(value), encoded(value)) == value,
{
    match value {
        FieldValue::Vector3(v) => {
            let data = encoded(value);
            lemma_word_roundtrip(v.x);
            lemma_word_roundtrip(v.y);
            lemma_word_roundtrip(v.z);
            assert(data.subrange(0, 4) =~= bytes_of(v.x));
            assert(data.subrange(4, 8) =~= bytes_of(v.y));
            assert(data.subrange(8, 12) =~= bytes_of(v.z));
        },
    }
}

/// Encoding what was decoded from data of the right width gives the data
/// back.
pub proof fn lemma_data_roundtrip(shape: FieldShape, data: Seq<u8>)
    requires
        data.len() == width_of(shape),
    ensures
        shape_of(decoded(shape, data)) == shape,
        encoded(decoded(shape, data)) == data,
{
    match shape {
        FieldShape::Vector3 => {
            lemma_bytes_roundtrip(data.subrange(0, 4));
            lemma_bytes_roundtrip(data.subrange(4, 8));
            lemma_bytes_roundtrip(data.subrange(8, 12));
            assert(encoded(decoded(shape, data)) =~= data);
        },
    }
}

/// Reads the word at `at`, most significant byte first.
fn read_word(data: &[u8], at: usize) -> (word: u32)
    requires
        at + 4 <= data@.len(),
    ensures
        word == word_of(data@.subrange(at as int, at + 4)),
{
    let b0: u32 = data[at] as u32;
    let b1: u32 = data[at + 1] as u32;
    let b2: u32 = data[at + 2] as u32;
    let b3: u32 = data[at + 3] as u32;
    b0 * 0x100_0000 + b1 * 0x1_0000 + b2 * 0x100 + b3
}

/// Appends the bytes of `word`, most significant byte first.
fn write_word(target: &mut Vec<u8>, word: u32)
    ensures
        final(target)@ == old(target)@ + bytes_of(word),
{
    target.push((word / 0x100_0000) as u8);
    target.push((word / 0x1_0000 % 0x100) as u8);
    target.push((word / 0x100 % 0x100) as u8);
    target.push((word % 0x100) as u8);
    proof {
        assert(target@ =~= old(target)@ + bytes_of(word));
    }
}

impl FieldShape {
    /// The number of data bytes of a field of this shape.
    pub fn width(&self) -> (width: usize)
        ensures
            width == width_of(*self),
    {
        match self {
            FieldShape::Vector3 => 12,
        }
    }

    /// Decodes `data` in this shape. The data must have exactly the shape's
    /// width.
    pub fn decode(&self, data: &[u8]) -> (value: Option<FieldValue>)
        ensures
            data@.len() == width_of(*self) ==> value == Some(decoded(*self, data@)),
            data@.len() != width_of(*self) ==> value is None,
    {
        if data.len() != self.width() {
            return None;
        }
        match self {
            FieldShape::Vector3 => {
                let x = read_word(data, 0);
                let y = read_word(data, 4);
                let z = read_word(data, 8);
                Some(FieldValue::Vector3(Vector3 { x, y, z }))
            },
        }
    }
}

impl FieldRule {
    /// The number of data bytes that a field under this rule must have.
    pub fn width(&self) -> (width: usize)
        ensures
            width == width_of(self.shape),
    {
        self.shape.width()
    }
}

impl FieldValue {
    /// The shape in which the value comes.
    pub fn shape(&self) -> (shape: FieldShape)
        ensures
            shape == shape_of(*self),
    {
        match self {
            FieldValue::Vector3(_) => FieldShape::Vector3,
        }
    }

    /// Writes the data bytes of the value.
    pub fn encode(&self) -> (data: Vec<u8>)
        ensures
            data@ == encoded(*self),
    {
        let mut data: Vec<u8> = Vec::new();
        match self {
            FieldValue::Vector3(v) => {
                write_word(&mut data, v.x);
                write_word(&mut data, v.y);
                write_word(&mut data, v.z);
            },
        }
        proof {
            assert(data@ =~= encoded(*self));
        }
        data
    }
}

} // verus!
