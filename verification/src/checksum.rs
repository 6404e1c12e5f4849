//! The two-byte Fletcher checksum that closes every frame.

use vstd::prelude::*;

verus! {

/// The checksum trailer of a frame, in the order in which its bytes are sent.
#[derive(Clone, Copy, Debug, PartialEq, Eq, Structural)]
pub struct Checksum {
    /// The sum of the covered bytes, modulo 256.
    pub sum1: u8,
    /// The sum of the running values of `sum1`, modulo 256.
    pub sum2: u8,
}

/// The sum of all bytes of `bytes`.
pub open spec fn byte_sum(bytes: Seq<u8>) -> int
    decreases bytes.len(),
{
    if bytes.len() == 0 {
        0
    } else {
        byte_sum(bytes.drop_last()) + bytes.last()
    }
}

/// The sum of `byte_sum` over every non-empty prefix of `bytes`.
pub open spec fn running_sum(bytes: Seq<u8>) -> int
    decreases bytes.len(),
{
    if bytes.len() == 0 {
        0
    } else {
        running_sum(bytes.drop_last()) + byte_sum(bytes)
    }
}

/// The checksum of `bytes`: both sums reduced modulo 256.
pub open spec fn fletcher(bytes: Seq<u8>) -> Checksum {
    Checksum { sum1: (byte_sum(bytes) % 256) as u8, sum2: (running_sum(bytes) % 256) as u8 }
}

/// Computes the checksum of `bytes`.
pub fn checksum(bytes: &[u8]) -> (sums: Checksum)
    ensures
        sums == fletcher(bytes@),
{
    let mut sum1: u8 = 0;
    let mut sum2: u8 = 0;
    let mut i: usize = 0;
    while i < bytes.len()
        invariant
            i <= bytes.len(),
            sum1 == byte_sum(bytes@.take(i as int)) % 256,
            sum2 == running_sum(bytes@.take(i as int)) % 256,
        decreases bytes.len() - i,
    {
        proof {
            assert(bytes@.take(i + 1).drop_last() =~= bytes@.take(i as int));
        }
        sum1 = ((sum1 as u16 + bytes[i] as u16) % 256) as u8;
        sum2 = ((sum2 as u16 + sum1 as u16) % 256) as u8;
        i += 1;
    }
    proof {
        assert(bytes@.take(i as int) =~= bytes@);
    }
    Checksum { sum1, sum2 }
}

} // verus!
