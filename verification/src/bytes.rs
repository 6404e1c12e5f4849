//! Copying of byte ranges.

use vstd::prelude::*;

verus! {

/// Appends `source` to `target`.
pub(crate) fn append(target: &mut Vec<u8>, source: &[u8])
    ensures
        final(target)@ == old(target)@ + source@,
{
    let mut i: usize = 0;
    while i < source.len()
        invariant
            i <= source.len(),
            target@ == old(target)@ + source@.take(i as int),
        decreases source.len() - i,
    {
        target.push(source[i]);
        proof {
            assert(source@.take(i + 1) =~= source@.take(i as int).push(source@[i as int]));
        }
        i += 1;
    }
    proof {
        assert(source@.take(i as int) =~= source@);
    }
}

/// Copies the bytes of `source` from index `from` up to, not including, `to`.
pub(crate) fn copy_range(source: &[u8], from: usize, to: usize) -> (copy: Vec<u8>)
    requires
        from <= to <= source@.len(),
    ensures
        copy@ == source@.subrange(from as int, to as int),
{
    let mut copy: Vec<u8> = Vec::new();
    append(&mut copy, vstd::slice::slice_subrange(source, from, to));
    copy
}

} // verus!
