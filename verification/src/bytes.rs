//! Copying bytes.

use vstd::prelude::*;

verus! {

/// Appends `source[from..to]` to `out`.
pub fn append_range(out: &mut Vec<u8>, source: &[u8], from: usize, to: usize)
    requires
        from <= to <= source@.len(),
    ensures
        final(out)@ == old(out)@ + source@.subrange(from as int, to as int),
{
    let mut i: usize = from;
    while i < to
        invariant
            from <= i <= to <= source@.len(),
            out@ == old(out)@ + source@.subrange(from as int, i as int),
        decreases to - i,
    {
        out.push(source[i]);
        i += 1;
        assert(out@ =~= old(out)@ + source@.subrange(from as int, i as int));
    }
}

/// Appends all of `source` to `out`.
pub fn append(out: &mut Vec<u8>, source: &[u8])
    ensures
        final(out)@ == old(out)@ + source@,
{
    append_range(out, source, 0, source.len());
    assert(source@.subrange(0, source@.len() as int) =~= source@);
}

/// A copy of `bytes`.
pub fn copy_of(bytes: &[u8]) -> (copy: Vec<u8>)
    ensures
        copy@ == bytes@,
{
    let mut copy: Vec<u8> = Vec::new();
    append(&mut copy, bytes);
    assert(copy@ =~= bytes@);
    copy
}

} // verus!
