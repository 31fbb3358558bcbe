//! A helper for writing bytes one run after another.

use vstd::prelude::*;

verus! {

/// Appends the bytes of `part` to `out`.
pub fn append_bytes(out: &mut Vec<u8>, part: &[u8])
    ensures
        final(out)@ == old(out)@ + part@,
{
    let ghost before = out@;
    let mut j: usize = 0;
    while j < part.len()
        invariant
            j <= part@.len(),
            out@ == before + part@.take(j as int),
        decreases part@.len() - j,
    {
        out.push(part[j]);
        assert(part@.take(j + 1) =~= part@.take(j as int).push(part@[j as int]));
        assert(out@ =~= before + part@.take(j + 1));
        j = j + 1;
    }
    assert(part@.take(j as int) =~= part@);
}

} // verus!
