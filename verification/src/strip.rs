//! Producing the stripped JPEG: the payload up to the truncation offset,
//! re-terminated with the end-of-image marker when it does not already end
//! with one.

use vstd::prelude::*;

verus! {

/// `d` ends with the two-byte JPEG end-of-image marker.
pub open spec fn ends_with_eoi(d: Seq<u8>) -> bool
    recommends
        d.len() >= 2,
{
    d[d.len() - 2] == 255 && d[d.len() - 1] == 217
}

/// Copies the first `offset` bytes of `data` and appends the end-of-image
/// marker when those bytes do not already end with it, so that the output is
/// always a terminated JPEG stream.
#[verifier::loop_isolation(false)]
pub fn truncated_output(data: &Vec<u8>, offset: usize) -> (out: Vec<u8>)
    requires
        2 <= offset <= data@.len(),
    ensures
        ends_with_eoi(data@.subrange(0, offset as int)) ==> out@ == data@.subrange(
            0,
            offset as int,
        ),
        !ends_with_eoi(data@.subrange(0, offset as int)) ==> out@ == data@.subrange(
            0,
            offset as int,
        ) + seq![255u8, 217u8],
        out@.len() >= 2,
        ends_with_eoi(out@),
{
    let mut out: Vec<u8> = Vec::new();
    let mut i: usize = 0;
    while i < offset
        invariant
            i <= offset,
            out@ == data@.subrange(0, i as int),
        decreases offset - i,
    {
        out.push(data[i]);
        proof {
            assert(out@ =~= data@.subrange(0, i + 1 as int));
        }
        i = i + 1;
    }
    if !(out[offset - 2] == 255 && out[offset - 1] == 217) {
        out.push(255);
        out.push(217);
    }
    out
}

} // verus!
