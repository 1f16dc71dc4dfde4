//! Locating a JPEG image inside a payload.
use vstd::prelude::*;

verus! {

/// A JPEG start-of-image marker (`0xFF 0xD8`) begins at byte `i`.
pub open spec fn marker_at(b: Seq<u8>, i: int) -> bool {
    0 <= i && i + 1 < b.len() && b[i] == 0xFF && b[i + 1] == 0xD8
}

/// The position of the first JPEG start-of-image marker, if there is one.
pub fn find_jpeg_start(bytes: &[u8]) -> (r: Option<usize>)
    ensures
        r is None <==> forall|i: int| !marker_at(bytes@, i),
        r matches Some(i) ==> marker_at(bytes@, i as int) && forall|j: int|
            0 <= j < i ==> !marker_at(bytes@, j),
{
    let end = bytes.len().saturating_sub(1);
    let mut i: usize = 0;
    while i < end
        invariant
            end == if bytes@.len() == 0 {
                0
            } else {
                bytes@.len() - 1
            },
            i <= end,
            forall|j: int| 0 <= j < i ==> !marker_at(bytes@, j),
        decreases end - i,
    {
        if bytes[i] == 0xFF && bytes[i + 1] == 0xD8 {
            assert(marker_at(bytes@, i as int));
            return Some(i);
        }
        i = i + 1;
    }
    None
}

} // verus!
