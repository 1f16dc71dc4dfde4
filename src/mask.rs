//! Segmentation masks: the winning class of each pixel.
use vstd::prelude::*;

verus! {

/// `i` is the position of the last maximal element of `s`.
pub open spec fn is_last_max(s: Seq<u8>, i: int) -> bool {
    &&& 0 <= i < s.len()
    &&& forall|j: int| 0 <= j < s.len() ==> s[j] <= s[i]
    &&& forall|j: int| i < j < s.len() ==> s[j] < s[i]
}

/// The position of the last maximal element of a non-empty sequence.
pub open spec fn last_max(s: Seq<u8>) -> int {
    choose|i: int| is_last_max(s, i)
}

proof fn lemma_last_max_unique(s: Seq<u8>, i: int, j: int)
    requires
        is_last_max(s, i),
        is_last_max(s, j),
    ensures
        i == j,
{
    if i < j {
        assert(s[j] < s[i]);
        assert(s[i] <= s[j]);
    } else if j < i {
        assert(s[i] < s[j]);
        assert(s[j] <= s[i]);
    }
}

/// Relies on `itertools::Itertools::position_max`: `None` for an empty
/// input, else the position of the maximum, the last one where several
/// elements are equally maximal.
#[verifier::external_body]
fn position_max(s: &[u8]) -> (r: Option<usize>)
    ensures
        r is None <==> s@.len() == 0,
        r matches Some(i) ==> is_last_max(s@, i as int),
{
    itertools::Itertools::position_max(s.iter())
}

/// The position of the largest class score (the last one on ties), as a
/// class label. Positions past 255 wrap, as a `u8` label holds no more.
pub fn argmax_slice(slice: &[u8]) -> (r: u8)
    requires
        slice@.len() > 0,
    ensures
        is_last_max(slice@, last_max(slice@)),
        r == last_max(slice@) % 256,
{
    match position_max(slice) {
        Some(i) => {
            proof {
                lemma_last_max_unique(slice@, i as int, last_max(slice@));
            }
            (i % 256) as u8
        },
        None => 0,
    }
}

/// The class label of every pixel of a mask that holds `classes` scores per
/// pixel, pixel after pixel. Scores left over after the last whole pixel
/// are ignored.
pub fn mask_argmax(mask: &[u8], classes: usize) -> (r: Vec<u8>)
    requires
        classes > 0,
    ensures
        r@.len() == mask@.len() as int / classes as int,
        forall|k: int|
            0 <= k < r@.len() ==> r@[k] == last_max(
                #[trigger] mask@.subrange(k * classes, (k + 1) * classes),
            ) % 256,
{
    let len = mask.len();
    let n = len / classes;
    let mut out: Vec<u8> = Vec::new();
    let mut k: usize = 0;
    while k < n
        invariant
            classes > 0,
            len == mask@.len(),
            n == len / classes,
            k <= n,
            out@.len() == k,
            forall|j: int|
                0 <= j < k ==> out@[j] == last_max(
                    #[trigger] mask@.subrange(j * classes, (j + 1) * classes),
                ) % 256,
        decreases n - k,
    {
        proof {
            assert((k + 1) * classes <= n * classes) by (nonlinear_arith)
                requires k < n, classes > 0;
            assert(n * classes <= len) by (nonlinear_arith)
                requires n == len / classes, classes > 0;
            assert((k + 1) * classes == k * classes + classes) by (nonlinear_arith);
        }
        let start = k * classes;
        let chunk = vstd::slice::slice_subrange(mask, start, start + classes);
        out.push(argmax_slice(chunk));
        k = k + 1;
    }
    out
}

} // verus!
