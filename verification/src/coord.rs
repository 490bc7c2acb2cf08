use vstd::math::abs;
use vstd::prelude::*;

verus! {

/// Twice the centred coordinate of sample `i` on an axis of `n` pixels.
///
/// The pixel centres of such an axis sit at `i + 1/2 - n/2` relative to the
/// axis centre; doubling keeps the half-units exact in integers.
pub open spec fn centered_twice_of(i: int, n: int) -> int {
    2 * i + 1 - n
}

/// The sample that mirrors `i` across the centre of an axis of `n` pixels.
pub open spec fn mirror_of(i: int, n: int) -> int {
    n - 1 - i
}

/// Twice the centred coordinate of sample `i` on an axis of `n` pixels,
/// computed exactly.
pub fn centered_twice(i: usize, n: usize) -> (r: i128)
    requires
        i < n,
    ensures
        r == centered_twice_of(i as int, n as int),
{
    (i as i128) - ((n - 1 - i) as i128)
}

/// The distance `|2i + 1 - n|` from the pixel centre of sample `i` to the
/// centre of an axis of `n` pixels, in half-pixel units, computed exactly.
pub fn centered_twice_mag(i: usize, n: usize) -> (r: usize)
    requires
        i < n,
    ensures
        r == abs(centered_twice_of(i as int, n as int)),
        r < n,
{
    let m = n - 1 - i;
    if i >= m {
        i - m
    } else {
        m - i
    }
}

/// The sample that mirrors `i` across the centre of an axis of `n` pixels.
pub fn mirror(i: usize, n: usize) -> (r: usize)
    requires
        i < n,
    ensures
        r == mirror_of(i as int, n as int),
        r < n,
{
    n - 1 - i
}

/// Mirroring an axis twice gives the original sample back.
pub proof fn lemma_mirror_involution(i: int, n: int)
    requires
        0 <= i < n,
    ensures
        mirror_of(mirror_of(i, n), n) == i,
{
}

/// Mirroring a sample across the axis centre negates its centred coordinate.
pub proof fn lemma_mirror_negates_centered(i: int, n: int)
    requires
        0 <= i < n,
    ensures
        centered_twice_of(mirror_of(i, n), n) == -centered_twice_of(i, n),
{
}

/// A sample and its mirror image lie at the same distance from the axis
/// centre. A mask whose value at a pixel depends only on the magnitudes of
/// the pixel's centred coordinates is therefore unchanged when the raster is
/// flipped along either axis.
pub proof fn lemma_mirror_preserves_magnitude(i: int, n: int)
    requires
        0 <= i < n,
    ensures
        abs(centered_twice_of(mirror_of(i, n), n)) == abs(centered_twice_of(i, n)),
{
}

} // verus!
