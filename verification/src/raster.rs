use crate::coord::centered_twice_mag;
use crate::coord::centered_twice_of;
use crate::coord::lemma_mirror_preserves_magnitude;
use crate::coord::mirror_of;
use vstd::math::abs;
use vstd::prelude::*;

verus! {

/// Row-major slot of pixel `(i, j)` in a raster `width` pixels wide.
pub open spec fn pixel_slot(i: int, j: int, width: int) -> int {
    j * width + i
}

/// The slot of a pixel lies inside the raster's buffer.
pub proof fn lemma_pixel_slot_in_range(i: int, j: int, width: int, height: int)
    requires
        0 <= i < width,
        0 <= j < height,
    ensures
        0 <= pixel_slot(i, j, width) < width * height,
{
    assert(j * width + i < width * height) by (nonlinear_arith)
        requires
            0 <= i < width,
            0 <= j < height,
    ;
    assert(0 <= j * width + i) by (nonlinear_arith)
        requires
            0 <= i,
            0 <= j,
            0 <= width,
    ;
}

/// Distinct pixels occupy distinct slots: a single pass over the pixels
/// writes every byte of the buffer exactly once.
pub proof fn lemma_pixel_slot_injective(i1: int, j1: int, i2: int, j2: int, width: int, height: int)
    requires
        0 <= i1 < width,
        0 <= j1 < height,
        0 <= i2 < width,
        0 <= j2 < height,
        pixel_slot(i1, j1, width) == pixel_slot(i2, j2, width),
    ensures
        i1 == i2,
        j1 == j2,
{
    assert(j1 == j2) by (nonlinear_arith)
        requires
            0 <= i1 < width,
            0 <= i2 < width,
            j1 * width + i1 == j2 * width + i2,
    ;
}

/// A row-major buffer whose pixels depend only on the magnitudes of their
/// centred coordinates — as a mask blurred around a centred rectangle does —
/// is unchanged by a horizontal or a vertical flip.
pub proof fn lemma_flip_symmetry(
    b: Seq<u8>,
    f: spec_fn(nat, nat) -> u8,
    width: int,
    height: int,
    i: int,
    j: int,
)
    requires
        0 <= i < width,
        0 <= j < height,
        b.len() == width * height,
        forall|p: int, q: int|
            0 <= p < width && 0 <= q < height ==> #[trigger] b[pixel_slot(p, q, width)] == f(
                abs(centered_twice_of(p, width)),
                abs(centered_twice_of(q, height)),
            ),
    ensures
        b[pixel_slot(mirror_of(i, width), j, width)] == b[pixel_slot(i, j, width)],
        b[pixel_slot(i, mirror_of(j, height), width)] == b[pixel_slot(i, j, width)],
{
    lemma_mirror_preserves_magnitude(i, width);
    lemma_mirror_preserves_magnitude(j, height);
}

/// A single-channel, 8-bit, row-major raster: the output of the mask
/// generator. Holds exactly `width * height` bytes, pixel `(i, j)` at slot
/// `j * width + i`.
pub struct Raster {
    width: usize,
    height: usize,
    data: Vec<u8>,
}

impl View for Raster {
    type V = Seq<u8>;

    closed spec fn view(&self) -> Seq<u8> {
        self.data@
    }
}

impl Raster {
    /// Width of the raster in pixels.
    pub closed spec fn spec_width(&self) -> int {
        self.width as int
    }

    /// Height of the raster in pixels.
    pub closed spec fn spec_height(&self) -> int {
        self.height as int
    }

    /// The buffer holds one byte per pixel.
    pub open spec fn wf(&self) -> bool {
        self@.len() == self.spec_width() * self.spec_height()
    }

    /// Creates an all-zero raster, or `None` when `width * height` does not
    /// fit in `usize`.
    pub fn new(width: usize, height: usize) -> (r: Option<Raster>)
        ensures
            r is Some <==> width * height <= usize::MAX,
            r matches Some(t) ==> {
                &&& t.wf()
                &&& t.spec_width() == width
                &&& t.spec_height() == height
                &&& t@.len() == width * height
                &&& forall|k: int| 0 <= k < t@.len() ==> t@[k] == 0u8
            },
    {
        match width.checked_mul(height) {
            None => None,
            Some(n) => {
                let mut data: Vec<u8> = Vec::new();
                let mut k: usize = 0;
                while k < n
                    invariant
                        k <= n,
                        data@.len() == k,
                        forall|t: int| 0 <= t < k ==> data@[t] == 0u8,
                    decreases n - k,
                {
                    data.push(0u8);
                    k = k + 1;
                }
                Some(Raster { width, height, data })
            },
        }
    }

    /// Width of the raster in pixels.
    pub fn width(&self) -> (r: usize)
        ensures
            r == self.spec_width(),
    {
        self.width
    }

    /// Height of the raster in pixels.
    pub fn height(&self) -> (r: usize)
        ensures
            r == self.spec_height(),
    {
        self.height
    }

    /// Number of bytes in the buffer: one per pixel.
    pub fn len(&self) -> (r: usize)
        requires
            self.wf(),
        ensures
            r == self.spec_width() * self.spec_height(),
    {
        self.data.len()
    }

    /// The byte of pixel `(i, j)`.
    pub fn get(&self, i: usize, j: usize) -> (r: u8)
        requires
            self.wf(),
            i < self.spec_width(),
            j < self.spec_height(),
        ensures
            r == self@[pixel_slot(i as int, j as int, self.spec_width())],
    {
        proof {
            lemma_pixel_slot_in_range(i as int, j as int, self.spec_width(), self.spec_height());
        }
        // Reading the length as a usize shows the solver that the slot,
        // which lies below width * height, fits in a usize as well.
        let total: usize = self.data.len();
        let idx: usize = j * self.width + i;
        self.data[idx]
    }

    /// Writes the byte of pixel `(i, j)`, leaving every other slot as it was.
    pub fn set(&mut self, i: usize, j: usize, v: u8)
        requires
            old(self).wf(),
            i < old(self).spec_width(),
            j < old(self).spec_height(),
        ensures
            final(self).wf(),
            final(self).spec_width() == old(self).spec_width(),
            final(self).spec_height() == old(self).spec_height(),
            final(self)@ == old(self)@.update(
                pixel_slot(i as int, j as int, old(self).spec_width()),
                v,
            ),
    {
        proof {
            lemma_pixel_slot_in_range(i as int, j as int, self.spec_width(), self.spec_height());
        }
        // Reading the length as a usize shows the solver that the slot,
        // which lies below width * height, fits in a usize as well.
        let total: usize = self.data.len();
        let idx: usize = j * self.width + i;
        self.data[idx] = v;
    }

    /// Hands the finished raster over as its raw byte buffer.
    pub fn into_bytes(self) -> (r: Vec<u8>)
        ensures
            r@ == self@,
    {
        self.data
    }
}

/// The mask generator's pass: evaluates `f` once per pixel of a `width` by
/// `height` raster, row major, pixel `(i, j)` landing at slot `j * width + i`.
/// Returns `None` exactly when the buffer size `width * height` does not fit
/// in `usize`; otherwise every byte of the raster is a value that `f`'s
/// contract admits for its pixel.
pub fn generate_with<F: Fn(usize, usize) -> u8>(width: usize, height: usize, f: F) -> (r: Option<
    Raster,
>)
    requires
        forall|i: usize, j: usize| i < width && j < height ==> call_requires(f, (i, j)),
    ensures
        r is Some <==> width * height <= usize::MAX,
        r matches Some(t) ==> {
            &&& t.wf()
            &&& t.spec_width() == width
            &&& t.spec_height() == height
            &&& t@.len() == width * height
            &&& forall|i: usize, j: usize|
                i < width && j < height ==> call_ensures(
                    f,
                    (i, j),
                    #[trigger] t@[pixel_slot(i as int, j as int, width as int)],
                )
        },
{
    if width.checked_mul(height).is_none() {
        return None;
    }
    let mut data: Vec<u8> = Vec::new();
    let mut j: usize = 0;
    while j < height
        invariant
            j <= height,
            width * height <= usize::MAX,
            data@.len() == j * width,
            forall|p: usize, q: usize| p < width && q < height ==> call_requires(f, (p, q)),
            forall|p: usize, q: usize|
                p < width && q < j ==> call_ensures(
                    f,
                    (p, q),
                    #[trigger] data@[pixel_slot(p as int, q as int, width as int)],
                ),
        decreases height - j,
    {
        let mut i: usize = 0;
        while i < width
            invariant
                i <= width,
                j < height,
                width * height <= usize::MAX,
                data@.len() == j * width + i,
                forall|p: usize, q: usize| p < width && q < height ==> call_requires(f, (p, q)),
                forall|p: usize, q: usize|
                    p < width && q < j ==> call_ensures(
                        f,
                        (p, q),
                        #[trigger] data@[pixel_slot(p as int, q as int, width as int)],
                    ),
                forall|p: usize|
                    p < i ==> call_ensures(
                        f,
                        (p, j),
                        #[trigger] data@[pixel_slot(p as int, j as int, width as int)],
                    ),
            decreases width - i,
        {
            let ghost pre = data@;
            let b = f(i, j);
            data.push(b);
            i = i + 1;
            proof {
                assert(data@ == pre.push(b));
                assert forall|p: usize, q: usize| p < width && q < j implies call_ensures(
                    f,
                    (p, q),
                    #[trigger] data@[pixel_slot(p as int, q as int, width as int)],
                ) by {
                    lemma_pixel_slot_in_range(p as int, q as int, width as int, j as int);
                    assert(width as int * j as int == j as int * width as int) by (nonlinear_arith);
                    assert(data@[pixel_slot(p as int, q as int, width as int)] == pre[pixel_slot(
                        p as int,
                        q as int,
                        width as int,
                    )]);
                }
                assert forall|p: usize| p < i implies call_ensures(
                    f,
                    (p, j),
                    #[trigger] data@[pixel_slot(p as int, j as int, width as int)],
                ) by {
                    if p < i - 1 {
                        assert(data@[pixel_slot(p as int, j as int, width as int)] == pre[pixel_slot(
                            p as int,
                            j as int,
                            width as int,
                        )]);
                    } else {
                        assert(pixel_slot(p as int, j as int, width as int) == pre.len());
                        assert(data@[pixel_slot(p as int, j as int, width as int)] == b);
                    }
                }
            }
        }
        j = j + 1;
        proof {
            assert(j * width == (j - 1) * width + width) by (nonlinear_arith);
        }
    }
    proof {
        assert(height * width == width * height) by (nonlinear_arith);
    }
    Some(Raster { width, height, data })
}

/// The generator's pass for a shade that reads only the magnitudes of the
/// pixel-centre coordinates. The callback receives `|2x|` and `|2y|` in
/// half-pixel units, computed exactly by verified code, so that mirrored
/// pixels are shaded from identical arguments by construction; only the
/// magnitudes can enter the shade. Returns `None` exactly when the buffer
/// size `width * height` does not fit in `usize`.
pub fn generate_symmetric<G: Copy + Fn(usize, usize) -> u8>(width: usize, height: usize, g: G) -> (r:
    Option<Raster>)
    requires
        forall|mx: usize, my: usize| mx < width && my < height ==> call_requires(g, (mx, my)),
    ensures
        r is Some <==> width * height <= usize::MAX,
        r matches Some(t) ==> {
            &&& t.wf()
            &&& t.spec_width() == width
            &&& t.spec_height() == height
            &&& t@.len() == width * height
            &&& forall|i: usize, j: usize|
                i < width && j < height ==> call_ensures(
                    g,
                    (
                        abs(centered_twice_of(i as int, width as int)) as usize,
                        abs(centered_twice_of(j as int, height as int)) as usize,
                    ),
                    #[trigger] t@[pixel_slot(i as int, j as int, width as int)],
                )
        },
{
    let f = |i: usize, j: usize| -> (b: u8)
        requires
            i < width,
            j < height,
            forall|mx: usize, my: usize| mx < width && my < height ==> call_requires(g, (mx, my)),
        ensures
            call_ensures(
                g,
                (
                    abs(centered_twice_of(i as int, width as int)) as usize,
                    abs(centered_twice_of(j as int, height as int)) as usize,
                ),
                b,
            ),
        {
            g(centered_twice_mag(i, width), centered_twice_mag(j, height))
        };
    generate_with(width, height, f)
}

/// A mask that `generate_symmetric` built is unchanged by a horizontal or a
/// vertical flip whenever the callback's contract `rel` admits exactly one
/// byte per magnitude pair: mirrored pixels have equal magnitudes, which the
/// pass alone lets the shade see.
pub proof fn lemma_symmetric_mask_flips(
    b: Seq<u8>,
    rel: spec_fn(int, int, u8) -> bool,
    width: int,
    height: int,
    i: int,
    j: int,
)
    requires
        0 <= i < width,
        0 <= j < height,
        b.len() == width * height,
        forall|p: int, q: int|
            0 <= p < width && 0 <= q < height ==> rel(
                abs(centered_twice_of(p, width)) as int,
                abs(centered_twice_of(q, height)) as int,
                #[trigger] b[pixel_slot(p, q, width)],
            ),
        forall|mx: int, my: int, b1: u8, b2: u8|
            #![trigger rel(mx, my, b1), rel(mx, my, b2)]
            rel(mx, my, b1) && rel(mx, my, b2) ==> b1 == b2,
    ensures
        b[pixel_slot(mirror_of(i, width), j, width)] == b[pixel_slot(i, j, width)],
        b[pixel_slot(i, mirror_of(j, height), width)] == b[pixel_slot(i, j, width)],
{
    lemma_mirror_preserves_magnitude(i, width);
    lemma_mirror_preserves_magnitude(j, height);
    let mx = abs(centered_twice_of(i, width)) as int;
    let my = abs(centered_twice_of(j, height)) as int;
    assert(rel(mx, my, b[pixel_slot(i, j, width)]));
    assert(rel(mx, my, b[pixel_slot(mirror_of(i, width), j, width)]));
    assert(rel(mx, my, b[pixel_slot(i, mirror_of(j, height), width)]));
}

/// A mask that `generate_with` built is unchanged by a horizontal or a
/// vertical flip whenever the callback's contract `rel` admits exactly one
/// byte per pixel and admits the same byte at pixels mirrored across either
/// axis.
pub proof fn lemma_generated_flip_symmetric(
    b: Seq<u8>,
    rel: spec_fn(int, int, u8) -> bool,
    width: int,
    height: int,
    i: int,
    j: int,
)
    requires
        0 <= i < width,
        0 <= j < height,
        b.len() == width * height,
        forall|p: int, q: int|
            0 <= p < width && 0 <= q < height ==> rel(
                p,
                q,
                #[trigger] b[pixel_slot(p, q, width)],
            ),
        forall|p: int, q: int, b1: u8, b2: u8|
            #![trigger rel(p, q, b1), rel(p, q, b2)]
            rel(p, q, b1) && rel(p, q, b2) ==> b1 == b2,
        forall|p: int, q: int, c: u8|
            0 <= p < width && 0 <= q < height ==> (#[trigger] rel(p, q, c) <==> rel(
                mirror_of(p, width),
                q,
                c,
            )),
        forall|p: int, q: int, c: u8|
            0 <= p < width && 0 <= q < height ==> (#[trigger] rel(p, q, c) <==> rel(
                p,
                mirror_of(q, height),
                c,
            )),
    ensures
        b[pixel_slot(mirror_of(i, width), j, width)] == b[pixel_slot(i, j, width)],
        b[pixel_slot(i, mirror_of(j, height), width)] == b[pixel_slot(i, j, width)],
{
    let c0 = b[pixel_slot(i, j, width)];
    let ch = b[pixel_slot(mirror_of(i, width), j, width)];
    let cv = b[pixel_slot(i, mirror_of(j, height), width)];
    assert(rel(i, j, c0));
    assert(rel(mirror_of(i, width), j, ch));
    assert(rel(i, j, ch));
    assert(rel(i, mirror_of(j, height), cv));
    assert(rel(i, j, cv));
}

} // verus!
