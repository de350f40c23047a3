use vstd::prelude::*;
use crate::geometry::{CELLS, HEIGHT, WIDTH, in_stamp, col_of, row_of, lemma_index_parts, span, covers};
use crate::pixel::{CHANNEL_MAX, clamp_channel, shows, same_pixel};

verus! {

/// A canvas of `WIDTH x HEIGHT` pixels. Each pixel has a cell holding its
/// current pigment, of type `P`, and four bytes (R, G, B, A) in a row-major
/// buffer that shows the colour of that pigment.
pub struct ImageBuffer<P> {
    pigment: Vec<P>,
    rgb: Vec<u32>,
}

impl<P> ImageBuffer<P> {
    /// The pigment of each pixel, row-major.
    pub closed spec fn cells(&self) -> Seq<P> {
        self.pigment@
    }

    /// The RGBA bytes, four per pixel, row-major.
    pub closed spec fn bytes(&self) -> Seq<u32> {
        self.rgb@
    }

    /// One cell per pixel, four bytes per pixel, every byte in `[0, 255]` and
    /// every pixel opaque.
    pub open spec fn wf(&self) -> bool {
        &&& self.cells().len() == CELLS
        &&& self.bytes().len() == 4 * CELLS
        &&& forall|i: int| 0 <= i < 4 * CELLS ==> #[trigger] self.bytes()[i] <= CHANNEL_MAX
        &&& forall|p: int| 0 <= p < CELLS ==> #[trigger] self.bytes()[4 * p + 3] == CHANNEL_MAX
    }

    /// Pigment of pixel `p`.
    pub fn cell(&self, p: usize) -> (r: &P)
        requires
            self.wf(),
            p < CELLS,
        ensures
            *r == self.cells()[p as int],
    {
        &self.pigment[p]
    }

    /// The RGBA bytes as a flat row-major view, four per pixel.
    pub fn rgb(&self) -> (r: &[u32])
        ensures
            r@ == self.bytes(),
    {
        self.rgb.as_slice()
    }
}

impl<P: Copy> ImageBuffer<P> {
    /// A canvas whose every cell holds `white` and whose every byte is 255
    /// (opaque white), until `init` paints the colour of `white`.
    pub fn new(white: P) -> (r: Self)
        ensures
            r.wf(),
            forall|p: int| 0 <= p < CELLS ==> #[trigger] r.cells()[p] == white,
            forall|i: int| 0 <= i < 4 * CELLS ==> #[trigger] r.bytes()[i] == CHANNEL_MAX,
    {
        let mut pigment: Vec<P> = Vec::new();
        let mut i: usize = 0;
        while i < CELLS
            invariant
                i <= CELLS,
                pigment@.len() == i,
                forall|p: int| 0 <= p < i ==> #[trigger] pigment@[p] == white,
            decreases CELLS - i,
        {
            pigment.push(white);
            i = i + 1;
        }
        let mut rgb: Vec<u32> = Vec::new();
        let mut j: usize = 0;
        while j < 4 * CELLS
            invariant
                j <= 4 * CELLS,
                rgb@.len() == j,
                forall|k: int| 0 <= k < j ==> #[trigger] rgb@[k] == CHANNEL_MAX,
            decreases 4 * CELLS - j,
        {
            rgb.push(CHANNEL_MAX);
            j = j + 1;
        }
        let r = ImageBuffer { pigment, rgb };
        assert forall|p: int| 0 <= p < CELLS implies #[trigger] r.bytes()[4 * p + 3] == CHANNEL_MAX by {
            assert(0 <= 4 * p + 3 < 4 * CELLS);
        }
        r
    }
}

impl<P> ImageBuffer<P> {
    /// Writes the clamped colour `rgb`, opaque, into pixel `p`.
    fn put_pixel(&mut self, p: usize, rgb: [u32; 3])
        requires
            old(self).wf(),
            p < CELLS,
        ensures
            final(self).wf(),
            final(self).cells() == old(self).cells(),
            shows(final(self).bytes(), p as int, rgb),
            forall|q: int| 0 <= q < CELLS && q != p ==>
                #[trigger] same_pixel(final(self).bytes(), old(self).bytes(), q),
    {
        let i = 4 * p;
        self.rgb.set(i, clamp_channel(rgb[0]));
        self.rgb.set(i + 1, clamp_channel(rgb[1]));
        self.rgb.set(i + 2, clamp_channel(rgb[2]));
        self.rgb.set(i + 3, CHANNEL_MAX);
        assert forall|p2: int| 0 <= p2 < CELLS implies #[trigger] self.bytes()[4 * p2 + 3] == CHANNEL_MAX by {
            if p2 != p {
                assert(self.bytes()[4 * p2 + 3] == old(self).bytes()[4 * p2 + 3]);
            }
        }
    }

    /// Paints the clamped colour `rgb` into every pixel; the cells keep their
    /// pigment. Pixel `i` is addressed as row `i / HEIGHT`, column
    /// `i % WIDTH`, which on this square canvas is pixel `i` itself.
    pub fn init(&mut self, rgb: [u32; 3])
        requires
            old(self).wf(),
        ensures
            final(self).wf(),
            final(self).cells() == old(self).cells(),
            forall|p: int| 0 <= p < CELLS ==> #[trigger] shows(final(self).bytes(), p, rgb),
    {
        let mut i: usize = 0;
        while i < CELLS
            invariant
                self.wf(),
                i <= CELLS,
                self.cells() == old(self).cells(),
                forall|p: int| 0 <= p < i ==> #[trigger] shows(self.bytes(), p, rgb),
            decreases CELLS - i,
        {
            let index: usize = (i / HEIGHT) * WIDTH + (i % WIDTH);
            assert(index == i);
            let ghost before = self.bytes();
            self.put_pixel(index, rgb);
            assert forall|p: int| 0 <= p < i + 1 implies #[trigger] shows(self.bytes(), p, rgb) by {
                if p != i {
                    assert(same_pixel(self.bytes(), before, p));
                    assert(shows(before, p, rgb));
                }
            }
            i = i + 1;
        }
    }
}

impl<P> ImageBuffer<P> {
    /// Pixel `p` holds in `new` the pigment and bytes that it holds in `self`.
    pub open spec fn kept(self, new: Self, p: int) -> bool {
        &&& new.cells()[p] == self.cells()[p]
        &&& same_pixel(new.bytes(), self.bytes(), p)
    }

    /// Pixel `p` of `new` is what one visit of a stamp made of pixel `p` of
    /// `self`: `mix`, called with its pigment and its offset `(dx, dy)` from the
    /// stamp's centre, either declined, and the pixel is kept, or gave a pigment
    /// and a colour, which the pixel now holds (the colour clamped, opaque).
    pub open spec fn mixed<F: Fn(P, i32, i32) -> Option<(P, [u32; 3])>>(
        self,
        new: Self,
        mix: F,
        p: int,
        dx: int,
        dy: int,
    ) -> bool {
        exists|res: Option<(P, [u32; 3])>|
            #[trigger] mix.ensures((self.cells()[p], dx as i32, dy as i32), res) && match res {
                None => self.kept(new, p),
                Some(v) => new.cells()[p] == v.0 && shows(new.bytes(), p, v.1),
            }
    }

    /// Pixel `p` of `new` after a stamp centred on column `x`, row `y`, of
    /// radius `r`, applied to `self`: mixed if it lies in the stamp's square,
    /// kept if not.
    pub open spec fn stamped<F: Fn(P, i32, i32) -> Option<(P, [u32; 3])>>(
        self,
        new: Self,
        x: int,
        y: int,
        r: int,
        mix: F,
        p: int,
    ) -> bool {
        if in_stamp(x, y, r, p) {
            self.mixed(new, mix, p, col_of(p) - x, row_of(p) - y)
        } else {
            self.kept(new, p)
        }
    }

    /// As `stamped`, for a stamp whose visit has reached column `col` of row
    /// `row`: the pixels of the square before that point are mixed.
    spec fn stamped_before<F: Fn(P, i32, i32) -> Option<(P, [u32; 3])>>(
        self,
        new: Self,
        x: int,
        y: int,
        r: int,
        mix: F,
        p: int,
        row: int,
        col: int,
    ) -> bool {
        if in_stamp(x, y, r, p) && (row_of(p) < row || (row_of(p) == row && col_of(p) < col)) {
            self.mixed(new, mix, p, col_of(p) - x, row_of(p) - y)
        } else {
            self.kept(new, p)
        }
    }
}

impl<P: Copy> ImageBuffer<P> {
    /// Applies one brush stamp centred on column `x`, row `y`, of radius `r`.
    ///
    /// The stamp visits, row by row, each pixel of the square
    /// `[x - r, x + r) x [y - r, y + r)` that lies on the canvas, and calls
    /// `mix` with the pixel's pigment and its offset `(dx, dy)` from the centre.
    /// `mix` returns `None` to leave the pixel as it is, or the new pigment and
    /// its colour, which the pixel then holds (each channel clamped to 255, and
    /// opaque). Every other pixel is left as it is; a radius of 0 or less
    /// visits nothing.
    pub fn update<F>(&mut self, x: i32, y: i32, r: i32, mix: F)
        where
            F: Fn(P, i32, i32) -> Option<(P, [u32; 3])>,
        requires
            old(self).wf(),
            forall|c: P, dx: i32, dy: i32| #[trigger] mix.requires((c, dx, dy)),
        ensures
            final(self).wf(),
            forall|p: int|
                0 <= p < CELLS ==> #[trigger] old(self).stamped(
                    *final(self),
                    x as int,
                    y as int,
                    r as int,
                    mix,
                    p,
                ),
    {
        let ghost start = *self;
        let (y0, y1) = span(y, r, HEIGHT);
        let (x0, x1) = span(x, r, WIDTH);
        let mut py: usize = y0;
        assert forall|p: int| 0 <= p < CELLS implies #[trigger] start.stamped_before(
            *self, x as int, y as int, r as int, mix, p, y0 as int, 0) by {
            if in_stamp(x as int, y as int, r as int, p) {
                assert(covers(y as int, r as int, HEIGHT as int, row_of(p)));
            }
        }
        while py < y1
            invariant
                self.wf(),
                forall|c: P, dx: i32, dy: i32| #[trigger] mix.requires((c, dx, dy)),
                y0 <= py <= y1 <= HEIGHT,
                x0 <= x1 <= WIDTH,
                forall|v: int| y0 <= v < y1 <==> #[trigger] covers(y as int, r as int, HEIGHT as int, v),
                forall|v: int| x0 <= v < x1 <==> #[trigger] covers(x as int, r as int, WIDTH as int, v),
                forall|p: int|
                    0 <= p < CELLS ==> #[trigger] start.stamped_before(
                        *self,
                        x as int,
                        y as int,
                        r as int,
                        mix,
                        p,
                        py as int,
                        0,
                    ),
            decreases y1 - py,
        {
            let mut px: usize = x0;
            assert forall|p: int| 0 <= p < CELLS implies #[trigger] start.stamped_before(
                *self, x as int, y as int, r as int, mix, p, py as int, x0 as int) by {
                assert(start.stamped_before(*self, x as int, y as int, r as int, mix, p, py as int, 0));
                if in_stamp(x as int, y as int, r as int, p) {
                    assert(covers(x as int, r as int, WIDTH as int, col_of(p)));
                }
            }
            while px < x1
                invariant
                    self.wf(),
                    forall|c: P, dx: i32, dy: i32| #[trigger] mix.requires((c, dx, dy)),
                    y0 <= py < y1 <= HEIGHT,
                    x0 <= px <= x1 <= WIDTH,
                    forall|v: int| y0 <= v < y1 <==> #[trigger] covers(y as int, r as int, HEIGHT as int, v),
                    forall|v: int| x0 <= v < x1 <==> #[trigger] covers(x as int, r as int, WIDTH as int, v),
                    forall|p: int|
                        0 <= p < CELLS ==> #[trigger] start.stamped_before(
                            *self,
                            x as int,
                            y as int,
                            r as int,
                            mix,
                            p,
                            py as int,
                            px as int,
                        ),
                decreases x1 - px,
            {
                let q: usize = py * WIDTH + px;
                proof {
                    lemma_index_parts(py as int, px as int);
                    assert(covers(x as int, r as int, WIDTH as int, px as int));
                    assert(covers(y as int, r as int, HEIGHT as int, py as int));
                    assert(in_stamp(x as int, y as int, r as int, q as int));
                    assert(start.stamped_before(*self, x as int, y as int, r as int, mix, q as int, py as int, px as int));
                }
                let dx: i32 = (px as i64 - x as i64) as i32;
                let dy: i32 = (py as i64 - y as i64) as i32;
                let ghost before = *self;
                let res = mix(self.pigment[q], dx, dy);
                match res {
                    None => {},
                    Some(v) => {
                        self.pigment.set(q, v.0);
                        self.put_pixel(q, v.1);
                    },
                }
                proof {
                    assert(start.mixed(*self, mix, q as int, col_of(q as int) - x, row_of(q as int) - y));
                    assert forall|p: int| 0 <= p < CELLS implies #[trigger] start.stamped_before(
                        *self, x as int, y as int, r as int, mix, p, py as int, px + 1) by {
                        if p != q {
                            assert(start.stamped_before(before, x as int, y as int, r as int, mix, p, py as int, px as int));
                            assert(before.kept(*self, p));
                            if p / (WIDTH as int) == py as int {
                                assert(p % (WIDTH as int) != px as int) by {
                                    vstd::arithmetic::div_mod::lemma_fundamental_div_mod(p, WIDTH as int);
                                }
                            }
                        }
                    }
                }
                px = px + 1;
            }
            assert forall|p: int| 0 <= p < CELLS implies #[trigger] start.stamped_before(
                *self, x as int, y as int, r as int, mix, p, py + 1, 0) by {
                assert(start.stamped_before(*self, x as int, y as int, r as int, mix, p, py as int, x1 as int));
                if in_stamp(x as int, y as int, r as int, p) {
                    assert(covers(x as int, r as int, WIDTH as int, col_of(p)));
                }
            }
            py = py + 1;
        }
        assert forall|p: int| 0 <= p < CELLS implies #[trigger] start.stamped(
            *self, x as int, y as int, r as int, mix, p) by {
            assert(start.stamped_before(*self, x as int, y as int, r as int, mix, p, y1 as int, 0));
            if in_stamp(x as int, y as int, r as int, p) {
                assert(covers(y as int, r as int, HEIGHT as int, row_of(p)));
            }
        }
    }
}

} // verus!
