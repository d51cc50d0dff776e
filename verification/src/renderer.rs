//! Packing of tone-mapped colour channels into 32-bit pixels, and the
//! framebuffer that collects one rendered frame.
//!
//! The frame is a `width * height` buffer of packed pixels in row-major
//! order with the top row first; rendering fills it one pixel or one
//! scanline at a time.

use vstd::prelude::*;

verus! {

/// Packs three 8-bit colour channels into one `0xAARRGGBB` pixel with the
/// alpha channel fixed at 255.
pub fn argb(r: u32, g: u32, b: u32) -> (c: u32)
    requires
        r < 256,
        g < 256,
        b < 256,
    ensures
        c == 0xFF000000u32 + r * 0x10000 + g * 0x100 + b,
{
    proof {
        assert((255u32 << 24) | (r << 16) | (g << 8) | b == 0xFF000000u32 + r * 0x10000 + g
            * 0x100 + b) by (bit_vector)
            requires
                r < 256,
                g < 256,
                b < 256,
        ;
    }
    (255u32 << 24) | (r << 16) | (g << 8) | b
}

/// One rendered frame: a `width * height` buffer of packed pixels,
/// row-major, top row first.
pub struct Framebuffer {
    width: usize,
    height: usize,
    data: Vec<u32>,
}

impl Framebuffer {
    pub closed spec fn spec_width(&self) -> nat {
        self.width as nat
    }

    pub closed spec fn spec_height(&self) -> nat {
        self.height as nat
    }

    /// The pixels, row-major, top row first.
    pub closed spec fn pixels(&self) -> Seq<u32> {
        self.data@
    }

    pub open spec fn wf(&self) -> bool {
        self.pixels().len() == self.spec_width() * self.spec_height()
    }

    /// Where pixel `(i, j)` of the image sits in the buffer: row `j` from
    /// the top, column `i` from the left.
    pub open spec fn pixel_index(&self, i: int, j: int) -> int {
        j * self.spec_width() + i
    }

    /// A black frame of the given dimensions; `None` only when
    /// `width * height` does not fit in `usize`.
    pub fn new(width: usize, height: usize) -> (fb: Option<Framebuffer>)
        ensures
            match fb {
                Some(f) => f.wf() && f.spec_width() == width && f.spec_height() == height
                    && f.pixels() =~= Seq::new((width * height) as nat, |k: int| 0u32),
                None => width * height > usize::MAX,
            },
    {
        match width.checked_mul(height) {
            Some(n) => {
                let data: Vec<u32> = vec![0u32; n];
                Some(Framebuffer { width, height, data })
            },
            None => None,
        }
    }

    pub fn width(&self) -> (r: usize)
        ensures
            r == self.spec_width(),
    {
        self.width
    }

    pub fn height(&self) -> (r: usize)
        ensures
            r == self.spec_height(),
    {
        self.height
    }

    /// Writes one pixel; everything else is untouched.
    pub fn set_pixel(&mut self, i: usize, j: usize, c: u32)
        requires
            old(self).wf(),
            i < old(self).spec_width(),
            j < old(self).spec_height(),
        ensures
            final(self).wf(),
            final(self).spec_width() == old(self).spec_width(),
            final(self).spec_height() == old(self).spec_height(),
            final(self).pixels() == old(self).pixels().update(
                old(self).pixel_index(i as int, j as int),
                c,
            ),
    {
        let _n = self.data.len();
        proof {
            assert(j * self.width + i < self.height * self.width) by (nonlinear_arith)
                requires
                    i < self.width,
                    j < self.height,
            ;
            assert(self.height * self.width == self.width * self.height) by (nonlinear_arith);
        }
        let idx = j * self.width + i;
        self.data.set(idx, c);
    }

    pub fn get_pixel(&self, i: usize, j: usize) -> (c: u32)
        requires
            self.wf(),
            i < self.spec_width(),
            j < self.spec_height(),
        ensures
            c == self.pixels()[self.pixel_index(i as int, j as int)],
    {
        let _n = self.data.len();
        proof {
            assert(j * self.width + i < self.height * self.width) by (nonlinear_arith)
                requires
                    i < self.width,
                    j < self.height,
            ;
            assert(self.height * self.width == self.width * self.height) by (nonlinear_arith);
        }
        let idx = j * self.width + i;
        self.data[idx]
    }

    /// Replaces scanline `j` with `row`; all other rows are untouched.
    pub fn set_row(&mut self, j: usize, row: &Vec<u32>)
        requires
            old(self).wf(),
            j < old(self).spec_height(),
            row@.len() == old(self).spec_width(),
        ensures
            final(self).wf(),
            final(self).spec_width() == old(self).spec_width(),
            final(self).spec_height() == old(self).spec_height(),
            forall|k: int|
                0 <= k < final(self).pixels().len() ==> final(self).pixels()[k] == (if old(
                    self,
                ).pixel_index(0, j as int) <= k < old(self).pixel_index(0, j as int + 1) {
                    row@[k - old(self).pixel_index(0, j as int)]
                } else {
                    old(self).pixels()[k]
                }),
    {
        let width = self.width;
        let ghost base = j as int * self.spec_width() as int;
        let mut i: usize = 0;
        while i < width
            invariant
                self.wf(),
                self.spec_width() == old(self).spec_width(),
                self.spec_height() == old(self).spec_height(),
                width == self.spec_width(),
                i <= width,
                j < self.spec_height(),
                row@.len() == self.spec_width(),
                base == j as int * self.spec_width() as int,
                self.pixels().len() == old(self).pixels().len(),
                forall|k: int|
                    0 <= k < self.pixels().len() ==> self.pixels()[k] == (if base <= k < base
                        + i {
                        row@[k - base]
                    } else {
                        old(self).pixels()[k]
                    }),
            decreases width - i,
        {
            let ghost prev = self.pixels();
            proof {
                assert(self.pixel_index(i as int, j as int) == base + i);
                assert(base + i < self.pixels().len()) by (nonlinear_arith)
                    requires
                        base == j as int * self.spec_width() as int,
                        i < self.spec_width(),
                        j < self.spec_height(),
                        self.pixels().len() == self.spec_width() * self.spec_height(),
                ;
            }
            let c = row[i];
            proof {
                assert(c == row@[i as int]);
            }
            self.set_pixel(i, j, c);
            proof {
                assert(self.pixels() == prev.update(base + i, c));
                assert forall|k: int| 0 <= k < self.pixels().len() implies self.pixels()[k] == (
                if base <= k < base + i + 1 {
                    row@[k - base]
                } else {
                    old(self).pixels()[k]
                }) by {
                    if k == base + i {
                        assert(self.pixels()[k] == row@[i as int]);
                    } else {
                        assert(self.pixels()[k] == prev[k]);
                    }
                }
            }
            i = i + 1;
        }
        proof {
            let w = self.spec_width() as int;
            let jj = j as int;
            assert((jj + 1) * w == jj * w + w) by (nonlinear_arith);
        }
    }

    /// Hands the finished frame over, row-major, top row first.
    pub fn into_vec(self) -> (v: Vec<u32>)
        ensures
            v@ == self.pixels(),
    {
        self.data
    }
}

} // verus!
