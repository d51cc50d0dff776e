//! The image-backed texture: a decoded width x height RGB byte buffer,
//! sampled nearest-neighbour with clamped indices.
//!
//! Mapping a surface coordinate to a pixel index is floating-point work
//! and happens in the renderer around this library; here the buffer is
//! built (falling back to a single bright-yellow pixel when the encoded
//! image cannot be decoded, so a bad asset shows up instead of crashing
//! the frame) and indexed, and every lookup is proved to read exactly the
//! three bytes of the addressed pixel.

use vstd::prelude::*;

verus! {

/// What the image codec makes of a byte string: the raw RGB pixels and
/// the dimensions, or nothing when the bytes are not a decodable image.
/// Decoding is a pure function of the bytes, so the result carries a name
/// that the decoding wrapper's contract speaks of.
pub uninterp spec fn decoded_rgb(bytes: Seq<u8>) -> Option<(Seq<u8>, usize, usize)>;

/// Relies on image::load_from_memory to decode an encoded image from
/// bytes alone, and on image::DynamicImage::to_rgb8 to convert the result
/// to its raw RGB bytes and dimensions.
#[verifier::external_body]
fn decode_rgb(bytes: &Vec<u8>) -> (r: Option<(Vec<u8>, usize, usize)>)
    ensures
        match r {
            Some(d) => decoded_rgb(bytes@) == Some((d.0@, d.1, d.2)),
            None => decoded_rgb(bytes@) is None,
        },
{
    match image::load_from_memory(bytes.as_slice()) {
        Ok(img) => {
            let rgb = img.to_rgb8();
            let w = rgb.width() as usize;
            let h = rgb.height() as usize;
            Some((rgb.into_raw(), w, h))
        },
        Err(_) => None,
    }
}

/// Clamps a pixel coordinate into `[0, n)`.
pub open spec fn clamp_idx(v: int, n: int) -> int {
    if v < 0 {
        0
    } else if v >= n {
        n - 1
    } else {
        v
    }
}

/// A decoded image: `nx * ny` pixels of three bytes each, row-major from
/// the top-left corner.
pub struct ImageTexture {
    data: Vec<u8>,
    nx: usize,
    ny: usize,
}

impl ImageTexture {
    /// The raw pixel bytes, three per pixel, row-major.
    pub closed spec fn bytes(&self) -> Seq<u8> {
        self.data@
    }

    pub closed spec fn spec_nx(&self) -> usize {
        self.nx
    }

    pub closed spec fn spec_ny(&self) -> usize {
        self.ny
    }

    pub open spec fn wf(&self) -> bool {
        1 <= self.spec_nx() && 1 <= self.spec_ny() && self.bytes().len() == 3 * self.spec_nx()
            * self.spec_ny()
    }

    /// The single bright-yellow pixel that stands in for a missing or
    /// undecodable image.
    pub open spec fn is_fallback(&self) -> bool {
        self.bytes() == seq![255u8, 255u8, 0u8] && self.spec_nx() == 1 && self.spec_ny() == 1
    }

    /// Accepts a raw RGB buffer when its length matches the claimed
    /// dimensions, and substitutes the fallback pixel otherwise.
    pub fn from_rgb(data: Vec<u8>, nx: usize, ny: usize) -> (r: ImageTexture)
        ensures
            r.wf(),
            if 1 <= nx && 1 <= ny && data@.len() == 3 * nx * ny {
                r.bytes() == data@ && r.spec_nx() == nx && r.spec_ny() == ny
            } else {
                r.is_fallback()
            },
    {
        let len = data.len();
        let ok = if 1 <= nx && 1 <= ny {
            match nx.checked_mul(ny) {
                Some(p) => match p.checked_mul(3) {
                    Some(q) => q == len,
                    None => false,
                },
                None => false,
            }
        } else {
            false
        };
        proof {
            if 1 <= nx && 1 <= ny {
                assert((nx * ny) * 3 == 3 * nx * ny) by (nonlinear_arith);
            }
        }
        if ok {
            ImageTexture { data, nx, ny }
        } else {
            let fallback: Vec<u8> = vec![255u8, 255u8, 0u8];
            proof {
                assert(fallback@ =~= seq![255u8, 255u8, 0u8]);
            }
            ImageTexture { data: fallback, nx: 1, ny: 1 }
        }
    }

    /// Decodes an encoded image; an undecodable or inconsistent result
    /// becomes the fallback pixel.
    pub fn from_encoded(bytes: &Vec<u8>) -> (r: ImageTexture)
        ensures
            r.wf(),
            match decoded_rgb(bytes@) {
                Some(d) => if 1 <= d.1 && 1 <= d.2 && d.0.len() == 3 * d.1 * d.2 {
                    r.bytes() == d.0 && r.spec_nx() == d.1 && r.spec_ny() == d.2
                } else {
                    r.is_fallback()
                },
                None => r.is_fallback(),
            },
    {
        match decode_rgb(bytes) {
            Some(d) => Self::from_rgb(d.0, d.1, d.2),
            None => Self::from_rgb(Vec::new(), 0, 0),
        }
    }

    pub fn nx(&self) -> (r: usize)
        ensures
            r == self.spec_nx(),
    {
        self.nx
    }

    pub fn ny(&self) -> (r: usize)
        ensures
            r == self.spec_ny(),
    {
        self.ny
    }

    /// Reads the pixel nearest to `(i, j)`, clamping both coordinates
    /// into the image, and returns its three bytes in RGB order.
    pub fn texel(&self, i: i32, j: i32) -> (r: (u8, u8, u8))
        requires
            self.wf(),
        ensures
            ({
                let ci = clamp_idx(i as int, self.spec_nx() as int);
                let cj = clamp_idx(j as int, self.spec_ny() as int);
                let base = 3 * (ci + self.spec_nx() * cj);
                r.0 == self.bytes()[base] && r.1 == self.bytes()[base + 1] && r.2
                    == self.bytes()[base + 2]
            }),
    {
        let nx = self.nx;
        let ny = self.ny;
        let ci: usize = if i < 0 {
            0
        } else {
            let iu = i as usize;
            if iu >= nx {
                nx - 1
            } else {
                iu
            }
        };
        let cj: usize = if j < 0 {
            0
        } else {
            let ju = j as usize;
            if ju >= ny {
                ny - 1
            } else {
                ju
            }
        };
        let _n = self.data.len();
        proof {
            assert(ci == clamp_idx(i as int, self.spec_nx() as int));
            assert(cj == clamp_idx(j as int, self.spec_ny() as int));
            assert(3 * (ci + nx * cj) + 2 < 3 * nx * ny) by (nonlinear_arith)
                requires
                    ci < nx,
                    cj < ny,
            ;
        }
        let base = 3 * (ci + nx * cj);
        (self.data[base], self.data[base + 1], self.data[base + 2])
    }
}

} // verus!
