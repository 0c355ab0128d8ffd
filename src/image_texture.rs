use vstd::prelude::*;
use std::sync::Arc;

verus! {

/// `c` clamped to the last slot below `len`, which is positive.
pub open spec fn clamp_slot(c: u32, len: u32) -> u32 {
    if c < len {
        c
    } else {
        (len - 1) as u32
    }
}

/// The byte offset of the pixel at column `x`, row `y` of a row-major RGB
/// buffer `width` pixels wide.
pub open spec fn pixel_offset(width: u32, x: u32, y: u32) -> int {
    3 * (y as int * width as int + x as int)
}

/// A texture looked up in an RGB image: `width` by `height` pixels, stored
/// row by row, three bytes (red, green, blue) per pixel. The bytes are
/// shared cheaply between the materials that use the texture.
#[derive(Clone)]
pub struct Image {
    pub width: u32,
    pub height: u32,
    pub data: Arc<Vec<u8>>,
}

impl Image {
    pub open spec fn wf(&self) -> bool {
        self.data@.len() == 3 * (self.width as int) * (self.height as int)
    }

    /// The image whose rows of RGB bytes are `data`.
    pub fn new(width: u32, height: u32, data: Vec<u8>) -> (r: Image)
        requires
            data@.len() == 3 * (width as int) * (height as int),
        ensures
            r.wf(),
            r.width == width,
            r.height == height,
            r.data@ == data@,
    {
        Image { width, height, data: Arc::new(data) }
    }

    /// The texel at column `i`, row `j`, each clamped to the image's last
    /// column and row; `None` for an image with no pixels.
    pub fn texel(&self, i: u32, j: u32) -> (r: Option<(u8, u8, u8)>)
        requires
            self.wf(),
        ensures
            (r is None) == (self.width == 0 || self.height == 0),
            r is Some ==> ({
                let o = pixel_offset(
                    self.width,
                    clamp_slot(i, self.width),
                    clamp_slot(j, self.height),
                );
                r->0 == (self.data@[o], self.data@[o + 1], self.data@[o + 2])
            }),
    {
        if self.width == 0 || self.height == 0 {
            return None;
        }
        let x: u32 = if i < self.width {
            i
        } else {
            self.width - 1
        };
        let y: u32 = if j < self.height {
            j
        } else {
            self.height - 1
        };
        let data: &Vec<u8> = &self.data;
        let n = data.len();
        proof {
            let w = self.width as int;
            let h = self.height as int;
            assert((y as int) * w + (x as int) < h * w) by (nonlinear_arith)
                requires
                    0 <= (x as int) < w,
                    0 <= (y as int) < h,
            ;
            assert(3 * (h * w) == 3 * w * h) by (nonlinear_arith);
            assert((y as int) * w <= (y as int) * w + (x as int));
        }
        let o: usize = 3 * ((y as usize) * (self.width as usize) + (x as usize));
        Some((data[o], data[o + 1], data[o + 2]))
    }
}

} // verus!
