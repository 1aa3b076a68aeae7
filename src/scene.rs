use vstd::prelude::*;

verus! {

/// The pixel grid a camera projects rays through.
///
/// `width` and `height` count output pixels; `pixel_density` scales the grid
/// to the logical extent of the plane that ray generation works in.
#[derive(Debug, Clone, Copy, PartialEq, Eq, Structural)]
pub struct ImagePlane {
    pub width: u32,
    pub height: u32,
    pub pixel_density: u16,
}

impl ImagePlane {
    /// Number of bytes of a buffer with three channels per pixel.
    pub open spec fn spec_buffer_len(&self) -> int {
        self.width * self.height * 3
    }

    /// Whether `(x, y)` addresses a pixel of the grid.
    pub open spec fn spec_contains(&self, x: int, y: int) -> bool {
        0 <= x < self.width && 0 <= y < self.height
    }

    pub fn contains(&self, x: u32, y: u32) -> (r: bool)
        ensures
            r == self.spec_contains(x as int, y as int),
    {
        x < self.width && y < self.height
    }

    /// Horizontal extent of the plane in logical units: `width * pixel_density`.
    pub fn image_width(&self) -> (r: u64)
        ensures
            r == self.width * self.pixel_density,
    {
        proof {
            assert(self.width * self.pixel_density <= 0xffff_ffff * 0xffff) by (nonlinear_arith)
                requires
                    self.width <= 0xffff_ffff,
                    self.pixel_density <= 0xffff,
            ;
        }
        self.width as u64 * self.pixel_density as u64
    }

    /// Vertical extent of the plane in logical units: `height * pixel_density`.
    pub fn image_height(&self) -> (r: u64)
        ensures
            r == self.height * self.pixel_density,
    {
        proof {
            assert(self.height * self.pixel_density <= 0xffff_ffff * 0xffff) by (nonlinear_arith)
                requires
                    self.height <= 0xffff_ffff,
                    self.pixel_density <= 0xffff,
            ;
        }
        self.height as u64 * self.pixel_density as u64
    }

    /// Length of an RGB buffer for this grid, or `None` where it does not fit
    /// in `usize`.
    pub fn buffer_len(&self) -> (r: Option<usize>)
        ensures
            r == (if self.spec_buffer_len() <= usize::MAX {
                Some(self.spec_buffer_len() as usize)
            } else {
                None::<usize>
            }),
    {
        let w = self.width as usize;
        let h = self.height as usize;
        match w.checked_mul(h) {
            None => {
                proof {
                    assert(self.spec_buffer_len() >= w * h) by (nonlinear_arith)
                        requires
                            self.spec_buffer_len() == w * h * 3,
                            w * h >= 0,
                    ;
                }
                None
            },
            Some(n) => n.checked_mul(3),
        }
    }
}

} // verus!
