use vstd::prelude::*;

use crate::color::Color;
use crate::scene::ImagePlane;

verus! {

/// Row-major position of pixel `(x, y)` in a grid `width` pixels wide.
pub open spec fn pixel_index(width: int, x: int, y: int) -> int {
    y * width + x
}

/// The color stored for the pixel at row-major position `i` of an RGB buffer.
pub open spec fn color_at(bytes: Seq<u8>, i: int) -> Color {
    Color { r: bytes[3 * i], g: bytes[3 * i + 1], b: bytes[3 * i + 2] }
}

proof fn lemma_pixel_index_in_grid(w: int, h: int, x: int, y: int)
    requires
        0 <= x < w,
        0 <= y < h,
    ensures
        0 <= y * w <= pixel_index(w, x, y) < w * h,
        3 * pixel_index(w, x, y) + 2 < w * h * 3,
{
    assert(0 <= y * w <= y * w + x < w * h) by (nonlinear_arith)
        requires
            0 <= x < w,
            0 <= y < h,
    ;
}

proof fn lemma_pixel_index_injective(w: int, x1: int, y1: int, x2: int, y2: int)
    requires
        0 <= x1 < w,
        0 <= x2 < w,
        0 <= y1,
        0 <= y2,
        pixel_index(w, x1, y1) == pixel_index(w, x2, y2),
    ensures
        x1 == x2,
        y1 == y2,
{
    if y1 < y2 {
        assert(y1 * w + x1 < y2 * w + x2) by (nonlinear_arith)
            requires
                0 <= x1 < w,
                0 <= x2,
                y1 < y2,
        ;
    } else if y2 < y1 {
        assert(y2 * w + x2 < y1 * w + x1) by (nonlinear_arith)
            requires
                0 <= x2 < w,
                0 <= x1,
                y2 < y1,
        ;
    }
}

/// An RGB image: three bytes per pixel, rows stored one after another.
pub struct Image {
    image: Vec<u8>,
    width: u32,
    height: u32,
}

impl Image {
    pub closed spec fn spec_width(&self) -> nat {
        self.width as nat
    }

    pub closed spec fn spec_height(&self) -> nat {
        self.height as nat
    }

    /// The buffer's bytes.
    pub closed spec fn bytes(&self) -> Seq<u8> {
        self.image@
    }

    /// The buffer holds exactly three bytes for each pixel of the grid.
    pub open spec fn well_formed(&self) -> bool {
        self.bytes().len() == self.spec_width() * self.spec_height() * 3
    }

    pub open spec fn in_bounds(&self, x: int, y: int) -> bool {
        0 <= x < self.spec_width() && 0 <= y < self.spec_height()
    }

    /// The color of pixel `(x, y)`.
    pub open spec fn pixel(&self, x: int, y: int) -> Color {
        color_at(self.bytes(), pixel_index(self.spec_width() as int, x, y))
    }

    /// An image of `width` by `height` pixels, each of color `fill`.
    pub fn new(width: u32, height: u32, fill: Color) -> (img: Image)
        requires
            width * height * 3 <= usize::MAX,
        ensures
            img.well_formed(),
            img.spec_width() == width,
            img.spec_height() == height,
            forall|x: int, y: int| img.in_bounds(x, y) ==> #[trigger] img.pixel(x, y) == fill,
    {
        proof {
            assert(width * height <= width * height * 3) by (nonlinear_arith)
                requires
                    width * height >= 0,
            ;
        }
        let count: usize = width as usize * height as usize;
        let mut image: Vec<u8> = Vec::new();
        let mut i: usize = 0;
        while i < count
            invariant
                count == width * height,
                count * 3 <= usize::MAX,
                i <= count,
                image.len() == 3 * i,
                forall|j: int| 0 <= j < i ==> #[trigger] color_at(image@, j) == fill,
            decreases count - i,
        {
            let ghost prev = image@;
            image.push(fill.r);
            image.push(fill.g);
            image.push(fill.b);
            assert forall|j: int| 0 <= j < i + 1 implies #[trigger] color_at(image@, j) == fill by {
                if j < i {
                    assert(color_at(prev, j) == fill);
                    assert(image@[3 * j] == prev[3 * j]);
                    assert(image@[3 * j + 1] == prev[3 * j + 1]);
                    assert(image@[3 * j + 2] == prev[3 * j + 2]);
                }
            }
            i = i + 1;
        }
        let img = Image { image, width, height };
        assert forall|x: int, y: int| img.in_bounds(x, y) implies #[trigger] img.pixel(x, y)
            == fill by {
            lemma_pixel_index_in_grid(width as int, height as int, x, y);
        }
        img
    }

    /// Writes `color` into pixel `(x, y)`, at byte offset `(y * width + x) * 3`;
    /// every other pixel keeps its color.
    pub fn set_pixel(&mut self, x: u32, y: u32, color: Color)
        requires
            old(self).well_formed(),
            old(self).in_bounds(x as int, y as int),
        ensures
            final(self).well_formed(),
            final(self).spec_width() == old(self).spec_width(),
            final(self).spec_height() == old(self).spec_height(),
            final(self).pixel(x as int, y as int) == color,
            forall|px: int, py: int|
                old(self).in_bounds(px, py) && (px != x || py != y) ==> #[trigger] final(self).pixel(
                    px,
                    py,
                ) == old(self).pixel(px, py),
    {
        let ghost w = self.width as int;
        let ghost h = self.height as int;
        proof {
            lemma_pixel_index_in_grid(w, h, x as int, y as int);
            assert(self.image.len() == w * h * 3);
        }
        let ix = x as usize;
        let iy = y as usize;
        let width = self.width as usize;
        let offset: usize = (iy * width + ix) * 3;
        self.image.set(offset, color.r);
        self.image.set(offset + 1, color.g);
        self.image.set(offset + 2, color.b);
        assert forall|px: int, py: int|
            old(self).in_bounds(px, py) && (px != x || py != y) implies #[trigger] self.pixel(px, py)
            == old(self).pixel(px, py) by {
            lemma_pixel_index_in_grid(w, h, px, py);
            if pixel_index(w, px, py) == pixel_index(w, x as int, y as int) {
                lemma_pixel_index_injective(w, px, py, x as int, y as int);
            }
        }
    }

    /// The color of pixel `(x, y)`.
    pub fn get_pixel(&self, x: u32, y: u32) -> (c: Color)
        requires
            self.well_formed(),
            self.in_bounds(x as int, y as int),
        ensures
            c == self.pixel(x as int, y as int),
    {
        proof {
            lemma_pixel_index_in_grid(self.width as int, self.height as int, x as int, y as int);
            assert(self.image.len() == self.width * self.height * 3);
        }
        let offset: usize = (y as usize * self.width as usize + x as usize) * 3;
        Color { r: self.image[offset], g: self.image[offset + 1], b: self.image[offset + 2] }
    }

    pub fn width(&self) -> (r: u32)
        ensures
            r == self.spec_width(),
    {
        self.width
    }

    pub fn height(&self) -> (r: u32)
        ensures
            r == self.spec_height(),
    {
        self.height
    }

    /// The raw buffer, row-major with three channels per pixel.
    pub fn into_bytes(self) -> (r: Vec<u8>)
        ensures
            r@ == self.bytes(),
    {
        self.image
    }
}

} // verus!

verus! {

/// The color written where a ray hits nothing.
pub open spec fn background() -> Color {
    Color { r: 0, g: 0, b: 0 }
}

/// The color of a pixel whose ray resolved to `hit`: the shaded color of the
/// nearest intersection, or the background where there is none.
pub open spec fn spec_pixel_color(hit: Option<Color>) -> Color {
    match hit {
        Some(c) => c,
        None => background(),
    }
}

/// `c` is a color that tracing pixel `(x, y)` can produce.
pub open spec fn traced<F: Fn(u32, u32) -> Option<Color>>(trace: F, x: u32, y: u32, c: Color) -> bool {
    exists|hit: Option<Color>| call_ensures(trace, (x, y), hit) && spec_pixel_color(hit) == c
}

/// `img` covers `plane` and each of its pixels holds what tracing that pixel gives.
pub open spec fn rendered<F: Fn(u32, u32) -> Option<Color>>(
    img: Image,
    plane: ImagePlane,
    trace: F,
) -> bool {
    &&& img.well_formed()
    &&& img.spec_width() == plane.width
    &&& img.spec_height() == plane.height
    &&& forall|x: int, y: int|
        plane.spec_contains(x, y) ==> traced(trace, x as u32, y as u32, #[trigger] img.pixel(x, y))
}

/// Resolves the outcome of tracing one pixel to the color written for it.
pub fn pixel_color(hit: Option<Color>) -> (c: Color)
    ensures
        c == spec_pixel_color(hit),
{
    match hit {
        Some(c) => c,
        None => Color::black(),
    }
}

/// Renders every pixel of `plane`. `trace(x, y)` casts the camera's ray
/// through pixel `(x, y)` and returns the shaded color of the nearest hit, or
/// `None` where the ray meets nothing; misses are written as the background.
pub fn render<F: Fn(u32, u32) -> Option<Color>>(plane: &ImagePlane, trace: F) -> (img: Image)
    requires
        plane.spec_buffer_len() <= usize::MAX,
        forall|x: u32, y: u32|
            plane.spec_contains(x as int, y as int) ==> call_requires(trace, (x, y)),
    ensures
        rendered(img, *plane, trace),
{
    let mut image = Image::new(plane.width, plane.height, Color::black());
    let mut x: u32 = 0;
    while x < plane.width
        invariant
            x <= plane.width,
            forall|x: u32, y: u32|
                plane.spec_contains(x as int, y as int) ==> call_requires(trace, (x, y)),
            image.well_formed(),
            image.spec_width() == plane.width,
            image.spec_height() == plane.height,
            forall|px: int, py: int|
                0 <= px < x && 0 <= py < plane.height ==> traced(
                    trace,
                    px as u32,
                    py as u32,
                    #[trigger] image.pixel(px, py),
                ),
        decreases plane.width - x,
    {
        let mut y: u32 = 0;
        while y < plane.height
            invariant
                x < plane.width,
                y <= plane.height,
                forall|x: u32, y: u32|
                    plane.spec_contains(x as int, y as int) ==> call_requires(trace, (x, y)),
                image.well_formed(),
                image.spec_width() == plane.width,
                image.spec_height() == plane.height,
                forall|px: int, py: int|
                    (0 <= px < x && 0 <= py < plane.height) || (px == x && 0 <= py < y) ==> traced(
                        trace,
                        px as u32,
                        py as u32,
                        #[trigger] image.pixel(px, py),
                    ),
            decreases plane.height - y,
        {
            assert(plane.spec_contains(x as int, y as int));
            let hit = trace(x, y);
            let color = pixel_color(hit);
            assert(traced(trace, x, y, color));
            let ghost before = image;
            image.set_pixel(x, y, color);
            assert forall|px: int, py: int|
                (0 <= px < x && 0 <= py < plane.height) || (px == x && 0 <= py < y + 1) implies traced(
                trace,
                px as u32,
                py as u32,
                #[trigger] image.pixel(px, py),
            ) by {
                if px != x || py != y {
                    assert(image.pixel(px, py) == before.pixel(px, py));
                }
            }
            y = y + 1;
        }
        x = x + 1;
    }
    image
}

/// A render in which no pixel's ray hits anything leaves every pixel the
/// background color: an empty scene renders as a uniform background.
pub proof fn lemma_render_without_hits_is_background<F: Fn(u32, u32) -> Option<Color>>(
    img: Image,
    plane: ImagePlane,
    trace: F,
)
    requires
        rendered(img, plane, trace),
        forall|x: u32, y: u32, hit: Option<Color>| call_ensures(trace, (x, y), hit) ==> hit is None,
    ensures
        forall|x: int, y: int| plane.spec_contains(x, y) ==> #[trigger] img.pixel(x, y) == background(),
{
    assert forall|x: int, y: int| plane.spec_contains(x, y) implies #[trigger] img.pixel(x, y)
        == background() by {
        assert(traced(trace, x as u32, y as u32, img.pixel(x, y)));
    }
}

} // verus!
