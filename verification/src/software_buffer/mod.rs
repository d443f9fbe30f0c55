use vstd::prelude::*;

pub mod ex00_base_operations;
pub mod ex00_printing;
pub mod ex01_basic_drawing;
pub mod ex02_winding_number_triangle;
pub mod ex03_winding_trick_for_shapes;
pub mod ex04_barycentric_coordinates;
pub mod ex06_texture_mapping_nearest;
pub mod ex08_drawing_simple_unlit_3d_model;

verus! {

/// A 24-bit RGB color.
#[derive(Copy, Clone, Debug, PartialEq, Eq, Structural)]
pub struct Color24 {
    pub r: u8,
    pub g: u8,
    pub b: u8,
}

impl Color24 {
    /// Black, the color every channel of which is zero.
    pub open spec fn black() -> Color24 {
        Color24 { r: 0, g: 0, b: 0 }
    }
}

impl Default for Color24 {
    fn default() -> (c: Color24)
        ensures
            c == Color24::black(),
    {
        Color24 { r: 0, g: 0, b: 0 }
    }
}

/// A row-major grid of `width * height` pixels held in memory.
#[derive(Debug)]
pub struct SoftwareBuffer {
    pixels: Vec<Color24>,
    width: u16,
    height: u16,
}

/// What a buffer holds: its dimensions and its pixels, row after row.
pub struct Canvas {
    pub width: u16,
    pub height: u16,
    pub pixels: Seq<Color24>,
}

/// `after` has the dimensions of `before` and is well-formed.
pub open spec fn keeps_size(before: Canvas, after: Canvas) -> bool {
    &&& after.width == before.width
    &&& after.height == before.height
    &&& after.wf()
}

/// Any run of operations that each keep the buffer's size, starting from a
/// well-formed buffer, ends with a well-formed buffer of the same size: no
/// run of drawing calls resizes the buffer.
pub proof fn law_size_kept_through(history: Seq<Canvas>)
    requires
        history.len() >= 1,
        history[0].wf(),
        forall|i: int| 0 <= i < history.len() - 1 ==> keeps_size(#[trigger] history[i], history[i + 1]),
    ensures
        keeps_size(history[0], history.last()),
    decreases history.len(),
{
    if history.len() > 1 {
        let prev = history.drop_last();
        assert forall|i: int| 0 <= i < prev.len() - 1 implies keeps_size(#[trigger] prev[i], prev[i + 1]) by {
            assert(prev[i] == history[i]);
            assert(prev[i + 1] == history[i + 1]);
        }
        law_size_kept_through(prev);
        assert(keeps_size(history[history.len() - 2], history[history.len() - 1]));
    }
}

impl View for SoftwareBuffer {
    type V = Canvas;

    closed spec fn view(&self) -> Canvas {
        Canvas { width: self.width, height: self.height, pixels: self.pixels@ }
    }
}

impl Canvas {
    /// The buffer holds exactly one pixel for each position of the grid.
    pub open spec fn wf(self) -> bool {
        self.pixels.len() == self.width * self.height
    }

    /// Where the pixel at `(x, y)` sits in `pixels`, row after row.
    /// (Only in-bounds positions are read or written.)
    pub open spec fn index_of(self, x: u16, y: u16) -> int {
        y * self.width + x
    }

    /// The color at `(x, y)`, or `None` where the position is out of bounds.
    pub open spec fn pixel_at(self, x: u16, y: u16) -> Option<Color24> {
        let i = self.index_of(x, y);
        if x < self.width && y < self.height && i < self.pixels.len() {
            Some(self.pixels[i])
        } else {
            None
        }
    }

    /// An in-bounds position of a well-formed canvas has its own index among the pixels.
    pub proof fn lemma_index_in_bounds(self, x: u16, y: u16)
        requires
            self.wf(),
            x < self.width,
            y < self.height,
        ensures
            0 <= self.index_of(x, y) < self.pixels.len(),
    {
        let (w, h) = (self.width as int, self.height as int);
        assert(0 <= y * w + x < w * h) by (nonlinear_arith)
            requires
                0 <= x < w,
                0 <= y < h,
        ;
    }

    /// Two in-bounds positions with the same index are the same position.
    pub proof fn lemma_index_injective(self, x: u16, y: u16, x2: u16, y2: u16)
        requires
            x < self.width,
            x2 < self.width,
            self.index_of(x, y) == self.index_of(x2, y2),
        ensures
            x == x2 && y == y2,
    {
        let w = self.width as int;
        assert(x == x2 && y == y2) by (nonlinear_arith)
            requires
                0 <= x < w,
                0 <= x2 < w,
                0 <= y,
                0 <= y2,
                y * w + x == y2 * w + x2,
        ;
    }

    /// Setting the in-bounds pixel `(x, y)` of a well-formed canvas changes
    /// what that position reads and nothing else.
    pub proof fn lemma_with_pixel_reads(self, x: u16, y: u16, color: Color24)
        requires
            self.wf(),
            x < self.width,
            y < self.height,
        ensures
            self.with_pixel(x, y, color).wf(),
            self.with_pixel(x, y, color).width == self.width,
            self.with_pixel(x, y, color).height == self.height,
            forall|px: u16, py: u16|
                px < self.width && py < self.height ==> #[trigger] self.with_pixel(
                    x,
                    y,
                    color,
                ).pixel_at(px, py) == if px == x && py == y {
                    Some(color)
                } else {
                    self.pixel_at(px, py)
                },
    {
        self.lemma_index_in_bounds(x, y);
        assert forall|px: u16, py: u16| px < self.width && py < self.height implies #[trigger] self.with_pixel(
            x,
            y,
            color,
        ).pixel_at(px, py) == if px == x && py == y {
            Some(color)
        } else {
            self.pixel_at(px, py)
        } by {
            self.lemma_index_in_bounds(px, py);
            if self.index_of(x, y) == self.index_of(px, py) {
                self.lemma_index_injective(x, y, px, py);
            }
        }
    }

    /// The canvas with the pixel at `(x, y)` set to `color`; unchanged where
    /// the position is out of bounds.
    pub open spec fn with_pixel(self, x: u16, y: u16, color: Color24) -> Canvas {
        let i = self.index_of(x, y);
        if x < self.width && y < self.height && i < self.pixels.len() {
            Canvas { pixels: self.pixels.update(i, color), ..self }
        } else {
            self
        }
    }
}

impl Clone for SoftwareBuffer {
    /// A buffer with the same dimensions and pixels.
    fn clone(&self) -> (copy: Self)
        ensures
            copy@ == self@,
    {
        proof {
            use_type_invariant(self);
        }
        let mut pixels: Vec<Color24> = Vec::new();
        for i in 0..self.pixels.len()
            invariant
                pixels@ == self.pixels@.take(i as int),
        {
            pixels.push(self.pixels[i]);
            assert(pixels@ =~= self.pixels@.take(i + 1));
        }
        assert(self.pixels@.take(self.pixels@.len() as int) =~= self.pixels@);
        SoftwareBuffer { pixels, width: self.width, height: self.height }
    }
}

impl SoftwareBuffer {
    /// Every buffer holds exactly one pixel for each position of its grid.
    #[verifier::type_invariant]
    pub(crate) closed spec fn holds_its_grid(self) -> bool {
        self.pixels.len() == self.width * self.height
    }

    /// Creates a `width` by `height` buffer filled with black.
    pub fn new(width: u16, height: u16) -> (buffer: Self)
        ensures
            buffer@.width == width,
            buffer@.height == height,
            buffer@.wf(),
            forall|i: int| 0 <= i < buffer@.pixels.len() ==> buffer@.pixels[i] == Color24::black(),
            forall|x: u16, y: u16|
                x < width && y < height ==> #[trigger] buffer@.pixel_at(x, y) == Some(
                    Color24::black(),
                ),
    {
        assert(width * height <= 0xffff * 0xffff) by (nonlinear_arith)
            requires
                width <= 0xffff,
                height <= 0xffff,
        ;
        let n: usize = width as usize * height as usize;
        let mut pixels: Vec<Color24> = Vec::new();
        while pixels.len() < n
            invariant
                pixels.len() <= n,
                forall|i: int| 0 <= i < pixels.len() ==> pixels@[i] == Color24::black(),
            decreases n - pixels.len(),
        {
            pixels.push(Color24::default());
        }
        let buffer = Self { pixels, width, height };
        assert forall|x: u16, y: u16| x < width && y < height implies #[trigger] buffer@.pixel_at(
            x,
            y,
        ) == Some(Color24::black()) by {
            buffer@.lemma_index_in_bounds(x, y);
        }
        buffer
    }
}

} // verus!
