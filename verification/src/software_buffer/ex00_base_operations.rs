use vstd::prelude::*;
use super::{keeps_size, Canvas, Color24, SoftwareBuffer};

verus! {

impl SoftwareBuffer {
    /// Returns the width of the buffer in pixels.
    pub fn get_width(&self) -> (w: u16)
        ensures
            w == self@.width,
            self@.wf(),
    {
        proof {
            use_type_invariant(self);
        }
        self.width
    }

    /// Returns the height of the buffer in pixels.
    pub fn get_height(&self) -> (h: u16)
        ensures
            h == self@.height,
            self@.wf(),
    {
        proof {
            use_type_invariant(self);
        }
        self.height
    }

    /// Clears the buffer with the given color.
    pub fn clear(&mut self, color: Color24)
        ensures
            keeps_size(old(self)@, final(self)@),
            final(self)@.pixels == Seq::new(old(self)@.pixels.len(), |i: int| color),
            forall|x: u16, y: u16|
                x < final(self)@.width && y < final(self)@.height ==> #[trigger] final(self)@.pixel_at(
                    x,
                    y,
                ) == Some(color),
    {
        proof {
            use_type_invariant(&*self);
        }
        let n = self.pixels.len();
        for i in 0..n
            invariant
                n == self.pixels.len(),
                n == self.width * self.height,
                self.width == old(self).width,
                self.height == old(self).height,
                forall|j: int| 0 <= j < i ==> self.pixels@[j] == color,
        {
            self.pixels[i] = color;
        }
        assert(self.pixels@ =~= Seq::new(n as nat, |i: int| color));
        assert forall|x: u16, y: u16| x < self@.width && y < self@.height implies #[trigger] self@.pixel_at(
            x,
            y,
        ) == Some(color) by {
            self@.lemma_index_in_bounds(x, y);
        }
    }

    /// Where the pixel at `(x, y)` sits in the pixel vector.
    fn index(&self, x: u16, y: u16) -> (i: usize)
        ensures
            i == self@.index_of(x, y),
    {
        assert(y * self.width + x <= 0xffff * 0xffff + 0xffff) by (nonlinear_arith)
            requires
                y <= 0xffff,
                self.width <= 0xffff,
                x <= 0xffff,
        ;
        y as usize * self.width as usize + x as usize
    }

    /// Sets the color of the pixel at the given position. Nothing changes
    /// where the position is out of bounds.
    pub fn set_pixel(&mut self, x: u16, y: u16, color: Color24)
        ensures
            final(self)@ == old(self)@.with_pixel(x, y, color),
            keeps_size(old(self)@, final(self)@),
    {
        proof {
            use_type_invariant(&*self);
        }
        if x >= self.width || y >= self.height {
            return;
        }
        let idx = self.index(x, y);
        proof {
            self@.lemma_index_in_bounds(x, y);
        }
        self.pixels[idx] = color;
    }

    /// Returns the color of the pixel at the given position.
    /// If the position is out of bounds, returns None
    pub fn get_pixel(&self, x: u16, y: u16) -> (c: Option<Color24>)
        ensures
            c == self@.pixel_at(x, y),
            self@.wf(),
    {
        proof {
            use_type_invariant(self);
        }
        if x >= self.width || y >= self.height {
            return None;
        }
        let idx = self.index(x, y);
        if idx < self.pixels.len() {
            Some(self.pixels[idx])
        } else {
            None
        }
    }
}

/// Reading a pixel after writing it, in bounds of a well-formed canvas, gives
/// the color written.
pub proof fn law_get_after_set(c: Canvas, x: u16, y: u16, color: Color24)
    requires
        c.wf(),
        x < c.width,
        y < c.height,
    ensures
        c.with_pixel(x, y, color).pixel_at(x, y) == Some(color),
{
    c.lemma_index_in_bounds(x, y);
}

/// Writing a pixel in bounds of a well-formed canvas changes no other
/// in-bounds pixel, and keeps the canvas well-formed with its dimensions.
pub proof fn law_set_keeps_other_pixels(c: Canvas, x: u16, y: u16, color: Color24, x2: u16, y2: u16)
    requires
        c.wf(),
        x < c.width,
        y < c.height,
        x2 < c.width,
        y2 < c.height,
        x != x2 || y != y2,
    ensures
        c.with_pixel(x, y, color).pixel_at(x2, y2) == c.pixel_at(x2, y2),
        c.with_pixel(x, y, color).wf(),
        c.with_pixel(x, y, color).width == c.width,
        c.with_pixel(x, y, color).height == c.height,
{
    c.lemma_index_in_bounds(x, y);
    c.lemma_index_in_bounds(x2, y2);
    if c.index_of(x, y) == c.index_of(x2, y2) {
        c.lemma_index_injective(x, y, x2, y2);
    }
}

} // verus!
