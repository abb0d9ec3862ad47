//! The pixel buffer the renderer draws into: a row-major `u32` color
//! surface with a stored background color. Every write takes its color
//! explicitly, and out-of-range writes are ignored rather than clamped.

use vstd::prelude::*;

verus! {

/// A row-major pixel surface of `width * height` packed colors.
pub struct Framebuffer {
    pub width: usize,
    pub height: usize,
    pub buffer: Vec<u32>,
    pub background_color: u32,
}

impl Framebuffer {
    /// The buffer holds exactly one color per pixel.
    pub open spec fn wf(&self) -> bool {
        self.buffer@.len() == self.width * self.height
    }

    /// Row-major index of the pixel at `(x, y)`.
    pub open spec fn pix(&self, x: int, y: int) -> int {
        y * self.width + x
    }

    /// The stored background color, as contracts see it.
    pub open spec fn background(&self) -> u32 {
        self.background_color
    }

    /// Dimensions and background are untouched: the frame every drawing
    /// call preserves.
    pub open spec fn same_frame(&self, other: &Framebuffer) -> bool {
        &&& self.width == other.width
        &&& self.height == other.height
        &&& self.background_color == other.background_color
    }

    /// A black surface of the given dimensions.
    pub fn new(width: usize, height: usize) -> (fb: Framebuffer)
        requires
            width * height <= usize::MAX,
        ensures
            fb.wf(),
            fb.width == width,
            fb.height == height,
            fb.background() == 0,
            forall|k: int| 0 <= k < fb.buffer@.len() ==> fb.buffer@[k] == 0,
    {
        let n: usize = width * height;
        let mut buffer: Vec<u32> = Vec::new();
        let mut k: usize = 0;
        while k < n
            invariant
                k <= n,
                buffer@.len() == k,
                forall|m: int| 0 <= m < k ==> buffer@[m] == 0,
            decreases n - k,
        {
            buffer.push(0);
            k += 1;
        }
        Framebuffer { width, height, buffer, background_color: 0 }
    }

    /// Chooses the color `clear` will fill with.
    pub fn set_background_color(&mut self, color: u32)
        ensures
            final(self).background() == color,
            final(self).width == old(self).width,
            final(self).height == old(self).height,
            final(self).buffer == old(self).buffer,
    {
        self.background_color = color;
    }

    /// Fills the whole surface with the background color.
    pub fn clear(&mut self)
        requires
            old(self).wf(),
        ensures
            final(self).wf(),
            old(self).same_frame(final(self)),
            final(self).buffer@.len() == old(self).buffer@.len(),
            forall|k: int|
                0 <= k < final(self).buffer@.len() ==> final(self).buffer@[k]
                    == final(self).background(),
    {
        let n: usize = self.buffer.len();
        let mut k: usize = 0;
        while k < n
            invariant
                k <= n,
                self.wf(),
                old(self).same_frame(self),
                self.buffer@.len() == n,
                forall|m: int| 0 <= m < k ==> self.buffer@[m] == self.background(),
            decreases n - k,
        {
            let color = self.background_color;
            self.buffer.set(k, color);
            k += 1;
        }
    }

    /// Writes one pixel in the given color; a position off the surface
    /// is ignored.
    pub fn point(&mut self, x: usize, y: usize, color: u32)
        requires
            old(self).wf(),
        ensures
            final(self).wf(),
            old(self).same_frame(final(self)),
            x < old(self).width && y < old(self).height ==> final(self).buffer@
                == old(self).buffer@.update(old(self).pix(x as int, y as int), color),
            !(x < old(self).width && y < old(self).height) ==> final(self).buffer
                == old(self).buffer,
    {
        if x < self.width && y < self.height {
            let len = self.buffer.len();
            proof {
                assert(y * self.width + x < self.width * self.height) by (nonlinear_arith)
                    requires
                        x < self.width,
                        y < self.height,
                ;
            }
            let idx: usize = y * self.width + x;
            self.buffer.set(idx, color);
        }
    }
}

} // verus!
