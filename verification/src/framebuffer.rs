use vstd::prelude::*;

verus! {

/// A backing-buffer index formed from pixel coordinates decomposes back
/// into them.
pub proof fn lemma_pixel_coords(w: int, x: int, y: int)
    requires
        0 <= x < w,
        0 <= y,
    ensures
        (y * w + x) % w == x,
        (y * w + x) / w == y,
{
    vstd::arithmetic::div_mod::lemma_fundamental_div_mod_converse(y * w + x, w, y, x);
}

/// A mutable `width` × `height` grid of packed `0x00RRGGBB` pixels, stored
/// row-major in a single backing vector, together with a current draw color
/// and a background color register consumed by later calls.
pub struct Framebuffer {
    pub width: usize,
    pub height: usize,
    pub buffer: Vec<u32>,
    pub background_color: u32,
    pub current_color: u32,
}

impl Framebuffer {
    /// The backing vector has exactly one slot per pixel.
    pub open spec fn wf(&self) -> bool {
        self.buffer@.len() == self.width * self.height
    }

    /// The backing-vector index of pixel `(x, y)`.
    pub open spec fn pixel_index(&self, x: int, y: int) -> int {
        y * self.width + x
    }

    /// The stored color of pixel `(x, y)`.
    pub open spec fn pixel(&self, x: int, y: int) -> u32 {
        self.buffer@[self.pixel_index(x, y)]
    }

    /// Both coordinates fall inside the pixel grid.
    pub open spec fn in_bounds(&self, x: int, y: int) -> bool {
        0 <= x < self.width && 0 <= y < self.height
    }

    /// The two color registers and the dimensions are the same in both
    /// framebuffers; only pixel contents may differ.
    pub open spec fn same_frame(&self, other: &Framebuffer) -> bool {
        &&& self.width == other.width
        &&& self.height == other.height
        &&& self.buffer@.len() == other.buffer@.len()
        &&& self.background_color == other.background_color
        &&& self.current_color == other.current_color
    }

    pub fn new(width: usize, height: usize) -> (fb: Framebuffer)
        requires
            width * height <= usize::MAX,
        ensures
            fb.wf(),
            fb.width == width,
            fb.height == height,
            fb.buffer@.len() == width * height,
            forall|k: int| 0 <= k < fb.buffer@.len() ==> fb.buffer@[k] == 0u32,
            fb.background_color == 0x000000u32,
            fb.current_color == 0xFFFFFFu32,
    {
        let n: usize = width * height;
        let mut buffer: Vec<u32> = Vec::new();
        while buffer.len() < n
            invariant
                buffer@.len() <= n,
                forall|k: int| 0 <= k < buffer@.len() ==> buffer@[k] == 0u32,
            decreases n - buffer@.len(),
        {
            buffer.push(0);
        }
        Framebuffer {
            width,
            height,
            buffer,
            background_color: 0x000000,
            current_color: 0xFFFFFF,
        }
    }

    /// Fills every pixel with the background color.
    pub fn clear(&mut self)
        requires
            old(self).wf(),
        ensures
            final(self).wf(),
            final(self).same_frame(old(self)),
            forall|k: int| 0 <= k < final(self).buffer@.len()
                ==> final(self).buffer@[k] == final(self).background_color,
    {
        let n: usize = self.buffer.len();
        let mut k: usize = 0;
        while k < n
            invariant
                n == self.buffer@.len(),
                k <= n,
                self.wf(),
                self.same_frame(old(self)),
                forall|j: int| 0 <= j < k ==> self.buffer@[j] == self.background_color,
            decreases n - k,
        {
            let color = self.background_color;
            self.buffer[k] = color;
            k = k + 1;
        }
    }

    /// Writes the current color at `(x, y)` iff both coordinates are in
    /// bounds; an out-of-range call leaves the buffer exactly as it was.
    pub fn point(&mut self, x: usize, y: usize)
        requires
            old(self).wf(),
        ensures
            final(self).wf(),
            final(self).same_frame(old(self)),
            old(self).in_bounds(x as int, y as int) ==> final(self).buffer@
                == old(self).buffer@.update(
                    old(self).pixel_index(x as int, y as int),
                    old(self).current_color,
                ),
            !old(self).in_bounds(x as int, y as int) ==> final(self).buffer@ == old(self).buffer@,
    {
        if x < self.width && y < self.height {
            let n: usize = self.buffer.len();
            assert(y * self.width + x < n) by (nonlinear_arith)
                requires
                    x < self.width,
                    y < self.height,
                    n == self.width * self.height,
            ;
            let idx: usize = y * self.width + x;
            let color = self.current_color;
            self.buffer[idx] = color;
        }
    }

    pub fn set_background_color(&mut self, color: u32)
        ensures
            *final(self) == (Framebuffer { background_color: color, ..*old(self) }),
    {
        self.background_color = color;
    }

    pub fn set_current_color(&mut self, color: u32)
        ensures
            *final(self) == (Framebuffer { current_color: color, ..*old(self) }),
    {
        self.current_color = color;
    }

    /// Reads the stored color of `(x, y)`; out-of-range coordinates yield 0.
    pub fn get_pixel(&self, x: usize, y: usize) -> (color: u32)
        requires
            self.wf(),
        ensures
            self.in_bounds(x as int, y as int) ==> color == self.pixel(x as int, y as int),
            !self.in_bounds(x as int, y as int) ==> color == 0u32,
    {
        if x < self.width && y < self.height {
            let n: usize = self.buffer.len();
            assert(y * self.width + x < n) by (nonlinear_arith)
                requires
                    x < self.width,
                    y < self.height,
                    n == self.width * self.height,
            ;
            self.buffer[y * self.width + x]
        } else {
            0
        }
    }
}

} // verus!
