use vstd::prelude::*;

verus! {

/// An immutable lookup table of packed `0x00RRGGBB` texels, stored
/// column-major: `color_array[x][y]` is the texel at column `x`, row `y`.
/// Decoding and resizing an image file into the flat pixel rows handed to
/// [`Texture::from_pixels`] happens outside the library.
pub struct Texture {
    pub width: u32,
    pub height: u32,
    pub color_array: Vec<Vec<u32>>,
}

impl Texture {
    /// One column per `x`, one texel per `y` in every column.
    pub open spec fn wf(&self) -> bool {
        &&& self.color_array@.len() == self.width
        &&& forall|x: int| 0 <= x < self.color_array@.len()
            ==> (#[trigger] self.color_array@[x])@.len() == self.height
    }

    /// The stored texel at `(x, y)`.
    pub open spec fn texel(&self, x: int, y: int) -> u32 {
        self.color_array@[x]@[y]
    }

    /// The color a bounds-checked sample yields: the stored texel in range,
    /// and pure black outside it.
    pub open spec fn sample(&self, x: int, y: int) -> u32 {
        if 0 <= x < self.width && 0 <= y < self.height {
            self.texel(x, y)
        } else {
            0x000000u32
        }
    }

    /// Builds the column-major table from one flat row-major pixel sequence,
    /// `pixels[y * width + x]` being the pixel at `(x, y)`.
    pub fn from_pixels(width: u32, height: u32, pixels: &Vec<u32>) -> (t: Texture)
        requires
            pixels@.len() == width * height,
        ensures
            t.wf(),
            t.width == width,
            t.height == height,
            forall|x: int, y: int| 0 <= x < width && 0 <= y < height
                ==> t.texel(x, y) == pixels@[y * width + x],
    {
        let n: usize = pixels.len();
        let mut color_array: Vec<Vec<u32>> = Vec::new();
        let mut x: u32 = 0;
        while x < width
            invariant
                x <= width,
                n == width * height,
                pixels@.len() == n,
                color_array@.len() == x,
                forall|i: int| 0 <= i < x ==> (#[trigger] color_array@[i])@.len() == height,
                forall|i: int, j: int| 0 <= i < x && 0 <= j < height
                    ==> color_array@[i]@[j] == pixels@[j * width + i],
            decreases width - x,
        {
            let mut column: Vec<u32> = Vec::new();
            let mut y: u32 = 0;
            while y < height
                invariant
                    x < width,
                    y <= height,
                    n == width * height,
                    pixels@.len() == n,
                    column@.len() == y,
                    forall|j: int| 0 <= j < y ==> column@[j] == pixels@[j * width + x],
                decreases height - y,
            {
                assert(y * width + x < n) by (nonlinear_arith)
                    requires
                        x < width,
                        y < height,
                        n == width * height,
                ;
                let idx: usize = (y as usize) * (width as usize) + (x as usize);
                column.push(pixels[idx]);
                y = y + 1;
            }
            color_array.push(column);
            x = x + 1;
        }
        Texture { width, height, color_array }
    }

    /// Samples the texel at `(x, y)`; out-of-range coordinates yield pure
    /// black rather than failing.
    pub fn get_pixel_color(&self, x: u32, y: u32) -> (color: u32)
        requires
            self.wf(),
        ensures
            color == self.sample(x as int, y as int),
    {
        if x < self.width && y < self.height {
            self.color_array[x as usize][y as usize]
        } else {
            0x000000
        }
    }
}

/// The wall textures the perspective renderer can map a cell symbol to,
/// loaded once at startup and then only read.
pub struct WallTextures {
    pub wall: Texture,
    pub wall_alt: Texture,
    pub station: Texture,
}

impl WallTextures {
    pub open spec fn wf(&self) -> bool {
        self.wall.wf() && self.wall_alt.wf() && self.station.wf()
    }
}

/// The color a wall cell symbol paints at texture coordinate `(tx, ty)`:
/// a fixed symbol-to-texture dispatch, with pure black for a symbol no
/// texture is mapped to.
pub open spec fn texture_walls_spec(cell: char, tx: int, ty: int, textures: &WallTextures) -> u32 {
    match cell {
        '+' | '|' => textures.wall_alt.sample(tx, ty),
        '-' => textures.wall.sample(tx, ty),
        'g' => textures.station.sample(tx, ty),
        _ => 0x000000u32,
    }
}

/// Looks up the texel a wall cell symbol paints at `(tx, ty)`.
pub fn texture_walls(cell: char, tx: u32, ty: u32, textures: &WallTextures) -> (color: u32)
    requires
        textures.wf(),
    ensures
        color == texture_walls_spec(cell, tx as int, ty as int, textures),
{
    match cell {
        '+' | '|' => textures.wall_alt.get_pixel_color(tx, ty),
        '-' => textures.wall.get_pixel_color(tx, ty),
        'g' => textures.station.get_pixel_color(tx, ty),
        _ => 0x000000,
    }
}

} // verus!
