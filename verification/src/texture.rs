//! Texture providers: the source of color for free columns. A provider either
//! has a finite tile (an image, sampled modulo its dimensions) or is an
//! unbounded procedural generator (independent black/white noise per call).

use vstd::prelude::*;
use crate::grid::Color;
use crate::grid::lemma_grid_index_in_range;
use rand::Rng;
use rand::SeedableRng;

verus! {

/// rand's standard generator, held opaquely: Verus sees nothing inside it.
#[verifier::external_type_specification]
#[verifier::external_body]
pub struct ExStdRng(rand::rngs::StdRng);

/// Relies on rand::rngs::StdRng::seed_from_u64 (SeedableRng): builds a
/// generator from a 64-bit seed.
#[verifier::external_body]
fn rng_from_seed(seed: u64) -> rand::rngs::StdRng {
    rand::rngs::StdRng::seed_from_u64(seed)
}

/// Relies on rand::rngs::StdRng::from_entropy (SeedableRng): builds a
/// generator from fresh OS entropy.
#[verifier::external_body]
fn rng_from_entropy() -> rand::rngs::StdRng {
    rand::rngs::StdRng::from_entropy()
}

/// Relies on rand::Rng::gen_range over `0..=1`: the drawn value lies inside
/// the inclusive range, whatever state the generator is in.
#[verifier::external_body]
fn draw_bit(rng: &mut rand::rngs::StdRng) -> (bit: u8)
    ensures
        bit <= 1,
{
    rng.gen_range(0..=1)
}

/// The texture capability: supplies a color for a requested coordinate and
/// reports its own finite extent if it has one.
pub trait Texture: Sized {
    /// Well-formedness of this provider.
    spec fn wf(&self) -> bool;

    /// The provider's finite extent, if bounded.
    spec fn size_spec(&self) -> Option<(u32, u32)>;

    /// Whether sampling is a pure function of the provider and coordinates.
    spec fn deterministic(&self) -> bool;

    /// The color a deterministic provider returns at `(x, y)`.
    spec fn sample_spec(&self, x: int, y: int) -> Color;

    /// The color shown at `(x, y)`.
    fn get(&mut self, x: u32, y: u32) -> (c: Color)
        requires
            old(self).wf(),
        ensures
            final(self).wf(),
            final(self).size_spec() == old(self).size_spec(),
            final(self).deterministic() == old(self).deterministic(),
            old(self).deterministic() ==> *final(self) == *old(self)
                && c == old(self).sample_spec(x as int, y as int),
    ;

    /// The provider's finite extent, if bounded; a well-formed bounded
    /// provider never reports a zero dimension.
    fn size(&self) -> (r: Option<(u32, u32)>)
        ensures
            r == self.size_spec(),
            self.wf() ==> (r matches Some(d) ==> d.0 > 0 && d.1 > 0),
    ;
}

/// The procedural noise texture: unbounded, and every call draws an
/// independent black or white pixel, with no caching — repeated queries at
/// the same coordinate need not agree.
pub struct Random {
    rng: rand::rngs::StdRng,
}

impl Random {
    /// A generator seeded from OS entropy.
    pub fn new() -> (t: Random)
        ensures
            t.wf(),
    {
        Random { rng: rng_from_entropy() }
    }

    /// A generator with an explicit seed, for reproducible runs.
    pub fn from_seed(seed: u64) -> (t: Random)
        ensures
            t.wf(),
    {
        Random { rng: rng_from_seed(seed) }
    }
}

impl Texture for Random {
    open spec fn wf(&self) -> bool {
        true
    }

    open spec fn size_spec(&self) -> Option<(u32, u32)> {
        None
    }

    open spec fn deterministic(&self) -> bool {
        false
    }

    open spec fn sample_spec(&self, x: int, y: int) -> Color {
        Color { r: 0, g: 0, b: 0 }
    }

    /// Ignores its coordinates and returns an independent black or white.
    fn get(&mut self, x: u32, y: u32) -> (c: Color)
        ensures
            c.r == c.g && c.g == c.b,
            c.r == 0 || c.r == 255,
    {
        let bit = draw_bit(&mut self.rng);
        let p: u8 = bit * 255;
        Color { r: p, g: p, b: p }
    }

    fn size(&self) -> (r: Option<(u32, u32)>) {
        None
    }
}

/// The image-backed texture: a finite tile whose pixels are sampled modulo
/// its dimensions, so no coordinate request can fail.
pub struct ImageTexture {
    pub width: u32,
    pub height: u32,
    pub pixels: Vec<Color>,
}

impl ImageTexture {
    /// The tile's pixel at `(x, y)`, which must already lie inside the tile.
    pub open spec fn pixel(&self, x: int, y: int) -> Color {
        self.pixels@[y * self.width as int + x]
    }

    /// A tile of the given dimensions over a row-major pixel array.
    pub fn from_pixels(width: u32, height: u32, pixels: Vec<Color>) -> (t: ImageTexture)
        requires
            width > 0,
            height > 0,
            pixels@.len() == width as int * height as int,
        ensures
            t.wf(),
            t == (ImageTexture { width, height, pixels }),
    {
        ImageTexture { width, height, pixels }
    }
}

impl Texture for ImageTexture {
    open spec fn wf(&self) -> bool {
        self.width > 0 && self.height > 0
            && self.pixels@.len() == self.width as int * self.height as int
    }

    open spec fn size_spec(&self) -> Option<(u32, u32)> {
        Some((self.width, self.height))
    }

    open spec fn deterministic(&self) -> bool {
        true
    }

    open spec fn sample_spec(&self, x: int, y: int) -> Color {
        self.pixel(x % self.width as int, y % self.height as int)
    }

    /// Out-of-bounds coordinates wrap modulo the tile's dimensions.
    fn get(&mut self, x: u32, y: u32) -> (c: Color) {
        let xi = x % self.width;
        let yi = y % self.height;
        proof {
            lemma_grid_index_in_range(self.width as int, self.height as int, xi as int, yi as int);
            assert(self.height as int * self.width as int == self.width as int * self.height as int)
                by (nonlinear_arith);
        }
        let _len: usize = self.pixels.len();
        let idx: usize = (yi as usize) * (self.width as usize) + (xi as usize);
        self.pixels[idx]
    }

    fn size(&self) -> (r: Option<(u32, u32)>) {
        Some((self.width, self.height))
    }
}

} // verus!
