//! Autostereogram rendering: a grayscale depth map is turned into a
//! single-image stereogram by linking, on every scanline, pairs of columns
//! that must share a color, and then resolving those links against a texture.

pub mod compositor;
pub mod disparity;
pub mod grid;
pub mod linker;
pub mod texture;

pub use crate::compositor::draw_auto_stereogram;
pub use crate::grid::Color;
pub use crate::grid::ColorGrid;
pub use crate::grid::DepthMap;
pub use crate::texture::ImageTexture;
pub use crate::texture::Random;
pub use crate::texture::Texture;
