use autostereogram::draw_auto_stereogram;
use autostereogram::Color;
use autostereogram::DepthMap;
use autostereogram::ImageTexture;
use autostereogram::Random;
use autostereogram::Texture;

fn gray(v: u8) -> Color {
    Color { r: v, g: v, b: v }
}

#[test]
fn flat_depth_output_repeats() {
    // A flat depth map of width 200: every column's separation is 90, so
    // columns c and c + 90 are linked for 0 <= c < 110 and the output row
    // repeats with that period.
    let z = DepthMap::new(200, 1, vec![0; 200]);
    let pixels: Vec<Color> = (0..25u8).map(|i| gray(i * 10)).collect();
    let t = ImageTexture::from_pixels(25, 1, pixels);
    let ret = draw_auto_stereogram(&z, t);
    for c in 0..110 {
        assert_eq!(ret.px(c, 0), ret.px(c + 90, 0));
    }
}

#[test]
fn single_pixel_grid_samples_texture_origin() {
    // A 1x1 depth map admits no in-bounds pair, so the lone pixel is free and
    // comes straight from the texture at folded coordinate (0, 0).
    let z = DepthMap::new(1, 1, vec![128]);
    let t = ImageTexture::from_pixels(2, 2, vec![gray(10), gray(20), gray(30), gray(40)]);
    let ret = draw_auto_stereogram(&z, t);
    assert_eq!(ret.px(0, 0), gray(10));
}

#[test]
fn rerender_reproduces_output() {
    let data: Vec<u8> = (0..256u32).map(|i| ((i * 7) % 256) as u8).collect();
    let z = DepthMap::new(32, 8, data);
    let tile: Vec<Color> = (0..16u8).map(|i| gray(i.wrapping_mul(17))).collect();
    let a = draw_auto_stereogram(&z, ImageTexture::from_pixels(8, 2, tile.clone()));
    let b = draw_auto_stereogram(&z, ImageTexture::from_pixels(8, 2, tile));
    for y in 0..8 {
        for x in 0..32 {
            assert_eq!(a.px(x, y), b.px(x, y));
        }
    }
}

#[test]
fn output_has_depth_map_dimensions() {
    let z = DepthMap::new(13, 5, vec![40; 65]);
    let t = ImageTexture::from_pixels(3, 2, vec![gray(1), gray(2), gray(3), gray(4), gray(5), gray(6)]);
    let ret = draw_auto_stereogram(&z, t);
    assert_eq!(ret.width, 13);
    assert_eq!(ret.height, 5);
    assert_eq!(ret.data.len(), 65);
}

#[test]
fn image_texture_wraps_modulo_bounds() {
    let mut t = ImageTexture::from_pixels(2, 2, vec![gray(1), gray(2), gray(3), gray(4)]);
    assert_eq!(t.size(), Some((2, 2)));
    assert_eq!(t.get(0, 0), gray(1));
    assert_eq!(t.get(1, 0), gray(2));
    // Coordinates past the tile wrap modulo its dimensions.
    assert_eq!(t.get(2, 0), gray(1));
    assert_eq!(t.get(5, 3), gray(4));
}

#[test]
fn random_texture_is_binary_noise() {
    let mut t = Random::from_seed(7);
    assert_eq!(t.size(), None);
    for _ in 0..64 {
        let c = t.get(0, 0);
        assert_eq!(c.r, c.g);
        assert_eq!(c.g, c.b);
        assert!(c.r == 0 || c.r == 255);
    }
}

#[test]
fn noise_stereogram_pixels_are_black_or_white() {
    let z = DepthMap::new(40, 3, vec![100; 120]);
    let ret = draw_auto_stereogram(&z, Random::from_seed(1));
    for y in 0..3 {
        for x in 0..40 {
            let c = ret.px(x, y);
            assert_eq!(c.r, c.g);
            assert_eq!(c.g, c.b);
            assert!(c.r == 0 || c.r == 255);
        }
    }
}

#[test]
fn free_columns_follow_folded_texture_indices() {
    // Width 4 with the default parameters: every separation (90) is far too
    // wide, all pairs fall out of bounds, and each column samples the texture
    // at its folded index. Folding with tile width 2 sends x = 0,1,2,3 to
    // 0,1,2,1, and the tile wraps index 2 back to its first column.
    let z = DepthMap::new(4, 1, vec![0; 4]);
    let t = ImageTexture::from_pixels(2, 1, vec![gray(11), gray(22)]);
    let ret = draw_auto_stereogram(&z, t);
    assert_eq!(ret.px(0, 0), gray(11));
    assert_eq!(ret.px(1, 0), gray(22));
    assert_eq!(ret.px(2, 0), gray(11));
    assert_eq!(ret.px(3, 0), gray(22));
}

#[test]
fn rows_wrap_vertically_through_the_tile() {
    // A single-column depth map never links anything, so row y samples the
    // texture at (0, y mod tile height).
    let z = DepthMap::new(1, 3, vec![0, 100, 200]);
    let t = ImageTexture::from_pixels(1, 2, vec![gray(5), gray(6)]);
    let ret = draw_auto_stereogram(&z, t);
    assert_eq!(ret.px(0, 0), gray(5));
    assert_eq!(ret.px(0, 1), gray(6));
    assert_eq!(ret.px(0, 2), gray(5));
}

#[test]
fn linked_columns_show_identical_colors() {
    // Columns linked by the row's constraints must end up with the same
    // color: render a varied row and check every column against the entry of
    // the row's link table, built with the renderer's default parameters.
    let data: Vec<u8> = (0..200u32).map(|i| ((i * 5) % 256) as u8).collect();
    let z = DepthMap::new(200, 1, data);
    let same = autostereogram::linker::link_row(&z, 0, 180, 1, 5);
    let tile: Vec<Color> = (0..25u8).map(|i| gray(i * 10)).collect();
    let ret = draw_auto_stereogram(&z, ImageTexture::from_pixels(25, 1, tile));
    for x in 0..200usize {
        let target = same[x] as u32;
        assert_eq!(ret.px(x as u32, 0), ret.px(target, 0));
    }
}
