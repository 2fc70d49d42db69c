//! The compositor: drives the scanline linker row by row and turns each
//! row's link table into colors, walking the columns right to left so that a
//! bound column can copy the color already produced for the column it points
//! at, while a free column samples the texture at a folded coordinate.

use vstd::prelude::*;
use crate::grid::Color;
use crate::grid::ColorGrid;
use crate::grid::DepthMap;
use crate::linker::wf_links;
use crate::linker::root_of;
use crate::linker::row_links;
use crate::linker::link_row;
use crate::linker::lemma_chain_terminates;
use crate::texture::Texture;
use crate::disparity::EYE_SEPARATION;
use crate::disparity::MU_NUM;
use crate::disparity::MU_DEN;

verus! {

/// The horizontally folded texture column for output column `x`: reduce `x`
/// modulo `2 * tile_w`, then pull the upper half back by `tile_w`, so the
/// result lies in `[0, tile_w]` and the tile repeats seamlessly.
pub open spec fn fold_index(x: int, tile_w: int) -> int {
    let i = x % (2 * tile_w);
    if i > tile_w {
        i - tile_w
    } else {
        i
    }
}

/// The folded texture column, computed in 64-bit arithmetic.
pub fn fold_column(x: u32, tile_w: u32) -> (i: u32)
    requires
        tile_w > 0,
    ensures
        i as int == fold_index(x as int, tile_w as int),
        i <= tile_w,
{
    let tw = tile_w as u64;
    let mut i: u64 = (x as u64) % (2 * tw);
    if i > tw {
        i = i - tw;
    }
    i as u32
}

/// Resolve one row's link table into colors, right to left: a free column
/// samples the texture at its folded coordinate, a bound column copies the
/// color already produced for the column it points at.
pub fn render_row<T: Texture>(
    same: &Vec<u32>,
    y: u32,
    tile_w: u32,
    tile_h: u32,
    texture: &mut T,
) -> (px: Vec<Color>)
    requires
        wf_links(same@),
        same@.len() <= u32::MAX,
        tile_w > 0,
        tile_h > 0,
        old(texture).wf(),
    ensures
        px@.len() == same@.len(),
        forall|x: int| 0 <= x < same@.len() ==> #[trigger] px@[x] == px@[root_of(same@, x)],
        final(texture).wf(),
        final(texture).size_spec() == old(texture).size_spec(),
        final(texture).deterministic() == old(texture).deterministic(),
        old(texture).deterministic() ==> *final(texture) == *old(texture),
        old(texture).deterministic() ==> forall|x: int| 0 <= x < same@.len()
            ==> #[trigger] px@[x] == old(texture).sample_spec(
                fold_index(root_of(same@, x), tile_w as int),
                (y as int) % (tile_h as int),
            ),
{
    let width: usize = same.len();
    let mut px: Vec<Color> = Vec::new();
    let mut i: usize = 0;
    while i < width
        invariant
            i <= width,
            px@.len() == i as int,
        decreases width - i,
    {
        px.push(Color::black());
        i = i + 1;
    }
    let mut x: usize = width;
    while x > 0
        invariant
            x <= width,
            width == same@.len(),
            px@.len() == width as int,
            wf_links(same@),
            same@.len() <= u32::MAX,
            tile_w > 0,
            tile_h > 0,
            texture.wf(),
            texture.size_spec() == old(texture).size_spec(),
            texture.deterministic() == old(texture).deterministic(),
            old(texture).deterministic() ==> *texture == *old(texture),
            forall|j: int| x as int <= j < width as int
                ==> #[trigger] px@[j] == px@[root_of(same@, j)],
            old(texture).deterministic() ==> forall|j: int| x as int <= j < width as int
                ==> #[trigger] px@[j] == old(texture).sample_spec(
                    fold_index(root_of(same@, j), tile_w as int),
                    (y as int) % (tile_h as int),
                ),
        decreases x,
    {
        x = x - 1;
        let sx: u32 = same[x];
        let c: Color;
        if sx as usize == x {
            let fx = fold_column(x as u32, tile_w);
            let fy = y % tile_h;
            c = texture.get(fx, fy);
            proof {
                assert(root_of(same@, x as int) == x as int);
            }
        } else {
            proof {
                lemma_chain_terminates(same@, x as int);
                assert(root_of(same@, x as int) == root_of(same@, sx as int));
            }
            c = px[sx as usize];
        }
        px.set(x, c);
        proof {
            assert forall|j: int| x as int <= j < width as int
                implies #[trigger] px@[j] == px@[root_of(same@, j)] by {
                lemma_chain_terminates(same@, j);
                if j == x as int {
                    if same@[j] as int != j {
                        lemma_chain_terminates(same@, same@[j] as int);
                    }
                }
            }
            if old(texture).deterministic() {
                assert forall|j: int| x as int <= j < width as int
                    implies #[trigger] px@[j] == old(texture).sample_spec(
                        fold_index(root_of(same@, j), tile_w as int),
                        (y as int) % (tile_h as int),
                    ) by {
                    lemma_chain_terminates(same@, j);
                    if j == x as int && same@[j] as int != j {
                        lemma_chain_terminates(same@, same@[j] as int);
                    }
                }
            }
        }
    }
    px
}

/// The tile width the compositor folds with: the texture's own width, or the
/// full image width when the texture is unbounded.
pub open spec fn tile_w_of<T: Texture>(t: T, z: DepthMap) -> int {
    match t.size_spec() {
        Some(d) => d.0 as int,
        None => z.width as int,
    }
}

/// The tile height the compositor wraps rows with: the texture's own height,
/// or the full image height when the texture is unbounded.
pub open spec fn tile_h_of<T: Texture>(t: T, z: DepthMap) -> int {
    match t.size_spec() {
        Some(d) => d.1 as int,
        None => z.height as int,
    }
}

/// The color the finished stereogram shows at `(x, y)` for a deterministic
/// texture: the texture's sample at the folded root of column `x` under row
/// `y`'s finished link table, with the default viewing parameters.
pub open spec fn stereogram_color<T: Texture>(z: DepthMap, t: T, x: int, y: int) -> Color {
    t.sample_spec(
        fold_index(
            root_of(row_links(z, y, EYE_SEPARATION as int, MU_NUM as int, MU_DEN as int), x),
            tile_w_of(t, z),
        ),
        y % tile_h_of(t, z),
    )
}

/// Render the stereogram for a depth map: every row is linked with the
/// default viewing parameters and resolved against the texture. For a
/// deterministic texture the whole output is pinned down pixel by pixel, so
/// re-running the renderer reproduces the identical image.
pub fn draw_auto_stereogram<T: Texture>(z: &DepthMap, texture: T) -> (ret: ColorGrid)
    requires
        z.wf(),
        z.width > 0,
        z.height > 0,
        z.width as int * z.height as int <= usize::MAX,
        texture.wf(),
    ensures
        ret.wf(),
        ret.width == z.width,
        ret.height == z.height,
        texture.deterministic() ==> forall|x: int, y: int|
            0 <= x < z.width as int && 0 <= y < z.height as int
                ==> #[trigger] ret.color_at(x, y) == stereogram_color(*z, texture, x, y),
{
    let ghost t0 = texture;
    let mut texture = texture;
    let (tile_w, tile_h) = match texture.size() {
        Some(d) => d,
        None => (z.width, z.height),
    };
    let mut ret = ColorGrid::new(z.width, z.height);
    let mut y: u32 = 0;
    while y < z.height
        invariant
            z.wf(),
            z.width > 0,
            z.height > 0,
            y <= z.height,
            tile_w > 0,
            tile_h > 0,
            tile_w as int == tile_w_of(t0, *z),
            tile_h as int == tile_h_of(t0, *z),
            texture.wf(),
            texture.size_spec() == t0.size_spec(),
            texture.deterministic() == t0.deterministic(),
            t0.deterministic() ==> texture == t0,
            ret.wf(),
            ret.width == z.width,
            ret.height == z.height,
            t0.deterministic() ==> forall|i: int, j: int|
                0 <= i < z.width as int && 0 <= j < y as int
                    ==> #[trigger] ret.color_at(i, j) == stereogram_color(*z, t0, i, j),
        decreases z.height - y,
    {
        let same = link_row(z, y, EYE_SEPARATION, MU_NUM, MU_DEN);
        let px = render_row(&same, y, tile_w, tile_h, &mut texture);
        let mut x: u32 = 0;
        while x < z.width
            invariant
                z.wf(),
                z.width > 0,
                z.height > 0,
                y < z.height,
                x <= z.width,
                px@.len() == z.width as int,
                same@ == row_links(*z, y as int, EYE_SEPARATION as int, MU_NUM as int, MU_DEN as int),
                tile_w as int == tile_w_of(t0, *z),
                tile_h as int == tile_h_of(t0, *z),
                t0.deterministic() ==> forall|i: int| 0 <= i < z.width as int
                    ==> #[trigger] px@[i] == t0.sample_spec(
                        fold_index(root_of(same@, i), tile_w as int),
                        (y as int) % (tile_h as int),
                    ),
                ret.wf(),
                ret.width == z.width,
                ret.height == z.height,
                t0.deterministic() ==> forall|i: int, j: int|
                    0 <= i < z.width as int && 0 <= j < y as int
                        ==> #[trigger] ret.color_at(i, j) == stereogram_color(*z, t0, i, j),
                t0.deterministic() ==> forall|i: int|
                    0 <= i < x as int
                        ==> #[trigger] ret.color_at(i, y as int) == stereogram_color(*z, t0, i, y as int),
            decreases z.width - x,
        {
            let c = px[x as usize];
            ret.set_px(x, y, c);
            x = x + 1;
        }
        y = y + 1;
    }
    ret
}

/// Law: columns that share a root under a row's link table are given
/// identical colors by the backward resolution pass; in particular a pair
/// that the forward-chasing merge just linked shares its color.
pub proof fn lemma_linked_columns_share_color(
    same: Seq<u32>,
    px: Seq<Color>,
    left: int,
    right: int,
)
    requires
        wf_links(same),
        px.len() == same.len(),
        forall|x: int| 0 <= x < same.len() ==> #[trigger] px[x] == px[root_of(same, x)],
        0 <= left < same.len(),
        0 <= right < same.len(),
        root_of(same, left) == root_of(same, right),
    ensures
        px[left] == px[right],
{
    assert(px[left] == px[root_of(same, left)]);
    assert(px[right] == px[root_of(same, right)]);
}

/// Law: the compositor is idempotent for a deterministic texture — any two
/// grids that satisfy the renderer's contract for the same depth map and
/// texture agree on every pixel, so re-running it reproduces the same image.
pub proof fn lemma_compositor_idempotent<T: Texture>(z: DepthMap, t: T, a: ColorGrid, b: ColorGrid)
    requires
        t.deterministic(),
        a.width == z.width,
        a.height == z.height,
        b.width == z.width,
        b.height == z.height,
        forall|x: int, y: int| 0 <= x < z.width as int && 0 <= y < z.height as int
            ==> #[trigger] a.color_at(x, y) == stereogram_color(z, t, x, y),
        forall|x: int, y: int| 0 <= x < z.width as int && 0 <= y < z.height as int
            ==> #[trigger] b.color_at(x, y) == stereogram_color(z, t, x, y),
    ensures
        forall|x: int, y: int| 0 <= x < z.width as int && 0 <= y < z.height as int
            ==> #[trigger] a.color_at(x, y) == b.color_at(x, y),
{
}

} // verus!
