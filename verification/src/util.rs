//! A grid drawn as a 100 by 100 RGB image: each pixel packs the bits of the
//! tile and of the height of its cell, so that the image keeps all of them.
use vstd::prelude::*;
use image::{ImageBuffer, Rgb};
use crate::shift_to_unsigned::{ShiftToUnsigned, shifted_i16};

verus! {

/// An RGB image of image's `ImageBuffer<Rgb<u8>, Vec<u8>>`, kept out of
/// sight of the verifier: only the names below say what it holds.
#[verifier::external_body]
pub struct GridImage {
    img: ImageBuffer<Rgb<u8>, Vec<u8>>,
}

/// The samples of an RGB image, row by row, three per pixel.
pub uninterp spec fn rgb_samples(img: GridImage) -> Seq<u8>;

/// The width and height that an RGB image was made with.
pub uninterp spec fn rgb_size(img: GridImage) -> (u32, u32);

/// `ImageBuffer::new` of image: an image of the given size whose samples
/// are all 0 (the source fills its vector with `Zero::zero()`); it panics
/// where the number of samples overflows `usize`, which `requires` rules
/// out.
#[verifier::external_body]
fn rgb_image_new(width: u32, height: u32) -> (img: GridImage)
    requires
        3 * width * height <= usize::MAX,
    ensures
        rgb_size(img) == (width, height),
        rgb_samples(img) == Seq::new((3 * width * height) as nat, |i: int| 0u8),
{
    GridImage { img: ImageBuffer::new(width, height) }
}

/// `ImageBuffer::put_pixel` of image: the three samples of pixel `(x, y)`,
/// which start at `(y * width + x) * 3`, become `r`, `g`, `b`; it panics
/// outside the image, which `requires` rules out.
#[verifier::external_body]
fn rgb_put_pixel(img: &mut GridImage, x: u32, y: u32, r: u8, g: u8, b: u8)
    requires
        x < rgb_size(*old(img)).0,
        y < rgb_size(*old(img)).1,
    ensures
        rgb_size(*final(img)) == rgb_size(*old(img)),
        ({
            let k = (y * rgb_size(*old(img)).0 + x) * 3;
            rgb_samples(*final(img)) == rgb_samples(*old(img)).update(k, r).update(k + 1, g).update(
                k + 2,
                b,
            )
        }),
{
    img.img.put_pixel(x, y, Rgb([r, g, b]))
}

/// `ImageBuffer::into_raw` of image: the samples of the image.
#[verifier::external_body]
fn rgb_into_raw(img: GridImage) -> (v: Vec<u8>)
    ensures
        v@ == rgb_samples(img),
{
    img.img.into_raw()
}

/// Bit `k` of `v`.
pub open spec fn bit(v: u8, k: u8) -> u8 {
    (v >> k) & 1
}

/// The byte whose bits, from the most significant down, are the given
/// bits.
pub open spec fn pack(b7: u8, b6: u8, b5: u8, b4: u8, b3: u8, b2: u8, b1: u8, b0: u8) -> u8 {
    (b7 << 7u8) | (b6 << 6u8) | (b5 << 5u8) | (b4 << 4u8) | (b3 << 3u8) | (b2 << 2u8) | (b1 << 1u8)
        | b0
}

/// The color of a cell of tile `t` and height `z`: with `h` and `l` the
/// high and low byte of the height shifted to unsigned, the red channel
/// holds bits 0, 3, 6 of `t`, 4, 1 of `h`, 6, 3, 0 of `l`; the green
/// channel bits 1, 4, 7 of `t`, 5, 2 of `h`, 7, 4, 1 of `l`; the blue
/// channel bits 2, 5 of `t`, 7, 6, 3, 0 of `h`, 5, 2 of `l`. The pixel is
/// stored green, red, blue.
pub open spec fn cell_color(t: u8, z: i16) -> (u8, u8, u8) {
    let zu = shifted_i16(z);
    let h = (zu >> 8u16) as u8;
    let l = zu as u8;
    let r = pack(bit(t, 0), bit(t, 3), bit(t, 6), bit(h, 4), bit(h, 1), bit(l, 6), bit(l, 3), bit(l, 0));
    let g = pack(bit(t, 1), bit(t, 4), bit(t, 7), bit(h, 5), bit(h, 2), bit(l, 7), bit(l, 4), bit(l, 1));
    let b = pack(bit(t, 2), bit(t, 5), bit(h, 7), bit(h, 6), bit(h, 3), bit(h, 0), bit(l, 5), bit(l, 2));
    (g, r, b)
}

/// The samples of the image of a grid: for the cell `i = y * 100 + x`,
/// the three samples of the pixel `(x, y)`.
pub open spec fn grid_samples(t: Seq<u8>, z: Seq<i16>) -> Seq<u8> {
    Seq::new(
        30000,
        |k: int|
            {
                let c = cell_color(t[k / 3], z[k / 3]);
                if k % 3 == 0 {
                    c.0
                } else if k % 3 == 1 {
                    c.1
                } else {
                    c.2
                }
            },
    )
}

fn bit_of(v: u8, k: u8) -> (r: u8)
    requires
        k < 8,
    ensures
        r == bit(v, k),
{
    (v >> k) & 1
}

fn pack_bits(b7: u8, b6: u8, b5: u8, b4: u8, b3: u8, b2: u8, b1: u8, b0: u8) -> (r: u8)
    ensures
        r == pack(b7, b6, b5, b4, b3, b2, b1, b0),
{
    (b7 << 7u8) | (b6 << 6u8) | (b5 << 5u8) | (b4 << 4u8) | (b3 << 3u8) | (b2 << 2u8) | (b1 << 1u8)
        | b0
}

/// The color of a cell, as its three samples.
pub fn cell_pixel(t: u8, z: i16) -> (c: (u8, u8, u8))
    ensures
        c == cell_color(t, z),
{
    let zu = z.shift_to_unsigned();
    let h = (zu >> 8u16) as u8;
    let l = zu as u8;
    let r = pack_bits(
        bit_of(t, 0),
        bit_of(t, 3),
        bit_of(t, 6),
        bit_of(h, 4),
        bit_of(h, 1),
        bit_of(l, 6),
        bit_of(l, 3),
        bit_of(l, 0),
    );
    let g = pack_bits(
        bit_of(t, 1),
        bit_of(t, 4),
        bit_of(t, 7),
        bit_of(h, 5),
        bit_of(h, 2),
        bit_of(l, 7),
        bit_of(l, 4),
        bit_of(l, 1),
    );
    let b = pack_bits(
        bit_of(t, 2),
        bit_of(t, 5),
        bit_of(h, 7),
        bit_of(h, 6),
        bit_of(h, 3),
        bit_of(h, 0),
        bit_of(l, 5),
        bit_of(l, 2),
    );
    (g, r, b)
}

/// The image of a grid of 100 by 100 cells, row by row: tile `t[i]` and
/// height `z[i]` for the cell `i = y * 100 + x`.
pub fn grid_image(t: &[u8], z: &[i16]) -> (img: GridImage)
    requires
        t@.len() >= 10000,
        z@.len() >= 10000,
    ensures
        rgb_size(img) == (100u32, 100u32),
        rgb_samples(img) == grid_samples(t@, z@),
{
    let mut img = rgb_image_new(100, 100);
    let mut y: u32 = 0;
    while y < 100
        invariant
            y <= 100,
            t@.len() >= 10000,
            z@.len() >= 10000,
            rgb_size(img) == (100u32, 100u32),
            rgb_samples(img).len() == 30000,
            forall|k: int|
                0 <= k < 30000 ==> #[trigger] rgb_samples(img)[k] == if k < 300 * y {
                    grid_samples(t@, z@)[k]
                } else {
                    0u8
                },
        decreases 100 - y,
    {
        let mut x: u32 = 0;
        while x < 100
            invariant
                y < 100,
                x <= 100,
                t@.len() >= 10000,
                z@.len() >= 10000,
                rgb_size(img) == (100u32, 100u32),
                rgb_samples(img).len() == 30000,
                forall|k: int|
                    0 <= k < 30000 ==> #[trigger] rgb_samples(img)[k] == if k < 300 * y + 3 * x {
                        grid_samples(t@, z@)[k]
                    } else {
                        0u8
                    },
            decreases 100 - x,
        {
            let i = (y * 100 + x) as usize;
            let (g, r, b) = cell_pixel(t[i], z[i]);
            let ghost before = rgb_samples(img);
            rgb_put_pixel(&mut img, x, y, g, r, b);
            proof {
                let k0 = 3 * i as int;
                assert(k0 == 300 * y + 3 * x);
                assert forall|k: int|
                    0 <= k < 30000 implies #[trigger] rgb_samples(img)[k] == if k < 300 * y + 3 * (x
                    + 1) {
                    grid_samples(t@, z@)[k]
                } else {
                    0u8
                } by {
                    if k0 <= k < k0 + 3 {
                        assert(k / 3 == i) by (nonlinear_arith)
                            requires
                                k0 == 3 * i,
                                k0 <= k < k0 + 3,
                        ;
                        assert(k % 3 == k - k0) by (nonlinear_arith)
                            requires
                                k0 == 3 * i,
                                k0 <= k < k0 + 3,
                        ;
                    }
                }
            }
            x = x + 1;
        }
        y = y + 1;
    }
    assert(rgb_samples(img) =~= grid_samples(t@, z@));
    img
}

/// The samples of the image of a grid, row by row, three per pixel: what
/// a PNG of the grid is made from.
pub fn grid_rgb(t: &[u8], z: &[i16]) -> (v: Vec<u8>)
    requires
        t@.len() >= 10000,
        z@.len() >= 10000,
    ensures
        v@ == grid_samples(t@, z@),
{
    rgb_into_raw(grid_image(t, z))
}

/// The samples of the image of a grid's tiles, each cell in the color of
/// its tile in the palette (red, green, blue; the fourth byte unused).
pub open spec fn tile_samples(tiles: Seq<u8>, palette: Seq<[u8; 4]>) -> Seq<u8> {
    Seq::new(30000, |k: int| palette[tiles[k / 3] as int]@[k % 3])
}

/// The image of a grid of 100 by 100 tiles in the colors of a palette.
pub fn tiles_image(tiles: &[u8], palette: &[[u8; 4]]) -> (img: GridImage)
    requires
        tiles@.len() >= 10000,
        forall|i: int| 0 <= i < 10000 ==> (#[trigger] tiles@[i]) < palette@.len(),
    ensures
        rgb_size(img) == (100u32, 100u32),
        rgb_samples(img) == tile_samples(tiles@, palette@),
{
    let mut img = rgb_image_new(100, 100);
    let mut y: u32 = 0;
    while y < 100
        invariant
            y <= 100,
            tiles@.len() >= 10000,
            forall|i: int| 0 <= i < 10000 ==> (#[trigger] tiles@[i]) < palette@.len(),
            rgb_size(img) == (100u32, 100u32),
            rgb_samples(img).len() == 30000,
            forall|k: int|
                0 <= k < 30000 ==> #[trigger] rgb_samples(img)[k] == if k < 300 * y {
                    tile_samples(tiles@, palette@)[k]
                } else {
                    0u8
                },
        decreases 100 - y,
    {
        let mut x: u32 = 0;
        while x < 100
            invariant
                y < 100,
                x <= 100,
                tiles@.len() >= 10000,
                forall|i: int| 0 <= i < 10000 ==> (#[trigger] tiles@[i]) < palette@.len(),
                rgb_size(img) == (100u32, 100u32),
                rgb_samples(img).len() == 30000,
                forall|k: int|
                    0 <= k < 30000 ==> #[trigger] rgb_samples(img)[k] == if k < 300 * y + 3 * x {
                        tile_samples(tiles@, palette@)[k]
                    } else {
                        0u8
                    },
            decreases 100 - x,
        {
            let i = (y * 100 + x) as usize;
            let rgb = palette[tiles[i] as usize];
            rgb_put_pixel(&mut img, x, y, rgb[0], rgb[1], rgb[2]);
            proof {
                let k0 = 3 * i as int;
                assert(k0 == 300 * y + 3 * x);
                assert forall|k: int|
                    0 <= k < 30000 implies #[trigger] rgb_samples(img)[k] == if k < 300 * y + 3 * (x
                    + 1) {
                    tile_samples(tiles@, palette@)[k]
                } else {
                    0u8
                } by {
                    if k0 <= k < k0 + 3 {
                        assert(k / 3 == i) by (nonlinear_arith)
                            requires
                                k0 == 3 * i,
                                k0 <= k < k0 + 3,
                        ;
                        assert(k % 3 == k - k0) by (nonlinear_arith)
                            requires
                                k0 == 3 * i,
                                k0 <= k < k0 + 3,
                        ;
                    }
                }
            }
            x = x + 1;
        }
        y = y + 1;
    }
    assert(rgb_samples(img) =~= tile_samples(tiles@, palette@));
    img
}

/// The samples of the image of a grid's tiles, row by row, three per
/// pixel.
pub fn tiles_rgb(tiles: &[u8], palette: &[[u8; 4]]) -> (v: Vec<u8>)
    requires
        tiles@.len() >= 10000,
        forall|i: int| 0 <= i < 10000 ==> (#[trigger] tiles@[i]) < palette@.len(),
    ensures
        v@ == tile_samples(tiles@, palette@),
{
    rgb_into_raw(tiles_image(tiles, palette))
}

} // verus!
