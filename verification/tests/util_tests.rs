use xux::shift_to_unsigned::ShiftToUnsigned;
use xux::util::{cell_pixel, grid_rgb};

fn bit(v: u8, k: u8) -> u8 {
    (v >> k) & 1
}

fn reference(t: u8, z: i16) -> (u8, u8, u8) {
    let zu = z.shift_to_unsigned();
    let h = (zu >> 8) as u8;
    let l = zu as u8;
    let pack = |b: [u8; 8]| b.iter().fold(0u8, |acc, x| (acc << 1) | x);
    let r = pack([bit(t, 0), bit(t, 3), bit(t, 6), bit(h, 4), bit(h, 1), bit(l, 6), bit(l, 3), bit(l, 0)]);
    let g = pack([bit(t, 1), bit(t, 4), bit(t, 7), bit(h, 5), bit(h, 2), bit(l, 7), bit(l, 4), bit(l, 1)]);
    let b = pack([bit(t, 2), bit(t, 5), bit(h, 7), bit(h, 6), bit(h, 3), bit(h, 0), bit(l, 5), bit(l, 2)]);
    (g, r, b)
}

#[test]
fn pixel_packs_tile_and_height_bits() {
    assert_eq!(cell_pixel(0, i16::MIN), (0, 0, 0));
    assert_eq!(cell_pixel(255, i16::MAX), (255, 255, 255));
    assert_eq!(cell_pixel(1, i16::MIN), (0, 0x80, 0));
    for t in [0u8, 1, 2, 77, 128, 255] {
        for z in [i16::MIN, -1000, -1, 0, 1, 999, i16::MAX] {
            assert_eq!(cell_pixel(t, z), reference(t, z));
        }
    }
}

#[test]
fn grid_image_is_row_major() {
    let t: Vec<u8> = (0..10000).map(|i| (i % 256) as u8).collect();
    let z: Vec<i16> = (0..10000).map(|i| (i as i16) - 5000).collect();
    let raw = grid_rgb(&t, &z);
    assert_eq!(raw.len(), 30000);
    let i = 37 * 100 + 12;
    let (g, r, b) = cell_pixel(t[i], z[i]);
    assert_eq!((raw[3 * i], raw[3 * i + 1], raw[3 * i + 2]), (g, r, b));
}
