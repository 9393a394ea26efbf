use std::io::Write;
use xux::codec::Reader;
use xux::error::ErrorKind;
use xux::state::surface::Surface;

fn body(plots: &[u8]) -> Vec<u8> {
    let mut b = Vec::new();
    b.extend((-9i64).to_le_bytes());
    for i in 0..10000 {
        b.push((i % 7) as u8);
    }
    for i in 0..10000i32 {
        b.extend(((i * 3) as i16).to_le_bytes());
    }
    b.extend(plots.iter());
    b
}

fn zlib(b: &[u8]) -> Vec<u8> {
    let mut enc = flate2::write::ZlibEncoder::new(Vec::new(), flate2::Compression::best());
    enc.write_all(b).unwrap();
    enc.finish().unwrap()
}

fn packet(flags: &[u8], plots: &[u8]) -> Vec<u8> {
    let mut p = Vec::new();
    p.extend(4i32.to_le_bytes());
    p.extend((-2i32).to_le_bytes());
    p.extend(b"north\0");
    p.extend(flags.iter());
    p.extend(zlib(&body(plots)));
    p
}

#[test]
fn grid_with_plots_decodes() {
    // index 3 has flags 1: a plot of type 1 is bit 8; index 4 has none: type 0 is bit 1
    let flags = [3u8, 1, 4, 0, 255];
    let plots = [3u8, 1, 98, 0, 99, 1, 4, 0, 99, 1, 99, 1, 4, 2, 0, 0, 99, 99, 255];
    let s = Surface::from_buf(&packet(&flags, &plots)).unwrap();
    assert_eq!((s.x, s.y), (4, -2));
    assert_eq!(s.name, "north");
    assert_eq!(s.id, -9);
    assert_eq!(s.tiles.len(), 10000);
    assert_eq!(s.tiles[10], 3);
    assert_eq!(s.z[3], 9);
    assert_eq!(s.ol.len(), 10000);
    assert_eq!(s.ol[98], 8 | 16);
    assert_eq!(s.ol[99], 8 | 16);
    assert_eq!(s.ol[198], 8 | 16);
    assert_eq!(s.ol[199], 8 | 1 | 16);
    assert_eq!(s.ol[9999], 16);
    assert_eq!(s.ol[0], 16);
    assert_eq!(s.ol[97], 16);
    assert_eq!(s.ol[100], 16);
}

#[test]
fn plot_errors() {
    let e = Surface::from_buf(&packet(&[255], &[0u8, 7, 0, 0, 1, 1, 255])).unwrap_err();
    assert_eq!(e.kind, ErrorKind::UnknownPlot);
    let e = Surface::from_buf(&packet(&[255], &[0u8, 2, 0, 0, 0, 100, 255])).unwrap_err();
    assert_eq!(e.kind, ErrorKind::PlotRange);
    // an empty rectangle is fine wherever it is
    let s = Surface::from_buf(&packet(&[255], &[0u8, 2, 200, 200, 100, 100, 255])).unwrap();
    assert!(s.ol.iter().all(|&b| b == 0));
    // a row that runs past column 99 continues on the next row
    let s = Surface::from_buf(&packet(&[255], &[0u8, 2, 99, 0, 101, 0, 255])).unwrap();
    assert_eq!((s.ol[99], s.ol[100], s.ol[101], s.ol[102]), (16, 16, 16, 0));
}

#[test]
fn truncated_grid_errors() {
    let mut p = Vec::new();
    p.extend(4i32.to_le_bytes());
    p.extend(b"x\0");
    assert_eq!(Surface::from_buf(&p).unwrap_err().kind, ErrorKind::Eof);
    let mut p = Vec::new();
    p.extend(4i32.to_le_bytes());
    p.extend(4i32.to_le_bytes());
    p.extend(b"x\0");
    p.push(255);
    p.extend(zlib(&[1u8, 2, 3]));
    assert_eq!(Surface::from_buf(&p).unwrap_err().kind, ErrorKind::Eof);
}

#[test]
fn surface_reads_inflated_part() {
    let b = body(&[255]);
    let mut r = Reader::new(&b);
    let pfl = vec![0u8; 256];
    let s = Surface::surface(&mut r, &pfl, 1, 2, "n".to_string()).unwrap();
    assert_eq!((s.x, s.y, s.id), (1, 2, -9));
    assert!(r.is_empty());
}
