use xux::proto::message_mapdata::MapData;
use xux::state::map::{GridHint, GridMap};

fn frag(pktid: i32, off: u16, len: u16, buf: &[u8]) -> MapData {
    MapData::new(pktid, off, len, buf.to_vec())
}

#[test]
fn single_fragment_is_complete() {
    let mut m = GridMap::new();
    m.append(frag(1, 0, 3, b"abc"));
    assert!(m.complete(1));
    assert!(!m.complete(2));
    assert_eq!(m.assemble(1), b"abc".to_vec());
    assert!(!m.complete(1));
    assert_eq!(m.assemble(1), Vec::<u8>::new());
}

#[test]
fn fragments_in_any_order() {
    let mut m = GridMap::new();
    m.append(frag(7, 4, 8, b"efgh"));
    assert!(!m.complete(7));
    m.append(frag(7, 0, 8, b"abcd"));
    assert!(m.complete(7));
    assert_eq!(m.assemble(7), b"abcdefgh".to_vec());
}

#[test]
fn later_fragment_at_an_offset_replaces_the_earlier() {
    let mut m = GridMap::new();
    m.append(frag(3, 0, 4, b"xx"));
    m.append(frag(3, 0, 4, b"ab"));
    m.append(frag(3, 2, 4, b"cd"));
    assert_eq!(m.assemble(3), b"abcd".to_vec());
}

#[test]
fn first_fragment_fixes_the_total() {
    let mut m = GridMap::new();
    m.append(frag(5, 0, 2, b"ab"));
    // a later fragment with another total does not change it
    m.append(frag(5, 2, 4, b"cd"));
    assert!(m.complete(5));
    assert_eq!(m.assemble(5), b"ab".to_vec());
}

#[test]
fn gap_and_cycle_are_incomplete() {
    let mut m = GridMap::new();
    m.append(frag(1, 0, 10, b"ab"));
    m.append(frag(1, 4, 10, b"cd"));
    assert!(!m.complete(1));
    assert_eq!(m.assemble(1), b"ab".to_vec());
    // an empty fragment at offset 0 never moves on
    let mut m = GridMap::new();
    m.append(frag(2, 0, 10, b""));
    assert!(!m.complete(2));
    assert_eq!(m.assemble(2), Vec::<u8>::new());
}

#[test]
fn packets_are_kept_apart() {
    let mut m = GridMap::new();
    m.append(frag(1, 0, 2, b"ab"));
    m.append(frag(2, 0, 3, b"xy"));
    assert!(m.complete(1));
    assert!(!m.complete(2));
    assert_eq!(m.assemble(1), b"ab".to_vec());
    assert!(m.partial.contains_key(&2));
}

#[test]
fn grids_are_recorded() {
    let mut m = GridMap::new();
    assert!(!m.has_grid((1, 2)));
    m.add_grid(GridHint { xy: (1, 2), name: "g".into(), id: 5 });
    assert!(m.has_grid((1, 2)));
    assert!(!m.has_grid((2, 1)));
}
