use xux::ai_decl::{AiDecl, AiState};
use xux::state::session::State;

fn le16(v: u16) -> Vec<u8> {
    v.to_le_bytes().to_vec()
}

fn newwdg(id: u16, name: &str) -> Vec<u8> {
    let mut b = vec![1u8, 0, 0, 0];
    b.extend(le16(id));
    b.extend(name.as_bytes());
    b.push(0);
    b.extend(le16(0));
    b.push(0);
    b.push(0);
    b
}

#[test]
fn script_waits_then_plays() {
    let mut ai = AiDecl::new();
    let mut s = State::new();
    ai.update(&mut s);
    assert_eq!(ai.ai_state(), AiState::WaitForCharList);
    s.rx(&newwdg(3, "charlist")).unwrap();
    s.charlist.push("Bob".into());
    while s.tx().is_some() {}
    ai.update(&mut s);
    assert_eq!(ai.ai_state(), AiState::WaitForWorld);
    let sent = s.tx().unwrap().buf;
    assert_eq!(&sent[..4], &[1, 0, 0, 1]);
    // no world yet: it keeps waiting
    ai.update(&mut s);
    assert_eq!(ai.ai_state(), AiState::WaitForWorld);
    assert_eq!(ai.cycles(), 0);
}

fn le32(v: i32) -> Vec<u8> {
    v.to_le_bytes().to_vec()
}

fn hero_at(s: &mut State, frame: i32, x: i32, y: i32, moving: bool) {
    let mut b = vec![6u8, 0];
    b.extend(5u32.to_le_bytes());
    b.extend(le32(frame));
    b.push(1);
    b.extend(le32(x));
    b.extend(le32(y));
    b.extend(le16(0));
    if moving {
        b.push(3);
        for v in [x, y, x + 10, y, 5] {
            b.extend(le32(v));
        }
    } else {
        b.push(4);
        b.extend(le32(0));
    }
    b.push(255);
    s.rx(&b).unwrap();
}

#[test]
fn script_walks_its_figure() {
    let mut ai = AiDecl::new();
    let mut s = State::new();
    s.rx(&newwdg(3, "charlist")).unwrap();
    s.charlist.push("Bob".into());
    ai.update(&mut s);
    let mut mv = vec![1u8, 1, 0, 0];
    mv.extend(le16(6));
    mv.extend(b"mapview\0");
    mv.extend(le16(0));
    mv.push(0);
    mv.push(0);
    s.rx(&mv).unwrap();
    hero_at(&mut s, 1, 500, 500, false);
    s.hero.obj = Some(5);
    s.map.add_grid(xux::state::map::GridHint { xy: (0, 0), name: "g".into(), id: 1 });
    assert!(ai.can_update(&s));
    ai.update(&mut s);
    assert_eq!(ai.ai_state(), AiState::Walking);
    while s.tx().is_some() {}
    ai.update(&mut s);
    assert_eq!(ai.ai_state(), AiState::Walking1);
    // the click waits behind the unanswered choice of the character
    assert_eq!(s.que.len(), 2);
    assert!(s.tx().is_none());
    hero_at(&mut s, 2, 500, 500, true);
    ai.update(&mut s);
    assert_eq!(ai.ai_state(), AiState::Walking2);
    hero_at(&mut s, 3, 510, 500, false);
    ai.update(&mut s);
    assert_eq!(ai.ai_state(), AiState::Walking);
    assert_eq!(ai.cycles(), 0);
}
