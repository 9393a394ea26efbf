use xux::follow::{follow, server_type, shown, MsgType};
use xux::proto::message::ServerMessage;
use xux::proto::message_close::Close;

#[test]
fn follow_shows_each_element_once() {
    assert_eq!(follow(0, 0, 3), (vec![0, 1, 2], 3));
    // a message that overlaps what was seen shows only the new elements
    assert_eq!(follow(2, 0, 4), (vec![2, 3], 4));
    // one from the past or the future shows nothing
    assert_eq!(follow(5, 0, 2), (vec![], 5));
    assert_eq!(follow(0, 3, 2), (vec![], 0));
    // numbers wrap at 16 bits
    assert_eq!(follow(0xffff, 0xffff, 2), (vec![0, 1], 1));
}

#[test]
fn types_filter_messages() {
    assert_eq!(MsgType::from_str("MAPDATA"), MsgType::Mapdata);
    assert_eq!(MsgType::from_str("REL"), MsgType::Rel);
    assert!(shown(&vec![], MsgType::Ack));
    assert!(shown(&vec![MsgType::Rel, MsgType::Close], MsgType::Close));
    assert!(!shown(&vec![MsgType::Rel], MsgType::Ack));
    assert_eq!(server_type(&ServerMessage::CLOSE(Close)), MsgType::Close);
}
