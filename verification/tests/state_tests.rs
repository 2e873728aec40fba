use packet_codec::packet::{PVMessage, PacketDataType};
use packet_codec::state::{Message, State, StateAction};
use packet_codec::update;

#[test]
fn add_and_remove_packets_keep_positions_contiguous() {
    let mut s = State::default();
    s.update(Message::AddPacket);
    s.update(Message::AddPacket);
    s.update(Message::AddPacket);
    assert_eq!(s.packet_views.len(), 3);
    s.update(Message::RemovePacket(1));
    assert_eq!(s.packet_views.len(), 2);
    for (i, p) in s.packet_views.iter().enumerate() {
        assert_eq!(p.index, i);
    }
}

#[test]
fn endpoint_entry_is_stored() {
    let mut s = State::default();
    s.update(Message::IpEntry("127.0.0.1".to_string()));
    s.update(Message::PortEntry("9000".to_string()));
    assert_eq!(s.current_ip, "127.0.0.1");
    assert_eq!(s.current_port, "9000");
}

#[test]
fn io_messages_become_actions() {
    let mut s = State::default();
    s.update(Message::AddPacket);
    assert_eq!(s.update(Message::Connect), StateAction::ConnectRequested);
    assert_eq!(s.update(Message::Disconnect), StateAction::DisconnectRequested);
    assert_eq!(s.update(Message::SendPacket(0)), StateAction::SendRequested(0));
    assert_eq!(
        s.update(Message::RecievePacket(0)),
        StateAction::ReceiveRequested(0)
    );
    assert_eq!(s.update(Message::OpenPacket), StateAction::OpenRequested);
}

#[test]
fn packet_messages_are_forwarded_and_actions_tagged() {
    let mut s = State::default();
    s.update(Message::AddPacket);
    s.update(Message::PVMessage(0, PVMessage::AddField));
    s.update(Message::PVMessage(
        0,
        PVMessage::DataType(PacketDataType::U8, 0),
    ));
    let a = update(
        &mut s,
        Message::PVMessage(0, PVMessage::DataEntry("7".to_string(), 0)),
    );
    assert_eq!(a, StateAction::Idle);
    assert_eq!(s.packet_views[0].fields[0].data_string, "7");
    assert_eq!(
        s.update(Message::PVMessage(0, PVMessage::SavePacket)),
        StateAction::SavePacket(0)
    );
    assert_eq!(
        s.update(Message::PVMessage(0, PVMessage::OpenFile(0))),
        StateAction::PickFile(0, 0)
    );
}

#[test]
fn loaded_packets_are_renumbered() {
    let mut s = State::default();
    s.update(Message::AddPacket);
    let mut p = packet_codec::packet::PacketView::new(0);
    p.index = 99;
    // A hand-edited document can carry stale field positions too.
    p.add_field();
    p.add_field();
    p.fields[0].index = 7;
    p.fields[1].index = 7;
    s.add_loaded_packet(p);
    assert_eq!(s.packet_views[1].index, 1);
    for (i, f) in s.packet_views[1].fields.iter().enumerate() {
        assert_eq!(f.index, i);
    }
}
