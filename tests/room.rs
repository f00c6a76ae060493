use mute_unmute_poc::channels::Waiter;
use mute_unmute_poc::proto::{Command, Event, WsSession};
use mute_unmute_poc::room::{PeerConnection, Room, SenderKind, TrackSender};

fn all_resolved(rx: Vec<Waiter>) -> bool {
    rx.into_iter()
        .all(|r| matches!(r.into_inner().try_recv(), Ok(Some(()))))
}

#[test]
fn commands_are_answered_in_kind() {
    let mute = Command::MuteRoom { video: true, audio: false };
    assert_eq!(mute.answer(), Event::RoomMuted { video: true, audio: false });
    let unmute = Command::UnmuteRoom { video: false, audio: true };
    assert_eq!(unmute.answer(), Event::RoomUnmuted { video: false, audio: true });
    let session = WsSession::new();
    assert_eq!(session.handle(&mute), Event::RoomMuted { video: true, audio: false });
}

#[test]
fn track_mute_and_wait() {
    let mut track = TrackSender::new(SenderKind::Audio);
    assert!(!track.is_muted());
    assert!(!track.is_busy());
    let mut muted = track.on_mute().into_inner();
    track.mute();
    assert!(track.is_muted());
    assert!(matches!(muted.try_recv(), Ok(Some(()))));
    let mut unmuted = track.on_unmute().into_inner();
    track.unmute();
    assert!(!track.is_muted());
    assert!(matches!(unmuted.try_recv(), Ok(Some(()))));
}

#[test]
fn kind_selection() {
    assert!(SenderKind::Audio.is_selected(true, false));
    assert!(!SenderKind::Audio.is_selected(false, true));
    assert!(SenderKind::Video.is_selected(false, true));
    assert!(!SenderKind::Video.is_selected(false, false));
}

#[test]
fn peer_mutes_only_selected_tracks() {
    let mut peer = PeerConnection::new();
    assert!(!peer.is_muted(true, true));
    assert!(!peer.is_busy(true, true));
    let waits = peer.on_mute(true, false);
    assert_eq!(waits.len(), 1);
    peer.mute(true, false);
    assert!(all_resolved(waits));
    assert!(peer.is_muted(true, false));
    assert!(!peer.is_muted(false, true));
    assert!(!peer.is_muted(true, true));
    let back = peer.on_unmute(true, true);
    assert_eq!(back.len(), 1);
    peer.unmute(true, true);
    assert!(all_resolved(back));
    assert!(!peer.is_muted(true, false));
}

#[test]
fn nothing_selected_is_muted_and_busy() {
    let peer = PeerConnection::new();
    assert!(peer.is_muted(false, false));
    assert!(peer.is_busy(false, false));
}

#[test]
fn room_mute_round_trip() {
    let mut room = Room::new();
    assert!(!room.is_busy(true, true));
    let (command, waits) = room.begin(true, true, true);
    assert_eq!(command, Some(Command::MuteRoom { video: true, audio: true }));
    assert_eq!(waits.len(), 2);
    room.handle_event(&command.unwrap().answer());
    assert!(all_resolved(waits));
    let (again, none) = room.begin(true, true, true);
    assert_eq!(again, None);
    assert!(none.is_empty());
    let (unmute, back) = room.begin(false, true, false);
    assert_eq!(unmute, Some(Command::UnmuteRoom { video: true, audio: false }));
    assert_eq!(back.len(), 1);
    room.handle_event(&Event::RoomUnmuted { video: true, audio: false });
    assert!(all_resolved(back));
}

#[test]
fn unmute_when_room_not_muted_sends_nothing() {
    let mut room = Room::new();
    let (command, waits) = room.begin(true, true, false);
    assert_eq!(command, None);
    assert!(waits.is_empty());
}

#[test]
fn empty_selection_is_busy_and_sends_nothing() {
    let mut room = Room::new();
    assert!(room.is_busy(false, false));
    let (command, waits) = room.begin(false, false, true);
    assert_eq!(command, None);
    assert!(waits.is_empty());
}
