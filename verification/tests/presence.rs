use kyoso::geometry::{numbers_equal, Pos2, Pos3, Rgb};
use kyoso::presence::{
    broadcast_local_cursor, decode_presence, despawn_left_cursors, encode_presence, peer_hue,
    spawn_or_move_remote_cursors, update_typed_presence, LocalPresence, Presence, PresenceError,
    PresenceEvent, PresenceState, RawPresence, RawPresenceEvent, RemoteCursor, SyncStatus,
};

fn flat(x: f32, y: f32, name: &str) -> PresenceState<Pos2> {
    PresenceState {
        cursor: Pos2 { x: x.to_bits(), y: y.to_bits() },
        color: Rgb { r: 0.25f32.to_bits(), g: 0.5f32.to_bits(), b: 1.0f32.to_bits() },
        name: name.to_string(),
    }
}

fn deep(name: &str) -> PresenceState<Pos3> {
    PresenceState {
        cursor: Pos3 { x: 1.5f32.to_bits(), y: (-2.0f32).to_bits(), z: 0.0f32.to_bits() },
        color: Rgb { r: 0, g: 1, b: 2 },
        name: name.to_string(),
    }
}

#[test]
fn frames_have_the_expected_bytes() {
    let bytes = encode_presence(&flat(1.0, -2.0, "ab")).unwrap();
    assert_eq!(
        bytes,
        vec![
            1, // version
            0, 0, 0x80, 0x3f, // 1.0
            0, 0, 0, 0xc0, // -2.0
            0, 0, 0x80, 0x3e, // 0.25
            0, 0, 0, 0x3f, // 0.5
            0, 0, 0x80, 0x3f, // 1.0
            2, b'a', b'b',
        ]
    );
}

#[test]
fn presence_round_trips() {
    for name in ["", "peer 7", "ünïcode ✓"] {
        let state = flat(3.25, 4.5, name);
        let bytes = encode_presence(&state).unwrap();
        let back = decode_presence::<Pos2>(&bytes).unwrap().unwrap();
        assert_eq!(back.cursor, state.cursor);
        assert_eq!(back.color, state.color);
        assert_eq!(back.name, state.name);
        let long = "x".repeat(300);
        let state = deep(&long);
        let back = decode_presence::<Pos3>(&encode_presence(&state).unwrap()).unwrap().unwrap();
        assert_eq!(back.cursor, state.cursor);
        assert_eq!(back.name, long);
    }
}

#[test]
fn bytes_behind_a_frame_do_not_matter() {
    let mut bytes = encode_presence(&deep("z")).unwrap();
    bytes.extend_from_slice(&[1, 2, 3]);
    assert_eq!(decode_presence::<Pos3>(&bytes).unwrap().unwrap().name, "z");
}

#[test]
fn other_versions_are_dropped_and_junk_is_an_error() {
    let mut bytes = encode_presence(&flat(0.0, 0.0, "a")).unwrap();
    bytes[0] = 2;
    assert!(decode_presence::<Pos2>(&bytes).unwrap().is_none());
    // The payload of another version may have any shape.
    assert!(decode_presence::<Pos2>(&[2]).unwrap().is_none());
    assert!(decode_presence::<Pos3>(&[0xac, 0x02, 9]).unwrap().is_none());
    // A version over several bytes.
    let mut wide = vec![0x81, 0x80, 0x00];
    wide.extend_from_slice(&encode_presence(&flat(0.0, 0.0, "a")).unwrap()[1..]);
    assert_eq!(decode_presence::<Pos2>(&wide).unwrap().unwrap().name, "a");
    assert_eq!(decode_presence::<Pos2>(&[]).unwrap_err(), PresenceError);
    assert_eq!(decode_presence::<Pos2>(&[1, 2, 3]).unwrap_err(), PresenceError);
    // A version that does not fit, a short name, a name that is no UTF-8.
    assert!(decode_presence::<Pos2>(&[0xff, 0xff, 0x04]).is_err());
    let mut short = encode_presence(&flat(0.0, 0.0, "abc")).unwrap();
    short.pop();
    assert!(decode_presence::<Pos2>(&short).is_err());
    let mut bad = encode_presence(&flat(0.0, 0.0, "a")).unwrap();
    let last = bad.len() - 1;
    bad[last] = 0xff;
    assert!(decode_presence::<Pos2>(&bad).is_err());
}

#[test]
fn the_room_follows_the_frames() {
    let mut typed: Presence<Pos2> = Presence::new();
    let mut events = Vec::new();
    let one = encode_presence(&flat(1.0, 1.0, "one")).unwrap();
    let two = encode_presence(&flat(2.0, 2.0, "two")).unwrap();
    let mut newer = one.clone();
    newer[0] = 9;
    let raw = RawPresence(vec![(1, one.clone()), (2, vec![0]), (3, newer)]);
    update_typed_presence(
        &vec![
            RawPresenceEvent::Updated { peer: 1, state: one.clone() },
            RawPresenceEvent::Updated { peer: 1, state: two.clone() },
            RawPresenceEvent::Updated { peer: 5, state: vec![1, 2] },
            RawPresenceEvent::Left { peer: 4 },
        ],
        &raw,
        &mut typed,
        &mut events,
    );
    assert_eq!(events.len(), 3);
    assert!(matches!(&events[0], PresenceEvent::Joined { peer: 1, state } if state.name == "one"));
    assert!(matches!(&events[1], PresenceEvent::Updated { peer: 1, state } if state.name == "two"));
    assert!(matches!(&events[2], PresenceEvent::Left { peer: 4 }));
    assert_eq!(typed.peers.get(1).unwrap().name, "two");

    // A snapshot replaces everything by what decodes.
    events.clear();
    typed.peers.insert(8, flat(0.0, 0.0, "old"));
    update_typed_presence(&vec![RawPresenceEvent::Snapshot], &raw, &mut typed, &mut events);
    assert_eq!(typed.peers.len(), 1);
    assert_eq!(typed.peers.get(1).unwrap().name, "one");
    assert_eq!(events.len(), 1);
    assert!(matches!(&events[0], PresenceEvent::Joined { peer: 1, .. }));
}

#[test]
fn a_broadcast_goes_out_once() {
    let color = Rgb { r: 1, g: 2, b: 3 };
    let at = Pos2 { x: 1.0f32.to_bits(), y: 2.0f32.to_bits() };
    let mut local = LocalPresence(flat(0.0, 0.0, ""));
    let connected = SyncStatus::Connected { peer: 42 };
    assert!(broadcast_local_cursor(SyncStatus::Connecting, Some(at), color, true, &mut local)
        .is_none());
    assert!(broadcast_local_cursor::<Pos2>(connected, None, color, true, &mut local).is_none());
    assert!(broadcast_local_cursor(connected, Some(at), color, false, &mut local).is_none());
    assert_eq!(local.0.name, "");
    let bytes = broadcast_local_cursor(connected, Some(at), color, true, &mut local).unwrap();
    let told = decode_presence::<Pos2>(&bytes).unwrap().unwrap();
    assert_eq!(told.name, "peer 42");
    assert_eq!(told.cursor, at);
    assert!(broadcast_local_cursor(connected, Some(at), color, true, &mut local).is_none());
}

#[test]
fn the_two_zeros_are_one_number() {
    assert!(numbers_equal(0.0f32.to_bits(), (-0.0f32).to_bits()));
    assert!(!numbers_equal(f32::NAN.to_bits(), f32::NAN.to_bits()));
    assert!(numbers_equal(f32::INFINITY.to_bits(), f32::INFINITY.to_bits()));
    assert!(!numbers_equal(1.0f32.to_bits(), (-1.0f32).to_bits()));
}

#[test]
fn cursors_follow_the_peers() {
    let mut presence: Presence<Pos2> = Presence::new();
    presence.peers.insert(1, flat(1.0, 1.0, "me"));
    presence.peers.insert(2, flat(2.0, 2.0, "shown"));
    presence.peers.insert(3, flat(3.0, 3.0, "new"));
    let cursors = vec![(10, RemoteCursor { peer: 2 }), (11, RemoteCursor { peer: 9 })];
    let (moves, spawns) =
        spawn_or_move_remote_cursors(&presence, SyncStatus::Connected { peer: 1 }, &cursors);
    assert_eq!(moves.len(), 1);
    assert_eq!(moves[0].0, 10);
    assert_eq!(moves[0].1, Pos2 { x: 2.0f32.to_bits(), y: 2.0f32.to_bits() });
    assert_eq!(spawns.len(), 1);
    assert_eq!(spawns[0].peer, 3);
    assert_eq!(despawn_left_cursors(&presence, &cursors), vec![11]);
}

#[test]
fn hues_are_stable() {
    assert_eq!(peer_hue(0), 0);
    assert_eq!(peer_hue(1), 2654435761 % 360);
    assert_eq!(peer_hue(u64::MAX), u64::MAX.wrapping_mul(2654435761) % 360);
}
