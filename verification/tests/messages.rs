use qwencraft::agent::{AgentState, Vec3Bits};
use qwencraft::coords::{BlockPos, ChunkPos};
use qwencraft::input::{Key, KeySet};
use qwencraft::protocol::{Action, ClientMsg, ServerMsg, PROTOCOL_VERSION};
use qwencraft::stats::{CacheStats, ServerStats};

fn bits(v: f32) -> u32 {
    v.to_bits()
}
fn full_agent() -> AgentState {
    AgentState {
        id: 7,
        is_player: true,
        name: "Zörg".to_string(),
        pos: Vec3Bits { x: bits(-12.5), y: bits(34.25), z: bits(99.125) },
        yaw: bits(1.23),
        pitch: bits(-0.45),
        on_ground: true,
        fly: true,
        fly_speed: bits(42.0),
        color: [10, 200, 255],
        radius: bits(0.42),
        target: Some(BlockPos::new(-3, 12, 77)),
    }
}

#[test]
fn client_messages_round_trip() {
    let mut keys = KeySet::default();
    keys.insert(Key::W);
    keys.insert(Key::Space);
    keys.insert(Key::BracketRight);
    let msgs = [
        ClientMsg::Input {
            keys: keys.bits(),
            dx: bits(-12.5),
            dy: bits(3.25),
        },
        ClientMsg::Action(Action::Break {
            yaw: bits(0.5),
            pitch: bits(-0.7),
        }),
        ClientMsg::Action(Action::Place {
            yaw: bits(-1.5),
            pitch: bits(1.55),
        }),
        ClientMsg::Action(Action::ToggleFly),
        ClientMsg::Action(Action::FlyFaster),
        ClientMsg::Action(Action::FlySlower),
        ClientMsg::Action(Action::NpcLoad),
        ClientMsg::Action(Action::NpcClear),
        ClientMsg::Action(Action::NpcCountUp),
        ClientMsg::Action(Action::NpcCountDown),
        ClientMsg::Action(Action::NpcSpacingUp),
        ClientMsg::Action(Action::NpcSpacingDown),
        ClientMsg::Evicted(vec![
            ChunkPos::new(-4, 2, 17),
            ChunkPos::new(0, 0, -1),
            ChunkPos::new(123, 1, -50),
        ]),
        ClientMsg::SetNpcLoad {
            count: 128,
            spacing: bits(24.0),
        },
        ClientMsg::Profile {
            name: "Alice".to_string(),
            color: [10, 200, 255],
        },
        ClientMsg::Profile {
            name: String::new(),
            color: [0, 0, 0],
        },
    ];
    for m in &msgs {
        let enc = m.encode();
        let dec = ClientMsg::decode(&enc).unwrap_or_else(|| panic!("decode failed for {m:?}"));
        assert_eq!(&dec, m, "round-trip mismatch for {m:?}");
    }
}

#[test]
fn server_messages_round_trip() {
    let agent = full_agent();
    let chunk_data: Vec<u8> = (0..17576).map(|i| (i % 11) as u8).collect();
    let stats = ServerStats {
        chunks_generated: 500,
        chunks_sent: 420,
        deltas: 3,
        agents: 65,
        npcs: 64,
        cache: CacheStats {
            lookups: 1_000_003,
            hits: 999_999,
            solid_misses: 7,
            rebuilds: 4242,
            rebuild_probes: 1_400_000,
        },
    };
    let msgs = [
        ServerMsg::Hello {
            version: PROTOCOL_VERSION,
            seed: 0xDEAD_BEEF_CAFE_F00D,
            player_id: 3,
        },
        ServerMsg::PlayerState(agent.clone()),
        ServerMsg::Agents(vec![agent.clone(), AgentState::default()]),
        ServerMsg::Chunk {
            pos: ChunkPos::new(-2, 1, 3),
            data: chunk_data,
        },
        ServerMsg::Stats(stats),
        ServerMsg::NpcLoad {
            count: 64,
            spacing: bits(16.0),
        },
    ];
    for m in &msgs {
        let enc = m.encode();
        let dec = ServerMsg::decode(&enc).unwrap_or_else(|| panic!("decode failed for {m:?}"));
        assert_eq!(dec, *m, "round-trip mismatch for {m:?}");
    }
}

#[test]
fn agent_round_trips_with_and_without_target() {
    let mut no_target = full_agent();
    no_target.target = None;
    no_target.is_player = false;
    no_target.on_ground = false;
    no_target.fly = false;
    for s in [full_agent(), no_target] {
        let enc = ServerMsg::PlayerState(s.clone()).encode();
        let ServerMsg::PlayerState(d) = ServerMsg::decode(&enc).unwrap() else {
            panic!("wrong message type");
        };
        assert_eq!(d, s);
    }
}

#[test]
fn decode_stream_handles_multiple_and_partial_frames() {
    let m1 = ClientMsg::Action(Action::ToggleFly);
    let m2 = ClientMsg::Evicted(vec![ChunkPos::new(1, 0, -2)]);
    let mut buf = m1.encode();
    buf.extend_from_slice(&m2.encode());
    let partial = ClientMsg::Action(Action::FlyFaster).encode();
    buf.extend_from_slice(&partial[..3]);

    let (msgs, consumed) = ClientMsg::decode_stream(&buf);
    assert_eq!(consumed, m1.encode().len() + m2.encode().len());
    assert_eq!(
        msgs,
        vec![ClientMsg::Action(Action::ToggleFly), m2],
        "two complete frames decoded"
    );
    assert_eq!(&buf[consumed..], &partial[..3], "partial frame left over");
    let s1 = ServerMsg::NpcLoad {
        count: 2,
        spacing: bits(8.0),
    };
    let s2 = ServerMsg::Hello {
        version: 1,
        seed: 9,
        player_id: 0,
    };
    let mut sbuf = s1.encode();
    sbuf.extend_from_slice(&s2.encode());
    let (smsgs, sconsumed) = ServerMsg::decode_stream(&sbuf);
    assert_eq!(sconsumed, sbuf.len());
    assert_eq!(smsgs, vec![s1, s2]);
}

#[test]
fn decode_rejects_garbage() {
    assert!(ClientMsg::decode(&[0x7F, 0, 0, 0, 0]).is_none());
    assert!(ServerMsg::decode(&[0x01, 0, 0, 0, 0]).is_none());
    assert!(ClientMsg::decode(&[0x01, 0, 0]).is_none());
    assert!(ClientMsg::decode(&[0x01, 9, 0, 0, 0, 1, 2]).is_none());
    assert!(ClientMsg::decode(&[0x01, 12, 0, 0, 0, 1, 2, 3]).is_none());
    let mut bad = ClientMsg::Action(Action::NpcClear).encode();
    bad.extend_from_slice(&[1, 2, 3]);
    bad[1] = 4;
    assert!(ClientMsg::decode(&bad).is_none());
    let bad = [0x02u8, 1, 0, 0, 0, 99];
    assert!(ClientMsg::decode(&bad).is_none());
}

#[test]
fn messages_have_the_documented_layout() {
    assert_eq!(
        ClientMsg::Action(Action::Break { yaw: 1, pitch: 2 }).encode(),
        vec![0x02, 9, 0, 0, 0, 0, 1, 0, 0, 0, 2, 0, 0, 0]
    );
    assert_eq!(
        ServerMsg::Hello { version: 3, seed: 5, player_id: 7 }.encode(),
        vec![0x10, 13, 0, 0, 0, 3, 5, 0, 0, 0, 0, 0, 0, 0, 7, 0, 0, 0]
    );
    assert_eq!(ServerMsg::NpcLoad { count: 1, spacing: 2 }.encode().len(), 5 + 8);
}

#[test]
fn names_are_limited() {
    let long = ClientMsg::Profile { name: "a".repeat(64), color: [0; 3] };
    assert_eq!(ClientMsg::decode(&long.encode()), Some(long));
    let longer = ClientMsg::Profile { name: "a".repeat(65), color: [0; 3] };
    assert_eq!(ClientMsg::decode(&longer.encode()), None);
}

#[test]
fn broken_text_is_refused() {
    let mut b = ClientMsg::Profile { name: "ab".to_string(), color: [1, 2, 3] }.encode();
    assert!(ClientMsg::decode(&b).is_some());
    for i in 5..b.len() - 1 {
        if b[i] == b'a' && b[i + 1] == b'b' {
            b[i] = 0xff;
            break;
        }
    }
    assert_eq!(ClientMsg::decode(&b), None);
}

#[test]
fn partial_server_frames_are_left_over() {
    let whole = ServerMsg::NpcLoad { count: 3, spacing: bits(8.0) }.encode();
    for n in 0..whole.len() {
        let (msgs, used) = ServerMsg::decode_stream(&whole[..n]);
        assert!(msgs.is_empty());
        assert_eq!(used, 0);
    }
    let mut two = whole.clone();
    two.extend_from_slice(&whole[..4]);
    let (msgs, used) = ServerMsg::decode_stream(&two);
    assert_eq!(msgs, vec![ServerMsg::NpcLoad { count: 3, spacing: bits(8.0) }]);
    assert_eq!(used, whole.len());
}

#[test]
fn unknown_frames_are_passed_over() {
    let unknown = [0x7f, 3, 0, 0, 0, 1, 2, 3];
    let m = ClientMsg::Action(Action::ToggleFly);
    let mut buf = unknown.to_vec();
    buf.extend_from_slice(&m.encode());
    assert_eq!(ClientMsg::decode_stream(&buf), (vec![m], buf.len()));
    let m = ServerMsg::NpcLoad { count: 3, spacing: bits(8.0) };
    let mut buf = m.encode();
    buf.extend_from_slice(&unknown);
    buf.extend_from_slice(&m.encode());
    assert_eq!(ServerMsg::decode_stream(&buf), (vec![m.clone(), m], buf.len()));
}
