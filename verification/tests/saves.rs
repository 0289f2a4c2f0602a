use qwencraft::agent::Vec3Bits;
use qwencraft::block::{Block, BLOCK_COUNT};
use qwencraft::coords::{BlockPos, WORLD_HEIGHT};
use qwencraft::save::{
    decode, encode, PlayerRecord, SaveError, ENTRY_BYTES, HEADER_BYTES, PLAYER_FIXED_BYTES, SAVE_MAGIC,
    SAVE_VERSION,
};
use qwencraft::world::Edit;

fn bits(x: f32, y: f32, z: f32) -> Vec3Bits {
    Vec3Bits { x: x.to_bits(), y: y.to_bits(), z: z.to_bits() }
}

fn sample_edits() -> Vec<Edit> {
    vec![
        Edit { pos: BlockPos::new(8, 30, 8), block: Block::Stone },
        Edit { pos: BlockPos::new(-120, 12, 240), block: Block::Air },
        Edit { pos: BlockPos::new(0, 0, 0), block: Block::Obsidian },
        Edit { pos: BlockPos::new(-1, 63, 1), block: Block::Water },
    ]
}

fn sample_players() -> Vec<([u8; 16], PlayerRecord)> {
    vec![
        (
            [1; 16],
            PlayerRecord {
                pos: bits(8.5, 34.0, 8.5),
                yaw: (1.2f32).to_bits(),
                pitch: (-0.3f32).to_bits(),
                name: "Alice".to_string(),
                color: [255, 0, 128],
                last_seen: 1_700_000_000,
            },
        ),
        (
            [0xAB; 16],
            PlayerRecord {
                pos: bits(-42.5, 21.0, 100.5),
                yaw: (0.0f32).to_bits(),
                pitch: (0.0f32).to_bits(),
                name: String::new(),
                color: [0, 0, 0],
                last_seen: 1_700_000_001,
            },
        ),
        (
            [7; 16],
            PlayerRecord {
                pos: bits(1000.5, 5.0, -1000.5),
                yaw: (-3.1f32).to_bits(),
                pitch: (1.5f32).to_bits(),
                name: "Zoë-ñ".to_string(),
                color: [1, 2, 3],
                last_seen: 0,
            },
        ),
    ]
}

#[test]
fn roundtrip() {
    let edits = sample_edits();
    let players = sample_players();
    let bytes = encode(1337, &edits, &players);
    let (seed, back, back_players) = decode(&bytes).expect("decode");
    assert_eq!(seed, 1337);
    assert_eq!(back, edits);
    assert_eq!(back_players, players);
}

#[test]
fn roundtrip_empty() {
    let bytes = encode(42, &[], &[]);
    assert_eq!(bytes.len(), HEADER_BYTES + 8);
    let (seed, back, players) = decode(&bytes).expect("decode");
    assert_eq!(seed, 42);
    assert!(back.is_empty());
    assert!(players.is_empty());
}

#[test]
fn deterministic() {
    let edits = sample_edits();
    let players = sample_players();
    assert_eq!(
        encode(7, &edits, &players),
        encode(7, &edits, &players)
    );
}

#[test]
fn rejects_bad_magic() {
    let mut bytes = encode(1, &[], &[]);
    bytes[0] = b'X';
    assert!(decode(&bytes).is_err());
}

#[test]
fn rejects_unknown_version() {
    let mut bytes = encode(1, &[], &[]);
    bytes[4..8].copy_from_slice(&99u32.to_le_bytes());
    assert!(decode(&bytes).is_err());
    bytes[4..8].copy_from_slice(&0u32.to_le_bytes());
    assert!(decode(&bytes).is_err());
}
fn player_bytes(
    token: [u8; 16],
    pos: (f32, f32, f32),
    yaw: f32,
    pitch: f32,
    name: &[u8],
    color: [u8; 3],
    last_seen: u64,
) -> Vec<u8> {
    let mut b = Vec::new();
    b.extend_from_slice(&token);
    b.extend_from_slice(&pos.0.to_le_bytes());
    b.extend_from_slice(&pos.1.to_le_bytes());
    b.extend_from_slice(&pos.2.to_le_bytes());
    b.extend_from_slice(&yaw.to_le_bytes());
    b.extend_from_slice(&pitch.to_le_bytes());
    b.extend_from_slice(&(name.len() as u16).to_le_bytes());
    b.extend_from_slice(name);
    b.extend_from_slice(&color);
    b.extend_from_slice(&last_seen.to_le_bytes());
    b
}
fn save_with_player(name: &[u8], pos: (f32, f32, f32)) -> Vec<u8> {
    let mut out = encode(5, &[], &[]);
    out[24..32].copy_from_slice(&1u64.to_le_bytes());
    out.extend_from_slice(&player_bytes(
        [9; 16],
        pos,
        0.5,
        -0.25,
        name,
        [9, 8, 7],
        42,
    ));
    out
}

#[test]
fn v1_save_decodes_without_players() {
    let mut v1 = Vec::new();
    v1.extend_from_slice(&SAVE_MAGIC);
    v1.extend_from_slice(&1u32.to_le_bytes());
    v1.extend_from_slice(&11u64.to_le_bytes());
    v1.extend_from_slice(&1u64.to_le_bytes());
    v1.extend_from_slice(&8i32.to_le_bytes());
    v1.extend_from_slice(&30i32.to_le_bytes());
    v1.extend_from_slice(&8i32.to_le_bytes());
    v1.push(Block::Stone.as_u8());
    let (seed, edits, players) = decode(&v1).expect("v1 decodes");
    assert_eq!(seed, 11);
    assert_eq!(edits.len(), 1);
    assert!(players.is_empty());
    let mut bad = v1;
    bad.push(0);
    assert!(decode(&bad).is_err());
}

#[test]
fn rejects_truncated_header_and_body() {
    let bytes = encode(1, &sample_edits(), &[]);
    assert!(decode(&bytes[..HEADER_BYTES - 1]).is_err());
    assert!(decode(&bytes[..bytes.len() - 5]).is_err());
    let mut bad = encode(1, &[], &[]);
    bad[16..24].copy_from_slice(&5u64.to_le_bytes());
    assert!(decode(&bad).is_err());
}

#[test]
fn rejects_out_of_world_y_and_unknown_block() {
    fn one_edit(x: i32, y: i32, z: i32, block: u8) -> Vec<u8> {
        let mut out = Vec::new();
        out.extend_from_slice(&SAVE_MAGIC);
        out.extend_from_slice(&SAVE_VERSION.to_le_bytes());
        out.extend_from_slice(&1u64.to_le_bytes());
        out.extend_from_slice(&1u64.to_le_bytes());
        out.extend_from_slice(&x.to_le_bytes());
        out.extend_from_slice(&y.to_le_bytes());
        out.extend_from_slice(&z.to_le_bytes());
        out.push(block);
        out.extend_from_slice(&0u64.to_le_bytes());
        out
    }
    let bytes = one_edit(8, WORLD_HEIGHT, 8, Block::Stone.as_u8());
    assert!(decode(&bytes).is_err());
    let bytes = one_edit(8, -1, 8, Block::Stone.as_u8());
    assert!(decode(&bytes).is_err());
    let bytes = one_edit(8, 10, 8, BLOCK_COUNT);
    assert!(decode(&bytes).is_err());
}

#[test]
fn rejects_truncated_player_section() {
    let bytes = save_with_player(b"Alice", (1.0, 2.0, 3.0));
    assert!(decode(&bytes[..bytes.len() - 5]).is_err());
    let mut no_rec = encode(5, &[], &[]);
    no_rec[24..32].copy_from_slice(&1u64.to_le_bytes());
    assert!(decode(&no_rec).is_err());
}

#[test]
fn rejects_bad_player_records() {
    let pos = (1.0, 2.0, 3.0);
    assert!(decode(&save_with_player(b"\xFF\xFE", pos)).is_err());
    assert!(decode(&save_with_player(&[b'a'; 65], pos)).is_err());
    let mut bytes = encode(5, &[], &[]);
    bytes[24..32].copy_from_slice(&1u64.to_le_bytes());
    bytes.extend_from_slice(&player_bytes(
        [9; 16],
        (f32::NAN, 2.0, 3.0),
        0.0,
        0.0,
        b"x",
        [1, 2, 3],
        0,
    ));
    assert!(decode(&bytes).is_err());
    let mut bad = save_with_player(b"Alice", pos);
    bad.push(0);
    assert!(decode(&bad).is_err());
}

#[test]
fn seed_mismatch_is_detectable() {
    let (a, _, _) = decode(&encode(111, &[], &[])).unwrap();
    let (b, _, _) = decode(&encode(222, &[], &[])).unwrap();
    assert_ne!(a, b);
}

fn error(bytes: &[u8]) -> SaveError {
    decode(bytes).unwrap_err()
}

/// A save of one player, the record's bytes changed by `f`.
fn changed(f: impl Fn(&mut Vec<u8>)) -> Vec<u8> {
    let mut b = save_with_player(b"Alice", (1.0, 2.0, 3.0));
    f(&mut b);
    b
}

#[test]
fn every_fault_has_its_error() {
    let at = BlockPos::new(8, 30, 8);
    let one = encode(1, &[Edit { pos: at, block: Block::Stone }], &[]);
    assert_eq!(error(b""), SaveError::TruncatedHeader);
    assert_eq!(error(&one[..23]), SaveError::TruncatedHeader);
    let mut b = one.clone();
    b[3] = 0;
    assert_eq!(error(&b), SaveError::BadMagic);
    let mut b = one.clone();
    b[4] = 3;
    assert_eq!(error(&b), SaveError::UnsupportedVersion { version: 3 });
    let mut b = one.clone();
    b[16] = 9;
    assert_eq!(error(&b), SaveError::TruncatedBody { declared: 9 });
    let mut b = one.clone();
    b[28] = 64;
    assert_eq!(error(&b), SaveError::OutsideWorld { x: 8, y: 64, z: 8 });
    let mut b = one.clone();
    b[36] = 17;
    assert_eq!(error(&b), SaveError::UnknownBlock { x: 8, y: 30, z: 8, id: 17 });
    let mut b = one.clone();
    b[4] = 1;
    assert_eq!(error(&b), SaveError::TrailingAfterEntries);
    assert_eq!(error(&one[..one.len() - 1]), SaveError::MissingPlayerCount);
    assert_eq!(
        error(&changed(|b| b[24..32].copy_from_slice(&65537u64.to_le_bytes()))),
        SaveError::ImplausiblePlayerCount { count: 65537 }
    );
    assert_eq!(error(&changed(|b| b.truncate(40))), SaveError::TruncatedRecord { index: 0 });
    assert_eq!(
        error(&changed(|b| b[48..52].copy_from_slice(&f32::INFINITY.to_le_bytes()))),
        SaveError::NonFiniteState { index: 0 }
    );
    assert_eq!(
        error(&changed(|b| b[68..70].copy_from_slice(&65u16.to_le_bytes()))),
        SaveError::LongName { index: 0, len: 65 }
    );
    assert_eq!(
        error(&changed(|b| b[70] = 0xff)),
        SaveError::BadName { index: 0 }
    );
    assert_eq!(error(&changed(|b| b.push(0))), SaveError::TrailingAfterPlayers);
    let n = changed(|_| {}).len();
    for cut in 1..n {
        assert!(decode(&changed(|b| b.truncate(cut))).is_err());
    }
}

#[test]
fn short_records_tell_what_is_missing() {
    let long = save_with_player(&[b'a'; 64], (1.0, 2.0, 3.0));
    assert!(decode(&long).is_ok());
    assert_eq!(error(&long[..long.len() - 11 - 10]), SaveError::TruncatedName { index: 0 });
    assert_eq!(error(&long[..long.len() - 8 - 1]), SaveError::TruncatedColour { index: 0 });
    assert_eq!(error(&long[..long.len() - 1]), SaveError::TruncatedLastSeen { index: 0 });
}

#[test]
fn saves_have_the_documented_layout() {
    let b = encode(
        0x0102030405060708,
        &[Edit { pos: BlockPos::new(-1, 2, 3), block: Block::Obsidian }],
        &sample_players()[..1],
    );
    assert_eq!(&b[..4], b"QWCS");
    assert_eq!(&b[4..8], &2u32.to_le_bytes());
    assert_eq!(&b[8..16], &0x0102030405060708u64.to_le_bytes());
    assert_eq!(&b[16..24], &1u64.to_le_bytes());
    assert_eq!(&b[24..28], &(-1i32).to_le_bytes());
    assert_eq!(b[36], 16);
    assert_eq!(&b[37..45], &1u64.to_le_bytes());
    assert_eq!(&b[45..61], &[1; 16]);
    assert_eq!(b.len(), 24 + 13 + 8 + 49 + 5);
}

#[test]
fn accepted_files_are_written_back_byte_for_byte() {
    let name = "Zoë".as_bytes();
    let by_hand = save_with_player(name, (1.0, 2.0, 3.0));
    let whole = encode(1337, &sample_edits(), &sample_players());
    for bytes in [by_hand, whole, encode(42, &[], &[])] {
        let (seed, edits, players) = decode(&bytes).expect("decode");
        assert_eq!(encode(seed, &edits, &players), bytes);
        let names: usize = players.iter().map(|p| PLAYER_FIXED_BYTES + p.1.name.len()).sum();
        assert_eq!(bytes.len(), HEADER_BYTES + ENTRY_BYTES * edits.len() + 8 + names);
    }
}
