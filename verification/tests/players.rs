use qwencraft::agent::Vec3Bits;
use qwencraft::registry::{
    mint_token, same_token, token_from, PlayerRegistry, MAX_PLAYER_RECORDS, NO_TOKEN,
};
use qwencraft::save::PlayerRecord;
use qwencraft::session::{Identity, Roster};

fn bits(x: f32, y: f32, z: f32) -> Vec3Bits {
    Vec3Bits { x: x.to_bits(), y: y.to_bits(), z: z.to_bits() }
}

fn record(last_seen: u64, x: f32) -> PlayerRecord {
    PlayerRecord {
        pos: bits(x, 20.0, 8.5),
        yaw: 0,
        pitch: 0,
        name: format!("p{last_seen}"),
        color: [1, 2, 3],
        last_seen,
    }
}

#[test]
fn minted_tokens_are_unique_and_never_zero() {
    let a = mint_token().unwrap();
    let b = mint_token().unwrap();
    assert_ne!(a, b);
    assert_ne!(a, NO_TOKEN);
    assert_ne!(b, NO_TOKEN);
}

#[test]
fn upsert_inserts_and_updates() {
    let mut r = PlayerRegistry::default();
    r.upsert([1; 16], record(100, 1.0));
    assert_eq!(r.get(&[1; 16]).unwrap().last_seen, 100);
    r.upsert([1; 16], record(200, 2.0));
    assert_eq!(r.len(), 1);
    assert_eq!(r.get(&[1; 16]).unwrap().last_seen, 200);
    assert_eq!(r.get(&[1; 16]).unwrap().pos.x, (2.0f32).to_bits());
}

#[test]
fn upsert_evicts_oldest_at_capacity() {
    let mut r = PlayerRegistry::default();
    for i in 0..MAX_PLAYER_RECORDS {
        r.upsert([i as u8; 16], record(i as u64, 0.0));
    }
    assert_eq!(r.len(), MAX_PLAYER_RECORDS);
    r.upsert([0xFF; 16], record(10_000, 0.0));
    assert_eq!(r.len(), MAX_PLAYER_RECORDS);
    assert!(r.get(&[0; 16]).is_none(), "oldest must be evicted");
    assert!(r.get(&[0xFF; 16]).is_some(), "newest must be kept");
    assert!(r.get(&[1; 16]).is_some());
}

#[test]
fn new_from_save_dedups_and_caps() {
    let recs = vec![
        ([5u8; 16], record(10, 0.0)),
        ([5u8; 16], record(20, 0.0)),
    ];
    let r = PlayerRegistry::new(recs);
    assert_eq!(r.len(), 1);
    assert_eq!(r.get(&[5; 16]).unwrap().last_seen, 20);
    let recs: Vec<_> = (0..MAX_PLAYER_RECORDS + 10)
        .map(|i| ([i as u8; 16], record(i as u64, 0.0)))
        .collect();
    let r = PlayerRegistry::new(recs);
    assert_eq!(r.len(), MAX_PLAYER_RECORDS);
    assert!(r.get(&[0; 16]).is_none(), "10 oldest must be dropped");
    assert!(r.get(&[(MAX_PLAYER_RECORDS + 9) as u8; 16]).is_some());
}

#[test]
fn snapshot_round_trips() {
    let mut r = PlayerRegistry::default();
    r.upsert([1; 16], record(1, 1.5));
    r.upsert([2; 16], record(2, 2.5));
    let snap = r.snapshot();
    assert_eq!(snap.len(), 2);
    let r2 = PlayerRegistry::new(snap);
    assert_eq!(r2.get(&[1; 16]).unwrap().pos.x, (1.5f32).to_bits());
    assert_eq!(r2.get(&[2; 16]).unwrap().pos.x, (2.5f32).to_bits());
}

#[test]
fn no_bytes_make_the_token_of_nobody() {
    let t = token_from(NO_TOKEN);
    assert_ne!(t, NO_TOKEN);
    assert_eq!(t[0], 1);
    assert_eq!(token_from([7; 16]), [7; 16]);
    assert!(same_token(&[7; 16], &[7; 16]));
    assert!(!same_token(&[7; 16], &t));
}

#[test]
fn registries_start_empty() {
    let r = PlayerRegistry::default();
    assert!(r.is_empty());
    assert!(PlayerRegistry::empty().get(&[1; 16]).is_none());
    assert_eq!(record(7, 1.0).copied(), record(7, 1.0));
}

#[test]
fn players_who_are_back_keep_their_token() {
    let mut r = Roster::new(PlayerRegistry::new(vec![([7; 16], record(5, 1.0))]));
    let (token, identity) = r.join_random(3, Some([7; 16])).expect("no new token is needed");
    assert_eq!(token, [7; 16]);
    assert!(matches!(identity, Identity::Restored(p) if p.last_seen == 5));
    let (other, identity) = r.join_random(4, Some([7; 16])).expect("a token");
    assert_ne!(other, [7; 16]);
    assert!(matches!(identity, Identity::Denied));
    assert_eq!(r.live(), &[([7; 16], 3), (other, 4)][..]);
}
