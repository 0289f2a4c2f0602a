//! The format of a world on disk.
//!
//! A save holds the seed, the overridden blocks and the identities of the players
//! who left: magic, version, seed, number of entries, the entries of thirteen
//! bytes each, and from version 2 on the number of players and their records. All
//! numbers are little-endian. Files of version 1 end after the entries.
use vstd::prelude::*;
use vstd::utf8;

use crate::agent::Vec3Bits;
use crate::block::{Block, BLOCK_COUNT};
use crate::coords::{BlockPos, WORLD_HEIGHT};
use crate::wire;
use crate::wire::{copy_bytes, read4, read8, text_from_bytes, to_signed, Enc};
use crate::world::Edit;

verus! {

broadcast use crate::wire::group_number_lengths;

/// The first bytes of a save.
pub const SAVE_MAGIC: [u8; 4] = [81, 87, 67, 83];

/// The version that is written.
pub const SAVE_VERSION: u32 = 2;

/// The name of the file in the data directory.
pub const SAVE_FILE_NAME: &'static str = "world.save";

/// Bytes of an entry.
pub const ENTRY_BYTES: usize = 13;

/// Bytes before the entries.
pub const HEADER_BYTES: usize = 24;

/// Bytes of a player record without those of the name.
pub const PLAYER_FIXED_BYTES: usize = 49;

/// No name that is read has more bytes.
pub const MAX_NAME_BYTES: u16 = 64;

/// No save that is read has more players.
pub const MAX_PLAYERS: u64 = 65536;

/// What is remembered of a player who left. Numbers that are not whole are held
/// by their bits.
#[derive(Clone, Debug, PartialEq, Eq)]
pub struct PlayerRecord {
    /// Position of the feet.
    pub pos: Vec3Bits,
    pub yaw: u32,
    pub pitch: u32,
    pub name: String,
    pub color: [u8; 3],
    /// When the player left, in seconds since the epoch.
    pub last_seen: u64,
}

/// What a [`PlayerRecord`] says.
#[verifier::ext_equal]
pub struct RecordView {
    pub pos: Vec3Bits,
    pub yaw: u32,
    pub pitch: u32,
    pub name: Seq<char>,
    pub color: Seq<u8>,
    pub last_seen: u64,
}

impl View for PlayerRecord {
    type V = RecordView;

    open spec fn view(&self) -> RecordView {
        RecordView {
            pos: self.pos,
            yaw: self.yaw,
            pitch: self.pitch,
            name: self.name@,
            color: self.color@,
            last_seen: self.last_seen,
        }
    }
}

/// Why bytes are not a save.
#[derive(Clone, Copy, PartialEq, Eq, Structural, Debug)]
pub enum SaveError {
    /// Fewer bytes than a header.
    TruncatedHeader,
    BadMagic,
    UnsupportedVersion { version: u32 },
    /// Fewer bytes than the declared entries.
    TruncatedBody { declared: u64 },
    /// An entry out of the world's height.
    OutsideWorld { x: i32, y: i32, z: i32 },
    UnknownBlock { x: i32, y: i32, z: i32, id: u8 },
    /// Bytes after the entries of a file of version 1.
    TrailingAfterEntries,
    MissingPlayerCount,
    ImplausiblePlayerCount { count: u64 },
    TruncatedRecord { index: u64 },
    NonFiniteState { index: u64 },
    LongName { index: u64, len: u16 },
    TruncatedName { index: u64 },
    BadName { index: u64 },
    TruncatedColour { index: u64 },
    TruncatedLastSeen { index: u64 },
    /// Bytes after the last player.
    TrailingAfterPlayers,
}

/// A token and what is remembered under it.
pub type Player = ([u8; 16], PlayerRecord);

/// What a save holds.
#[verifier::ext_equal]
pub struct SaveView {
    pub seed: u64,
    pub edits: Seq<Edit>,
    pub players: Seq<(Seq<u8>, RecordView)>,
}

/// What each of a list of players says.
pub open spec fn player_views(v: Seq<Player>) -> Seq<(Seq<u8>, RecordView)> {
    Seq::new(v.len(), |k: int| (v[k].0@, v[k].1@))
}

// ---- What is written -------------------------------------------------------

pub open spec fn entry_bytes(e: Edit) -> Seq<u8> {
    wire::triple_bytes(e.pos.x, e.pos.y, e.pos.z) + seq![e.block.id()]
}

/// Entries one after the other.
pub open spec fn entries_bytes(v: Seq<Edit>) -> Seq<u8>
    decreases v.len(),
{
    if v.len() == 0 {
        Seq::empty()
    } else {
        entries_bytes(v.drop_last()) + entry_bytes(v.last())
    }
}

/// The part of a record before the name.
pub open spec fn record_head(token: Seq<u8>, r: RecordView) -> Seq<u8> {
    token + wire::le4(r.pos.x) + wire::le4(r.pos.y) + wire::le4(r.pos.z) + wire::le4(r.yaw)
        + wire::le4(r.pitch)
}

#[verifier::opaque]
pub open spec fn record_bytes(token: Seq<u8>, r: RecordView) -> Seq<u8> {
    record_head(token, r) + wire::text_bytes(r.name) + r.color + wire::le8(r.last_seen)
}

/// Records one after the other.
pub open spec fn records_bytes(v: Seq<(Seq<u8>, RecordView)>) -> Seq<u8>
    decreases v.len(),
{
    if v.len() == 0 {
        Seq::empty()
    } else {
        records_bytes(v.drop_last()) + record_bytes(v.last().0, v.last().1)
    }
}

/// The number of bytes of the records one after the other.
pub open spec fn records_length(v: Seq<(Seq<u8>, RecordView)>) -> int
    decreases v.len(),
{
    if v.len() == 0 {
        0
    } else {
        records_length(v.drop_last()) + PLAYER_FIXED_BYTES + utf8::encode_utf8(
            v.last().1.name,
        ).len()
    }
}

/// The first bytes of a save.
pub open spec fn magic() -> Seq<u8> {
    seq![81u8, 87, 67, 83]
}

/// The header of a save.
pub open spec fn header_bytes(seed: u64, entries: u64) -> Seq<u8> {
    magic() + wire::le4(SAVE_VERSION) + wire::le8(seed) + wire::le8(entries)
}

impl SaveView {
    /// The bytes of a save.
    pub open spec fn bytes(self) -> Seq<u8> {
        header_bytes(self.seed, self.edits.len() as u64) + entries_bytes(self.edits) + wire::le8(
            self.players.len() as u64,
        ) + records_bytes(self.players)
    }

    /// Whether a reader accepts the save: edits inside the world, short names,
    /// finite numbers, not too many players.
    pub open spec fn acceptable(self) -> bool {
        &&& forall|i: int|
            0 <= i < self.edits.len() ==> (#[trigger] self.edits[i]).pos.spec_in_world_y()
        &&& self.players.len() <= MAX_PLAYERS
        &&& forall|i: int|
            0 <= i < self.players.len() ==> sound(
                (#[trigger] self.players[i]).0,
                self.players[i].1,
            )
    }
}

/// Whether the bits are those of a finite number.
pub open spec fn finite(bits: u32) -> bool {
    bits / 8388608 % 256 != 255
}

/// Whether all numbers of a record are finite.
pub open spec fn settled(pos: Vec3Bits, yaw: u32, pitch: u32) -> bool {
    finite(pos.x) && finite(pos.y) && finite(pos.z) && finite(yaw) && finite(pitch)
}

/// Whether a reader accepts a player.
pub open spec fn sound(token: Seq<u8>, r: RecordView) -> bool {
    &&& token.len() == 16
    &&& settled(r.pos, r.yaw, r.pitch)
    &&& utf8::encode_utf8(r.name).len() <= MAX_NAME_BYTES
    &&& r.color.len() == 3
}

// ---- What is read ----------------------------------------------------------

/// The entry in the thirteen bytes from `i` on.
pub open spec fn entry_at(s: Seq<u8>, i: int) -> Result<Edit, SaveError> {
    let x = wire::ival4(s, i);
    let y = wire::ival4(s, i + 4);
    let z = wire::ival4(s, i + 8);
    if y < 0 || y >= WORLD_HEIGHT {
        Err(SaveError::OutsideWorld { x, y, z })
    } else if s[i + 12] >= BLOCK_COUNT {
        Err(SaveError::UnknownBlock { x, y, z, id: s[i + 12] })
    } else {
        Ok(Edit { pos: BlockPos { x, y, z }, block: Block::spec_from_u8(s[i + 12]) })
    }
}

/// The first `n` entries, or what is wrong with the first bad one.
pub open spec fn entries_of(s: Seq<u8>, n: nat) -> Result<Seq<Edit>, SaveError>
    decreases n,
{
    if n == 0 {
        Ok(Seq::empty())
    } else {
        match entries_of(s, (n - 1) as nat) {
            Err(e) => Err(e),
            Ok(v) => match entry_at(s, 24 + 13 * (n - 1)) {
                Err(e) => Err(e),
                Ok(e) => Ok(v.push(e)),
            },
        }
    }
}

/// The record in the bytes from `i` on, and where they end, or what is wrong.
#[verifier::opaque]
pub open spec fn record_at(s: Seq<u8>, i: int, index: int) -> Result<
    ((Seq<u8>, RecordView), int),
    SaveError,
> {
    let index = index as u64;
    let left = s.len() - i;
    let pos = Vec3Bits {
        x: wire::val4(s, i + 16),
        y: wire::val4(s, i + 20),
        z: wire::val4(s, i + 24),
    };
    let yaw = wire::val4(s, i + 28);
    let pitch = wire::val4(s, i + 32);
    let n = wire::val2(s, i + 36);
    if left < PLAYER_FIXED_BYTES {
        Err(SaveError::TruncatedRecord { index })
    } else if !settled(pos, yaw, pitch) {
        Err(SaveError::NonFiniteState { index })
    } else if n > MAX_NAME_BYTES {
        Err(SaveError::LongName { index, len: n })
    } else if left < 38 + n {
        Err(SaveError::TruncatedName { index })
    } else if !utf8::valid_utf8(s.subrange(i + 38, i + 38 + n)) {
        Err(SaveError::BadName { index })
    } else if left < 41 + n {
        Err(SaveError::TruncatedColour { index })
    } else if left < 49 + n {
        Err(SaveError::TruncatedLastSeen { index })
    } else {
        Ok(
            (
                (
                    s.subrange(i, i + 16),
                    RecordView {
                        pos,
                        yaw,
                        pitch,
                        name: utf8::decode_utf8(s.subrange(i + 38, i + 38 + n)),
                        color: s.subrange(i + 38 + n, i + 41 + n),
                        last_seen: wire::val8(s, i + 41 + n),
                    },
                ),
                i + 49 + n,
            ),
        )
    }
}

/// The first `n` records from `i` on, and where they end, or what is wrong with
/// the first bad one.
pub open spec fn records_of(s: Seq<u8>, i: int, n: nat) -> Result<
    (Seq<(Seq<u8>, RecordView)>, int),
    SaveError,
>
    decreases n,
{
    if n == 0 {
        Ok((Seq::empty(), i))
    } else {
        match records_of(s, i, (n - 1) as nat) {
            Err(e) => Err(e),
            Ok((v, at)) => match record_at(s, at, n - 1) {
                Err(e) => Err(e),
                Ok((r, end)) => Ok((v.push(r), end)),
            },
        }
    }
}

/// The players after the entries, which end at `at`.
pub open spec fn players_of(s: Seq<u8>, at: int) -> Result<Seq<(Seq<u8>, RecordView)>, SaveError> {
    if s.len() < at + 8 {
        Err(SaveError::MissingPlayerCount)
    } else if wire::val8(s, at) > MAX_PLAYERS {
        Err(SaveError::ImplausiblePlayerCount { count: wire::val8(s, at) })
    } else {
        match records_of(s, at + 8, wire::val8(s, at) as nat) {
            Err(e) => Err(e),
            Ok((v, end)) => if end != s.len() {
                Err(SaveError::TrailingAfterPlayers)
            } else {
                Ok(v)
            },
        }
    }
}

/// The save that bytes stand for, or the first thing that is wrong with them.
pub open spec fn save_of(s: Seq<u8>) -> Result<SaveView, SaveError> {
    let version = wire::val4(s, 4);
    let seed = wire::val8(s, 8);
    let count = wire::val8(s, 16);
    if s.len() < HEADER_BYTES {
        Err(SaveError::TruncatedHeader)
    } else if s.subrange(0, 4) != magic() {
        Err(SaveError::BadMagic)
    } else if version < 1 || version > SAVE_VERSION {
        Err(SaveError::UnsupportedVersion { version })
    } else if s.len() - 24 < 13 * count {
        Err(SaveError::TruncatedBody { declared: count })
    } else {
        match entries_of(s, count as nat) {
            Err(e) => Err(e),
            Ok(edits) => if version == 1 {
                if s.len() != 24 + 13 * count {
                    Err(SaveError::TrailingAfterEntries)
                } else {
                    Ok(SaveView { seed, edits, players: Seq::empty() })
                }
            } else {
                match players_of(s, 24 + 13 * count) {
                    Err(e) => Err(e),
                    Ok(players) => Ok(SaveView { seed, edits, players }),
                }
            },
        }
    }
}

// ---- Writing and reading -----------------------------------------------------

fn encode_player(out: &mut Enc, p: &Player)
    ensures
        final(out)@ == old(out)@ + record_bytes(p.0@, p.1@),
{
    proof {
        reveal(record_bytes);
    }
    let r = &p.1;
    out.bytes(p.0.as_slice());
    out.float_bits(r.pos.x);
    out.float_bits(r.pos.y);
    out.float_bits(r.pos.z);
    out.float_bits(r.yaw);
    out.float_bits(r.pitch);
    assert(out@ =~= old(out)@ + record_head(p.0@, p.1@));
    out.text(&r.name);
    out.bytes(r.color.as_slice());
    out.u64(r.last_seen);
    assert(out@ =~= old(out)@ + record_bytes(p.0@, p.1@));
}

/// The bytes of a save.
pub fn encode(seed: u64, edits: &[Edit], players: &[Player]) -> (out: Vec<u8>)
    ensures
        out@ == (SaveView { seed, edits: edits@, players: player_views(players@) }).bytes(),
{
    let mut out = Enc::new();
    out.bytes(SAVE_MAGIC.as_slice());
    out.u32(SAVE_VERSION);
    out.u64(seed);
    out.u64(edits.len() as u64);
    let ghost head = out@;
    assert(SAVE_MAGIC@ =~= magic());
    assert(head =~= header_bytes(seed, edits@.len() as u64));
    let mut k: usize = 0;
    while k < edits.len()
        invariant
            k <= edits@.len(),
            out@ == head + entries_bytes(edits@.take(k as int)),
        decreases edits@.len() - k,
    {
        let e = edits[k];
        out.triple(e.pos.x, e.pos.y, e.pos.z);
        out.u8(e.block.as_u8());
        proof {
            let next = edits@.take(k as int + 1);
            assert(next.drop_last() =~= edits@.take(k as int));
            assert(next.last() == e);
            assert(out@ =~= head + entries_bytes(next));
        }
        k = k + 1;
    }
    assert(edits@.take(k as int) =~= edits@);
    out.u64(players.len() as u64);
    let ghost body = out@;
    let ghost views = player_views(players@);
    let mut j: usize = 0;
    while j < players.len()
        invariant
            j <= players@.len(),
            views == player_views(players@),
            out@ == body + records_bytes(views.take(j as int)),
        decreases players@.len() - j,
    {
        encode_player(&mut out, &players[j]);
        proof {
            let next = views.take(j as int + 1);
            assert(next.drop_last() =~= views.take(j as int));
            assert(next.last() == views[j as int]);
            assert(out@ =~= body + records_bytes(next));
        }
        j = j + 1;
    }
    proof {
        assert(views.take(j as int) =~= views);
        let whole = SaveView { seed, edits: edits@, players: views };
        assert(out@ =~= whole.bytes());
    }
    out.into_bytes()
}

fn is_finite(bits: u32) -> (r: bool)
    ensures
        r == finite(bits),
{
    bits / 8388608 % 256 != 255
}

proof fn entries_keep_errors(s: Seq<u8>, k: nat, n: nat)
    requires
        k <= n,
        entries_of(s, k) is Err,
    ensures
        entries_of(s, n) == entries_of(s, k),
    decreases n - k,
{
    if k < n {
        entries_keep_errors(s, k, (n - 1) as nat);
    }
}

proof fn records_keep_errors(s: Seq<u8>, i: int, k: nat, n: nat)
    requires
        k <= n,
        records_of(s, i, k) is Err,
    ensures
        records_of(s, i, n) == records_of(s, i, k),
    decreases n - k,
{
    if k < n {
        records_keep_errors(s, i, k, (n - 1) as nat);
    }
}

fn decode_entry(bytes: &[u8], at: usize) -> (r: Result<Edit, SaveError>)
    requires
        at + 13 <= bytes@.len(),
    ensures
        r == entry_at(bytes@, at as int),
{
    let size: usize = bytes.len();
    assert(at + 13 <= size);
    let x: i32 = to_signed(read4(bytes, at));
    let y: i32 = to_signed(read4(bytes, at + 4));
    let z: i32 = to_signed(read4(bytes, at + 8));
    let id: u8 = bytes[at + 12];
    if y < 0 || y >= WORLD_HEIGHT {
        return Err(SaveError::OutsideWorld { x, y, z });
    }
    if id >= BLOCK_COUNT {
        return Err(SaveError::UnknownBlock { x, y, z, id });
    }
    Ok(Edit { pos: BlockPos { x, y, z }, block: Block::from_u8(id) })
}

/// Reads the first `count` entries.
fn decode_entries(bytes: &[u8], count: usize) -> (r: Result<Vec<Edit>, SaveError>)
    requires
        24 + 13 * count <= bytes@.len(),
    ensures
        match r {
            Ok(v) => entries_of(bytes@, count as nat) == Ok::<Seq<Edit>, SaveError>(v@),
            Err(e) => entries_of(bytes@, count as nat) == Err::<Seq<Edit>, SaveError>(e),
        },
{
    let size: usize = bytes.len();
    let mut v: Vec<Edit> = Vec::new();
    let mut k: usize = 0;
    while k < count
        invariant
            k <= count,
            24 + 13 * count <= size,
            size == bytes@.len(),
            entries_of(bytes@, k as nat) == Ok::<Seq<Edit>, SaveError>(v@),
        decreases count - k,
    {
        match decode_entry(bytes, 24 + 13 * k) {
            Ok(e) => {
                v.push(e);
                k = k + 1;
            },
            Err(e) => {
                proof {
                    entries_keep_errors(bytes@, (k + 1) as nat, count as nat);
                }
                return Err(e);
            },
        }
    }
    Ok(v)
}

fn decode_record(bytes: &[u8], at: usize, index: u64) -> (r: Result<(Player, usize), SaveError>)
    requires
        at <= bytes@.len(),
    ensures
        match r {
            Ok((p, end)) => record_at(bytes@, at as int, index as int) == Ok::<
                ((Seq<u8>, RecordView), int),
                SaveError,
            >(((p.0@, p.1@), end as int)) && end <= bytes@.len(),
            Err(e) => record_at(bytes@, at as int, index as int) == Err::<
                ((Seq<u8>, RecordView), int),
                SaveError,
            >(e),
        },
{
    proof {
        reveal(record_at);
    }
    let size: usize = bytes.len();
    let left: usize = size - at;
    if left < PLAYER_FIXED_BYTES {
        return Err(SaveError::TruncatedRecord { index });
    }
    let pos = Vec3Bits {
        x: read4(bytes, at + 16),
        y: read4(bytes, at + 20),
        z: read4(bytes, at + 24),
    };
    let yaw: u32 = read4(bytes, at + 28);
    let pitch: u32 = read4(bytes, at + 32);
    if !is_finite(pos.x) || !is_finite(pos.y) || !is_finite(pos.z) || !is_finite(yaw)
        || !is_finite(pitch) {
        return Err(SaveError::NonFiniteState { index });
    }
    let n: u16 = wire::read2(bytes, at + 36);
    if n > MAX_NAME_BYTES {
        return Err(SaveError::LongName { index, len: n });
    }
    let len: usize = n as usize;
    if left < 38 + len {
        return Err(SaveError::TruncatedName { index });
    }
    let name = match text_from_bytes(copy_bytes(bytes, at + 38, len)) {
        Some(name) => name,
        None => return Err(SaveError::BadName { index }),
    };
    if left < 41 + len {
        return Err(SaveError::TruncatedColour { index });
    }
    if left < 49 + len {
        return Err(SaveError::TruncatedLastSeen { index });
    }
    let token = read_token(bytes, at);
    let color: [u8; 3] = [bytes[at + 38 + len], bytes[at + 39 + len], bytes[at + 40 + len]];
    let last_seen: u64 = read8(bytes, at + 41 + len);
    assert(color@ =~= bytes@.subrange(at + 38 + len, at + 41 + len));
    let r = PlayerRecord { pos, yaw, pitch, name, color, last_seen };
    Ok(((token, r), at + 49 + len))
}

/// The sixteen bytes from `at` on.
fn read_token(bytes: &[u8], at: usize) -> (t: [u8; 16])
    requires
        at + 16 <= bytes@.len(),
    ensures
        t@ == bytes@.subrange(at as int, at + 16),
{
    let size: usize = bytes.len();
    assert(at + 16 <= size);
    let mut t: [u8; 16] = [0; 16];
    let mut k: usize = 0;
    while k < 16
        invariant
            k <= 16,
            at + 16 <= size,
            size == bytes@.len(),
            t@.len() == 16,
            t@.take(k as int) =~= bytes@.subrange(at as int, at + k),
        decreases 16 - k,
    {
        let ghost before = t@;
        t[k] = bytes[at + k];
        proof {
            assert(t@.take(k as int + 1) =~= before.take(k as int).push(t@[k as int]));
        }
        k = k + 1;
    }
    assert(t@.take(16) =~= t@);
    t
}

/// Reads the players after the entries, which end at `at`.
fn decode_players(bytes: &[u8], at: usize) -> (r: Result<Vec<Player>, SaveError>)
    requires
        at <= bytes@.len(),
    ensures
        match r {
            Ok(v) => players_of(bytes@, at as int) == Ok::<
                Seq<(Seq<u8>, RecordView)>,
                SaveError,
            >(player_views(v@)),
            Err(e) => players_of(bytes@, at as int) == Err::<
                Seq<(Seq<u8>, RecordView)>,
                SaveError,
            >(e),
        },
{
    let size: usize = bytes.len();
    if size - at < 8 {
        return Err(SaveError::MissingPlayerCount);
    }
    let count: u64 = read8(bytes, at);
    if count > MAX_PLAYERS {
        return Err(SaveError::ImplausiblePlayerCount { count });
    }
    let mut v: Vec<Player> = Vec::new();
    let mut off: usize = at + 8;
    let mut k: u64 = 0;
    assert(player_views(v@) =~= Seq::<(Seq<u8>, RecordView)>::empty());
    while k < count
        invariant
            k <= count,
            count <= MAX_PLAYERS,
            size == bytes@.len(),
            at + 8 <= size,
            count == wire::val8(bytes@, at as int),
            off <= size,
            records_of(bytes@, at + 8, k as nat) == Ok::<
                (Seq<(Seq<u8>, RecordView)>, int),
                SaveError,
            >((player_views(v@), off as int)),
        decreases count - k,
    {
        let ghost seen = player_views(v@);
        match decode_record(bytes, off, k) {
            Ok((p, end)) => {
                let ghost view = (p.0@, p.1@);
                v.push(p);
                off = end;
                k = k + 1;
                assert(player_views(v@) =~= seen.push(view));
            },
            Err(e) => {
                proof {
                    records_keep_errors(bytes@, at + 8, (k + 1) as nat, count as nat);
                }
                return Err(e);
            },
        }
    }
    if off != size {
        return Err(SaveError::TrailingAfterPlayers);
    }
    Ok(v)
}

/// The save that bytes stand for: seed, overridden blocks, players. Whatever is
/// malformed is an error, never a world with something missing.
pub fn decode(bytes: &[u8]) -> (r: Result<(u64, Vec<Edit>, Vec<Player>), SaveError>)
    ensures
        match r {
            Ok((seed, edits, players)) => save_of(bytes@) == Ok::<SaveView, SaveError>(
                SaveView { seed, edits: edits@, players: player_views(players@) },
            ),
            Err(e) => save_of(bytes@) == Err::<SaveView, SaveError>(e),
        },
{
    if bytes.len() < HEADER_BYTES {
        return Err(SaveError::TruncatedHeader);
    }
    if bytes[0] != 81 || bytes[1] != 87 || bytes[2] != 67 || bytes[3] != 83 {
        proof {
            let t = bytes@.subrange(0, 4);
            assert(t[0] == bytes@[0] && t[1] == bytes@[1] && t[2] == bytes@[2] && t[3]
                == bytes@[3]);
            let m = magic();
            assert(m[0] == 81 && m[1] == 87 && m[2] == 67 && m[3] == 83);
        }
        return Err(SaveError::BadMagic);
    }
    assert(bytes@.subrange(0, 4) =~= magic());
    let version: u32 = read4(bytes, 4);
    if version < 1 || version > SAVE_VERSION {
        return Err(SaveError::UnsupportedVersion { version });
    }
    let seed: u64 = read8(bytes, 8);
    let count: u64 = read8(bytes, 16);
    let room: usize = (bytes.len() - HEADER_BYTES) / ENTRY_BYTES;
    if (room as u64) < count {
        return Err(SaveError::TruncatedBody { declared: count });
    }
    let n: usize = count as usize;
    let edits = match decode_entries(bytes, n) {
        Ok(v) => v,
        Err(e) => return Err(e),
    };
    let at: usize = HEADER_BYTES + n * ENTRY_BYTES;
    if version == 1 {
        if at != bytes.len() {
            return Err(SaveError::TrailingAfterEntries);
        }
        let players: Vec<Player> = Vec::new();
        assert(player_views(players@) =~= Seq::<(Seq<u8>, RecordView)>::empty());
        return Ok((seed, edits, players));
    }
    match decode_players(bytes, at) {
        Ok(players) => Ok((seed, edits, players)),
        Err(e) => Err(e),
    }
}

// ---- Laws ----------------------------------------------------------------------

pub(crate) proof fn entries_length(v: Seq<Edit>)
    ensures
        entries_bytes(v).len() == 13 * v.len(),
    decreases v.len(),
{
    if v.len() > 0 {
        entries_length(v.drop_last());
    }
}

proof fn entry_reads_back(s: Seq<u8>, i: int, e: Edit)
    requires
        0 <= i,
        i + 13 <= s.len(),
        e.pos.spec_in_world_y(),
        s.subrange(i, i + 13) == entry_bytes(e),
    ensures
        entry_at(s, i) == Ok::<Edit, SaveError>(e),
{
    let t = s.subrange(i, i + 13);
    assert(s.subrange(i, i + 12) =~= t.subrange(0, 12));
    assert(t.subrange(0, 12) =~= wire::triple_bytes(e.pos.x, e.pos.y, e.pos.z));
    wire::triple_reads_back(s, i, e.pos.x, e.pos.y, e.pos.z);
    assert(t[12] == s[i + 12]);
    crate::block::ids_and_blocks_correspond();
    assert(Block::spec_from_u8(e.block.id()) == e.block);
}

proof fn entries_read_back(s: Seq<u8>, v: Seq<Edit>)
    requires
        forall|k: int| 0 <= k < v.len() ==> (#[trigger] v[k]).pos.spec_in_world_y(),
        24 + 13 * v.len() <= s.len(),
        s.subrange(24, 24 + 13 * v.len() as int) == entries_bytes(v),
    ensures
        entries_of(s, v.len()) == Ok::<Seq<Edit>, SaveError>(v),
    decreases v.len(),
{
    if v.len() == 0 {
        assert(v =~= Seq::<Edit>::empty());
    } else {
        let init = v.drop_last();
        let n = init.len() as int;
        entries_length(init);
        let t = s.subrange(24, 24 + 13 * v.len() as int);
        assert forall|k: int| 0 <= k < init.len() implies (
        #[trigger] init[k]).pos.spec_in_world_y() by {
            assert(init[k] == v[k]);
        }
        assert(s.subrange(24, 24 + 13 * n) =~= t.subrange(0, 13 * n));
        assert(t.subrange(0, 13 * n) =~= entries_bytes(init));
        entries_read_back(s, init);
        assert(s.subrange(24 + 13 * n, 24 + 13 * n + 13) =~= t.subrange(13 * n, 13 * n + 13));
        assert(t.subrange(13 * n, 13 * n + 13) =~= entry_bytes(v.last()));
        assert(v.last() == v[n]);
        entry_reads_back(s, 24 + 13 * n, v.last());
        assert(init.push(v.last()) =~= v);
    }
}

proof fn record_length(token: Seq<u8>, r: RecordView)
    requires
        sound(token, r),
    ensures
        record_head(token, r).len() == 36,
        record_bytes(token, r).len() == 49 + utf8::encode_utf8(r.name).len(),
{
    reveal(record_bytes);
}

proof fn record_head_reads_back(s: Seq<u8>, i: int, token: Seq<u8>, r: RecordView)
    requires
        sound(token, r),
        0 <= i,
        i + 36 <= s.len(),
        s.subrange(i, i + 36) == record_head(token, r),
    ensures
        s.subrange(i, i + 16) == token,
        wire::val4(s, i + 16) == r.pos.x,
        wire::val4(s, i + 20) == r.pos.y,
        wire::val4(s, i + 24) == r.pos.z,
        wire::val4(s, i + 28) == r.yaw,
        wire::val4(s, i + 32) == r.pitch,
{
    let t = s.subrange(i, i + 36);
    assert(s.subrange(i, i + 16) =~= t.subrange(0, 16));
    assert(t.subrange(0, 16) =~= token);
    assert(s.subrange(i + 16, i + 20) =~= t.subrange(16, 20));
    assert(t.subrange(16, 20) =~= wire::le4(r.pos.x));
    wire::number4_reads_back(s, i + 16, r.pos.x);
    assert(s.subrange(i + 20, i + 24) =~= t.subrange(20, 24));
    assert(t.subrange(20, 24) =~= wire::le4(r.pos.y));
    wire::number4_reads_back(s, i + 20, r.pos.y);
    assert(s.subrange(i + 24, i + 28) =~= t.subrange(24, 28));
    assert(t.subrange(24, 28) =~= wire::le4(r.pos.z));
    wire::number4_reads_back(s, i + 24, r.pos.z);
    assert(s.subrange(i + 28, i + 32) =~= t.subrange(28, 32));
    assert(t.subrange(28, 32) =~= wire::le4(r.yaw));
    wire::number4_reads_back(s, i + 28, r.yaw);
    assert(s.subrange(i + 32, i + 36) =~= t.subrange(32, 36));
    assert(t.subrange(32, 36) =~= wire::le4(r.pitch));
    wire::number4_reads_back(s, i + 32, r.pitch);
}

proof fn record_reads_back(s: Seq<u8>, i: int, index: int, token: Seq<u8>, r: RecordView)
    requires
        sound(token, r),
        0 <= i,
        i + record_bytes(token, r).len() <= s.len(),
        s.subrange(i, i + record_bytes(token, r).len() as int) == record_bytes(token, r),
    ensures
        record_at(s, i, index) == Ok::<((Seq<u8>, RecordView), int), SaveError>(
            ((token, r), i + record_bytes(token, r).len() as int),
        ),
{
    reveal(record_bytes);
    reveal(record_at);
    record_length(token, r);
    let all = record_bytes(token, r);
    let n = utf8::encode_utf8(r.name).len() as int;
    let t = s.subrange(i, i + all.len() as int);
    assert(s.subrange(i, i + 36) =~= t.subrange(0, 36));
    assert(t.subrange(0, 36) =~= record_head(token, r));
    record_head_reads_back(s, i, token, r);
    assert(s.subrange(i + 36, i + 38 + n) =~= t.subrange(36, 38 + n));
    assert(t.subrange(36, 38 + n) =~= wire::text_bytes(r.name));
    wire::text_reads_back_at(s, i + 36, r.name);
    assert(s.subrange(i + 38 + n, i + 41 + n) =~= t.subrange(38 + n, 41 + n));
    assert(t.subrange(38 + n, 41 + n) =~= r.color);
    assert(s.subrange(i + 41 + n, i + 49 + n) =~= t.subrange(41 + n, 49 + n));
    assert(t.subrange(41 + n, 49 + n) =~= wire::le8(r.last_seen));
    wire::number8_reads_back(s, i + 41 + n, r.last_seen);
    assert(record_at(s, i, index) is Ok);
    let got = record_at(s, i, index)->Ok_0;
    assert((got.0).1 =~= r);
}

proof fn records_read_back(s: Seq<u8>, i: int, v: Seq<(Seq<u8>, RecordView)>)
    requires
        forall|k: int| 0 <= k < v.len() ==> sound((#[trigger] v[k]).0, v[k].1),
        0 <= i,
        i + records_bytes(v).len() <= s.len(),
        s.subrange(i, i + records_bytes(v).len() as int) == records_bytes(v),
    ensures
        records_of(s, i, v.len()) == Ok::<(Seq<(Seq<u8>, RecordView)>, int), SaveError>(
            (v, i + records_bytes(v).len() as int),
        ),
    decreases v.len(),
{
    if v.len() == 0 {
        assert(v =~= Seq::<(Seq<u8>, RecordView)>::empty());
    } else {
        let init = v.drop_last();
        let first = records_bytes(init);
        let last = record_bytes(v.last().0, v.last().1);
        let n = first.len() as int;
        let t = s.subrange(i, i + records_bytes(v).len() as int);
        assert forall|k: int| 0 <= k < init.len() implies sound(
            (#[trigger] init[k]).0,
            init[k].1,
        ) by {
            assert(init[k] == v[k]);
        }
        assert(s.subrange(i, i + n) =~= t.subrange(0, n));
        assert(t.subrange(0, n) =~= first);
        records_read_back(s, i, init);
        assert(s.subrange(i + n, i + n + last.len() as int) =~= t.subrange(
            n,
            n + last.len() as int,
        ));
        assert(t.subrange(n, n + last.len() as int) =~= last);
        assert(v.last() == v[v.len() - 1]);
        record_reads_back(s, i + n, v.len() - 1, v.last().0, v.last().1);
        assert(init.push(v.last()) =~= v);
    }
}

/// What is saved is what is loaded: the seed, every overridden block and every
/// player.
pub proof fn saves_read_back(w: SaveView)
    requires
        w.acceptable(),
        w.edits.len() <= u64::MAX,
    ensures
        save_of(w.bytes()) == Ok::<SaveView, SaveError>(w),
{
    let s = w.bytes();
    let n = w.edits.len() as int;
    entries_length(w.edits);
    let head = header_bytes(w.seed, w.edits.len() as u64);
    assert(head.len() == 24);
    assert(s.subrange(0, 4) =~= magic());
    assert(s.subrange(4, 8) =~= wire::le4(SAVE_VERSION));
    wire::number4_reads_back(s, 4, SAVE_VERSION);
    assert(s.subrange(8, 16) =~= wire::le8(w.seed));
    wire::number8_reads_back(s, 8, w.seed);
    assert(s.subrange(16, 24) =~= wire::le8(n as u64));
    wire::number8_reads_back(s, 16, n as u64);
    assert(s.subrange(24, 24 + 13 * n) =~= entries_bytes(w.edits));
    entries_read_back(s, w.edits);
    let at = 24 + 13 * n;
    let count = w.players.len() as u64;
    assert(s.subrange(at, at + 8) =~= wire::le8(count));
    wire::number8_reads_back(s, at, count);
    let tail = records_bytes(w.players);
    assert(s.subrange(at + 8, at + 8 + tail.len() as int) =~= tail);
    records_read_back(s, at + 8, w.players);
}

proof fn entry_writes_back(s: Seq<u8>, i: int)
    requires
        0 <= i,
        i + 13 <= s.len(),
        entry_at(s, i) is Ok,
    ensures
        entry_bytes(entry_at(s, i)->Ok_0) == s.subrange(i, i + 13),
{
    wire::number4_writes_back(s, i);
    wire::number4_writes_back(s, i + 4);
    wire::number4_writes_back(s, i + 8);
    crate::block::ids_and_blocks_correspond();
    assert(entry_bytes(entry_at(s, i)->Ok_0) =~= s.subrange(i, i + 13));
}

proof fn entries_write_back(s: Seq<u8>, n: nat)
    requires
        24 + 13 * n <= s.len(),
        entries_of(s, n) is Ok,
    ensures
        (entries_of(s, n)->Ok_0).len() == n,
        entries_bytes(entries_of(s, n)->Ok_0) == s.subrange(24, 24 + 13 * n as int),
    decreases n,
{
    if n == 0 {
        assert(s.subrange(24, 24) =~= Seq::<u8>::empty());
    } else {
        let m = (n - 1) as nat;
        entries_write_back(s, m);
        entry_writes_back(s, 24 + 13 * (n - 1));
        let v = entries_of(s, m)->Ok_0;
        let e = entry_at(s, 24 + 13 * (n - 1))->Ok_0;
        assert(v.push(e).drop_last() =~= v);
        assert(s.subrange(24, 24 + 13 * n as int) =~= s.subrange(24, 24 + 13 * m as int)
            + s.subrange(24 + 13 * m as int, 24 + 13 * n as int));
    }
}

proof fn record_writes_back(s: Seq<u8>, i: int, index: int)
    requires
        0 <= i,
        record_at(s, i, index) is Ok,
    ensures
        ({
            let (r, end) = record_at(s, i, index)->Ok_0;
            &&& i <= end <= s.len()
            &&& end - i == PLAYER_FIXED_BYTES + utf8::encode_utf8(r.1.name).len()
            &&& record_bytes(r.0, r.1) == s.subrange(i, end)
        }),
{
    reveal(record_bytes);
    reveal(record_at);
    let n = wire::val2(s, i + 36);
    let (r, end) = record_at(s, i, index)->Ok_0;
    wire::number4_writes_back(s, i + 16);
    wire::number4_writes_back(s, i + 20);
    wire::number4_writes_back(s, i + 24);
    wire::number4_writes_back(s, i + 28);
    wire::number4_writes_back(s, i + 32);
    assert(record_head(r.0, r.1) =~= s.subrange(i, i + 36));
    wire::number2_writes_back(s, i + 36);
    let name = s.subrange(i + 38, i + 38 + n);
    utf8::decode_utf8_encode_utf8(name);
    assert(utf8::encode_utf8(r.1.name) == name);
    assert(name.len() == n);
    assert((name.len() % 65536) as u16 == n);
    assert(wire::text_bytes(r.1.name) =~= s.subrange(i + 36, i + 38 + n));
    wire::number8_writes_back(s, i + 41 + n);
    assert(record_bytes(r.0, r.1) =~= s.subrange(i, end));
}

proof fn records_write_back(s: Seq<u8>, i: int, n: nat)
    requires
        0 <= i <= s.len(),
        records_of(s, i, n) is Ok,
    ensures
        ({
            let (v, end) = records_of(s, i, n)->Ok_0;
            &&& v.len() == n
            &&& i <= end <= s.len()
            &&& end - i == records_length(v)
            &&& records_bytes(v) == s.subrange(i, end)
        }),
    decreases n,
{
    if n == 0 {
        assert(s.subrange(i, i) =~= Seq::<u8>::empty());
    } else {
        let m = (n - 1) as nat;
        records_write_back(s, i, m);
        let (v, at) = records_of(s, i, m)->Ok_0;
        record_writes_back(s, at, n - 1);
        let (r, end) = record_at(s, at, n - 1)->Ok_0;
        assert(v.push(r).drop_last() =~= v);
        assert(s.subrange(i, end) =~= s.subrange(i, at) + s.subrange(at, end));
    }
}

/// An accepted file of the version that is written is the save of what it was read
/// as, byte for byte: nothing in it is passed over, and there is no second way to
/// write the same world down.
pub proof fn saves_write_back(s: Seq<u8>)
    requires
        save_of(s) is Ok,
        wire::val4(s, 4) == SAVE_VERSION,
    ensures
        (save_of(s)->Ok_0).bytes() == s,
        s.len() == HEADER_BYTES + ENTRY_BYTES * (save_of(s)->Ok_0).edits.len() + 8
            + records_length((save_of(s)->Ok_0).players),
{
    let w = save_of(s)->Ok_0;
    let count = wire::val8(s, 16);
    let at = 24 + 13 * count;
    wire::number4_writes_back(s, 4);
    wire::number8_writes_back(s, 8);
    wire::number8_writes_back(s, 16);
    assert(header_bytes(w.seed, count) =~= s.subrange(0, 24));
    entries_write_back(s, count as nat);
    wire::number8_writes_back(s, at);
    records_write_back(s, at + 8, wire::val8(s, at) as nat);
    assert(w.bytes() =~= s);
}

/// A save of another world is told by its seed.
pub proof fn saves_are_bound_to_their_seed(a: SaveView, b: SaveView)
    requires
        a.acceptable(),
        b.acceptable(),
        a.edits.len() <= u64::MAX,
        b.edits.len() <= u64::MAX,
        a.bytes() == b.bytes(),
    ensures
        a.seed == b.seed,
        a == b,
{
    saves_read_back(a);
    saves_read_back(b);
}

/// A file of version 1 never carries players, and one with anything after its
/// entries is refused, so that no player is dropped in silence.
pub proof fn version_one_has_no_players(s: Seq<u8>)
    requires
        s.len() >= HEADER_BYTES,
        wire::val4(s, 4) == 1,
        save_of(s) is Ok,
    ensures
        (save_of(s)->Ok_0).players.len() == 0,
        s.len() == 24 + 13 * wire::val8(s, 16),
{
}

/// Whether the bits of a number are those of one that is not infinite and not undefined:
/// its exponent is not all ones.
pub open spec fn is_a_number(bits: u32) -> bool {
    bits % 2147483648 < 2139095040
}

proof fn exponents_tell(bits: u32)
    ensures
        finite(bits) <==> is_a_number(bits),
{
}

/// Every edit that is read from a file is in the world and of one of the 17 blocks.
pub proof fn loaded_edits_are_sound(s: Seq<u8>, i: int)
    requires
        save_of(s) is Ok,
        0 <= i < (save_of(s)->Ok_0).edits.len(),
    ensures
        0 <= (save_of(s)->Ok_0).edits[i].pos.y < 64,
        (save_of(s)->Ok_0).edits[i].block.id() < 17,
{
    loaded_edits_are_in_order(s, wire::val8(s, 16) as nat, i);
}

/// Every player that is read from a file stands and looks somewhere, is called by at most
/// 64 bytes, and has a token of sixteen and a colour of three. There are at most 65536.
pub proof fn loaded_players_are_sound(s: Seq<u8>, k: int)
    requires
        save_of(s) is Ok,
        0 <= k < (save_of(s)->Ok_0).players.len(),
    ensures
        ({
            let (token, r) = (save_of(s)->Ok_0).players[k];
            &&& (save_of(s)->Ok_0).players.len() <= 65536
            &&& token.len() == 16
            &&& r.color.len() == 3
            &&& utf8::encode_utf8(r.name).len() <= 64
            &&& is_a_number(r.pos.x) && is_a_number(r.pos.y) && is_a_number(r.pos.z)
            &&& is_a_number(r.yaw) && is_a_number(r.pitch)
        }),
{
    let at = 24 + 13 * wire::val8(s, 16);
    loaded_players_are_in_order(s, at + 8, wire::val8(s, at) as nat, k);
}

proof fn loaded_edits_are_in_order(s: Seq<u8>, n: nat, i: int)
    requires
        entries_of(s, n) is Ok,
        0 <= i < (entries_of(s, n)->Ok_0).len(),
    ensures
        0 <= (entries_of(s, n)->Ok_0)[i].pos.y < 64,
        (entries_of(s, n)->Ok_0)[i].block.id() < 17,
    decreases n,
{
    if n > 0 {
        let v = entries_of(s, (n - 1) as nat)->Ok_0;
        if i < v.len() {
            loaded_edits_are_in_order(s, (n - 1) as nat, i);
        }
    }
}

proof fn loaded_players_are_in_order(s: Seq<u8>, at: int, n: nat, k: int)
    requires
        0 <= at <= s.len(),
        records_of(s, at, n) is Ok,
        0 <= k < (records_of(s, at, n)->Ok_0).0.len(),
    ensures
        (records_of(s, at, n)->Ok_0).0.len() == n,
        ({
            let (token, r) = (records_of(s, at, n)->Ok_0).0[k];
            &&& token.len() == 16
            &&& r.color.len() == 3
            &&& utf8::encode_utf8(r.name).len() <= 64
            &&& is_a_number(r.pos.x) && is_a_number(r.pos.y) && is_a_number(r.pos.z)
            &&& is_a_number(r.yaw) && is_a_number(r.pitch)
        }),
    decreases n,
{
    records_write_back(s, at, n);
    if n > 0 {
        let (v, end) = records_of(s, at, (n - 1) as nat)->Ok_0;
        records_write_back(s, at, (n - 1) as nat);
        if k < v.len() {
            loaded_players_are_in_order(s, at, (n - 1) as nat, k);
        } else {
            let (r, e) = record_at(s, end, n - 1)->Ok_0;
            record_writes_back(s, end, n - 1);
            reveal(record_at);
            exponents_tell(r.1.pos.x);
            exponents_tell(r.1.pos.y);
            exponents_tell(r.1.pos.z);
            exponents_tell(r.1.yaw);
            exponents_tell(r.1.pitch);
        }
    }
}

/// A player stands in a save by their token, where they were and where they looked, their
/// name behind its length, their colour, and when they left.
pub proof fn player_fields_stand_in_place(s: Seq<u8>, i: int, index: int)
    ensures
        record_at(s, i, index) matches Ok(((token, r), end)) ==> {
            let n = wire::val2(s, i + 36);
            &&& token == s.subrange(i, i + 16)
            &&& r.pos.x == wire::val4(s, i + 16)
            &&& r.pos.y == wire::val4(s, i + 20)
            &&& r.pos.z == wire::val4(s, i + 24)
            &&& r.yaw == wire::val4(s, i + 28)
            &&& r.pitch == wire::val4(s, i + 32)
            &&& r.name == utf8::decode_utf8(s.subrange(i + 38, i + 38 + n))
            &&& r.color == s.subrange(i + 38 + n, i + 41 + n)
            &&& r.last_seen == wire::val8(s, i + 41 + n)
            &&& end == i + 49 + n
        },
{
    reveal(record_at);
}

/// A file is refused for the first thing that is wrong with it: that it is too short, that
/// it begins otherwise, that its version is neither one nor two, or that it has fewer
/// edits than it says.
pub proof fn files_are_refused_for_their_first_fault(s: Seq<u8>)
    ensures
        s.len() < 24 ==> save_of(s) == Err::<SaveView, SaveError>(SaveError::TruncatedHeader),
        s.len() >= 24 && !(s[0] == 81 && s[1] == 87 && s[2] == 67 && s[3] == 83) ==> save_of(s)
            == Err::<SaveView, SaveError>(SaveError::BadMagic),
        s.len() >= 24 && s[0] == 81 && s[1] == 87 && s[2] == 67 && s[3] == 83 && wire::val4(s, 4)
            != 1 && wire::val4(s, 4) != 2 ==> save_of(s) == Err::<SaveView, SaveError>(
            SaveError::UnsupportedVersion { version: wire::val4(s, 4) },
        ),
        s.len() >= 24 && s[0] == 81 && s[1] == 87 && s[2] == 67 && s[3] == 83 && (wire::val4(s, 4)
            == 1 || wire::val4(s, 4) == 2) && s.len() < 24 + 13 * wire::val8(s, 16) ==> save_of(s)
            == Err::<SaveView, SaveError>(
            SaveError::TruncatedBody { declared: wire::val8(s, 16) },
        ),
{
    let head = s.subrange(0, 4);
    if s.len() >= 24 {
        assert(head[0] == s[0] && head[1] == s[1] && head[2] == s[2] && head[3] == s[3]);
        if s[0] == 81 && s[1] == 87 && s[2] == 67 && s[3] == 83 {
            assert(head =~= magic());
        }
    }
}

/// An edit that is not in the world, or of a block that there is not, is refused with
/// where it is.
pub proof fn edits_are_refused_with_their_place(s: Seq<u8>, i: int)
    ensures
        ({
            let x = wire::ival4(s, i);
            let y = wire::ival4(s, i + 4);
            let z = wire::ival4(s, i + 8);
            &&& !(0 <= y < 64) ==> entry_at(s, i) == Err::<Edit, SaveError>(
                SaveError::OutsideWorld { x, y, z },
            )
            &&& 0 <= y < 64 && s[i + 12] >= 17 ==> entry_at(s, i) == Err::<Edit, SaveError>(
                SaveError::UnknownBlock { x, y, z, id: s[i + 12] },
            )
            &&& 0 <= y < 64 && s[i + 12] < 17 ==> (entry_at(s, i) matches Ok(e) && e.pos == (
            BlockPos { x, y, z }) && e.block.id() == s[i + 12])
        }),
{
}

} // verus!
