//! The identities of players who left, so that they can come back.
//!
//! Each identity has a token, which its player keeps and shows on the next visit.
//! The registry remembers under it what the player was like when they left. It
//! forgets the one that left longest ago when it is full.
use vstd::prelude::*;

use crate::save;
use crate::save::{Player, PlayerRecord, RecordView};

verus! {

/// The registry remembers no more players than this.
pub const MAX_PLAYER_RECORDS: usize = 64;

/// What a client shows that has no token. No player is ever given it.
pub const NO_TOKEN: [u8; 16] = [0, 0, 0, 0, 0, 0, 0, 0, 0, 0, 0, 0, 0, 0, 0, 0];

/// The operating system had no random bytes to give, or none that make a new token.
#[derive(Clone, Copy, PartialEq, Eq, Structural, Debug)]
pub struct NoEntropy;

#[verifier::external_type_specification]
#[verifier::external_body]
pub struct ExGetrandomError(getrandom::Error);

/// Calls `getrandom::fill` on sixteen bytes and hands them out. Nothing is claimed
/// of the bytes, nor of whether there are any.
#[verifier::external_body]
fn random_bytes() -> (r: Result<[u8; 16], getrandom::Error>) {
    let mut t = [0u8; 16];
    getrandom::fill(&mut t)?;
    Ok(t)
}

/// Whether a token is the one that stands for none.
pub open spec fn is_none_token(t: Seq<u8>) -> bool {
    t =~= Seq::new(16, |i: int| 0u8)
}

/// Sixteen bytes as a token: the one value that stands for none is changed.
pub open spec fn token_of(t: Seq<u8>) -> Seq<u8> {
    if is_none_token(t) {
        t.update(0, 1)
    } else {
        t
    }
}

/// Whether two tokens are the same.
pub fn same_token(a: &[u8; 16], b: &[u8; 16]) -> (r: bool)
    ensures
        r == (a@ == b@),
{
    let mut i: usize = 0;
    while i < 16
        invariant
            i <= 16,
            a@.len() == 16,
            b@.len() == 16,
            forall|k: int| 0 <= k < i ==> a@[k] == b@[k],
        decreases 16 - i,
    {
        if a[i] != b[i] {
            assert(a@[i as int] != b@[i as int]);
            return false;
        }
        i = i + 1;
    }
    assert(a@ =~= b@);
    true
}

/// Sixteen bytes as a token.
pub fn token_from(bytes: [u8; 16]) -> (t: [u8; 16])
    ensures
        t@ == token_of(bytes@),
        !is_none_token(t@),
{
    let mut t = bytes;
    assert(NO_TOKEN@ =~= Seq::new(16, |i: int| 0u8));
    if same_token(&t, &NO_TOKEN) {
        t[0] = 1;
        assert(t@[0] == 1);
        assert(t@ =~= bytes@.update(0, 1));
    }
    t
}

/// A new token of random bytes, never the one that stands for none.
pub fn mint_token() -> (r: Result<[u8; 16], NoEntropy>)
    ensures
        r matches Ok(t) ==> !is_none_token(t@),
{
    match random_bytes() {
        Ok(bytes) => Ok(token_from(bytes)),
        Err(_) => Err(NoEntropy),
    }
}

// ---- What the registry holds -----------------------------------------------------

/// A list of players as a map; the last of those with one token counts.
pub open spec fn collected(s: Seq<(Seq<u8>, RecordView)>) -> Map<Seq<u8>, RecordView>
    decreases s.len(),
{
    if s.len() == 0 {
        Map::empty()
    } else {
        collected(s.drop_last()).insert(s.last().0, s.last().1)
    }
}

/// Whether no two players of a list have one token.
pub open spec fn distinct(s: Seq<(Seq<u8>, RecordView)>) -> bool {
    forall|i: int, j: int|
        0 <= i < s.len() && 0 <= j < s.len() && i != j ==> (#[trigger] s[i]).0 != (
        #[trigger] s[j]).0
}

/// Whether a list has those first that left first.
pub open spec fn by_age(s: Seq<(Seq<u8>, RecordView)>) -> bool {
    forall|i: int, j: int|
        0 <= i <= j < s.len() ==> (#[trigger] s[i]).1.last_seen <= (#[trigger] s[j]).1.last_seen
}

/// Whether a token is known and no other player left earlier.
pub open spec fn is_oldest(m: Map<Seq<u8>, RecordView>, t: Seq<u8>) -> bool {
    &&& m.contains_key(t)
    &&& forall|u: Seq<u8>| #[trigger] m.contains_key(u) ==> m[t].last_seen <= m[u].last_seen
}

/// The newest of a list in order of age, as many as the registry holds.
pub open spec fn newest(s: Seq<(Seq<u8>, RecordView)>) -> Seq<(Seq<u8>, RecordView)> {
    if s.len() > MAX_PLAYER_RECORDS {
        s.skip(s.len() - MAX_PLAYER_RECORDS)
    } else {
        s
    }
}

/// The registry.
pub struct PlayerRegistry {
    records: Vec<Player>,
}

impl View for PlayerRegistry {
    type V = Map<Seq<u8>, RecordView>;

    closed spec fn view(&self) -> Map<Seq<u8>, RecordView> {
        collected(save::player_views(self.records@))
    }
}

proof fn collected_keys(s: Seq<(Seq<u8>, RecordView)>, t: Seq<u8>)
    ensures
        collected(s).contains_key(t) <==> exists|i: int| 0 <= i < s.len() && (#[trigger] s[i]).0 == t,
    decreases s.len(),
{
    if s.len() > 0 {
        let init = s.drop_last();
        collected_keys(init, t);
        if collected(init).contains_key(t) {
            let i = choose|i: int| 0 <= i < init.len() && (#[trigger] init[i]).0 == t;
            assert(s[i] == init[i]);
        }
        if s.last().0 == t {
            assert(s[s.len() - 1].0 == t);
        }
        if exists|i: int| 0 <= i < s.len() && (#[trigger] s[i]).0 == t {
            let i = choose|i: int| 0 <= i < s.len() && (#[trigger] s[i]).0 == t;
            if i < init.len() {
                assert(init[i] == s[i]);
            }
        }
    }
}

/// Players with different tokens are all collected, each as they are.
pub proof fn collected_value(s: Seq<(Seq<u8>, RecordView)>, i: int)
    requires
        distinct(s),
        0 <= i < s.len(),
    ensures
        collected(s).contains_key(s[i].0),
        collected(s)[s[i].0] == s[i].1,
    decreases s.len(),
{
    let init = s.drop_last();
    if i < s.len() - 1 {
        assert(distinct(init)) by {
            assert forall|a: int, b: int|
                0 <= a < init.len() && 0 <= b < init.len() && a != b implies (
            #[trigger] init[a]).0 != (#[trigger] init[b]).0 by {
                assert(init[a] == s[a] && init[b] == s[b]);
            }
        }
        collected_value(init, i);
        assert(init[i] == s[i]);
        assert(s[i].0 != s[s.len() - 1].0);
    }
}

proof fn collected_size(s: Seq<(Seq<u8>, RecordView)>)
    requires
        distinct(s),
    ensures
        collected(s).dom().finite(),
        collected(s).dom().len() == s.len(),
    decreases s.len(),
{
    if s.len() > 0 {
        let init = s.drop_last();
        assert forall|a: int, b: int|
            0 <= a < init.len() && 0 <= b < init.len() && a != b implies (#[trigger] init[a]).0 != (
        #[trigger] init[b]).0 by {
            assert(init[a] == s[a] && init[b] == s[b]);
        }
        collected_size(init);
        collected_keys(init, s.last().0);
        if collected(init).contains_key(s.last().0) {
            let i = choose|i: int| 0 <= i < init.len() && (#[trigger] init[i]).0 == s.last().0;
            assert(s[i] == init[i]);
            assert(s[i].0 != s[s.len() - 1].0);
        }
        assert(collected(s).dom() =~= collected(init).dom().insert(s.last().0));
    }
}

/// Two lists of distinct players with the same players are the same map.
proof fn same_players_same_map(
    a: Seq<(Seq<u8>, RecordView)>,
    b: Seq<(Seq<u8>, RecordView)>,
)
    requires
        distinct(a),
        distinct(b),
        forall|i: int| 0 <= i < a.len() ==> b.contains(#[trigger] a[i]),
        forall|i: int| 0 <= i < b.len() ==> a.contains(#[trigger] b[i]),
    ensures
        collected(a) == collected(b),
{
    assert forall|t: Seq<u8>| collected(a).contains_key(t) == collected(b).contains_key(t) by {
        collected_keys(a, t);
        collected_keys(b, t);
        if collected(a).contains_key(t) {
            let i = choose|i: int| 0 <= i < a.len() && (#[trigger] a[i]).0 == t;
            assert(b.contains(a[i]));
            let j = choose|j: int| 0 <= j < b.len() && b[j] == a[i];
            assert(b[j].0 == t);
        }
        if collected(b).contains_key(t) {
            let i = choose|i: int| 0 <= i < b.len() && (#[trigger] b[i]).0 == t;
            assert(a.contains(b[i]));
            let j = choose|j: int| 0 <= j < a.len() && a[j] == b[i];
            assert(a[j].0 == t);
        }
    }
    assert forall|t: Seq<u8>| collected(a).contains_key(t) implies collected(a)[t] == collected(
        b,
    )[t] by {
        collected_keys(a, t);
        let i = choose|i: int| 0 <= i < a.len() && (#[trigger] a[i]).0 == t;
        assert(b.contains(a[i]));
        let j = choose|j: int| 0 <= j < b.len() && b[j] == a[i];
        collected_value(a, i);
        collected_value(b, j);
    }
    assert(collected(a) =~= collected(b));
}

proof fn views_of_insert(v: Seq<Player>, i: int, p: Player)
    requires
        0 <= i <= v.len(),
    ensures
        save::player_views(v.insert(i, p)) == save::player_views(v).insert(i, (p.0@, p.1@)),
{
    assert(save::player_views(v.insert(i, p)) =~= save::player_views(v).insert(i, (p.0@, p.1@)));
}

proof fn insert_adds_one<A>(s: Seq<A>, i: int, a: A)
    requires
        0 <= i <= s.len(),
    ensures
        s.insert(i, a).to_multiset() == s.to_multiset().insert(a),
{
    broadcast use vstd::seq_lib::group_to_multiset_ensures;

    let t = s.insert(i, a);
    assert(t.remove(i) =~= s);
    assert(t[i] == a);
    assert(t.contains(a));
    assert(t.to_multiset() =~= s.to_multiset().insert(a));
}

/// Puts a player into a list in order of age.
fn insert_by_age(v: &mut Vec<Player>, p: Player)
    requires
        by_age(save::player_views(old(v)@)),
    ensures
        by_age(save::player_views(final(v)@)),
        save::player_views(final(v)@).to_multiset() == save::player_views(
            old(v)@,
        ).to_multiset().insert((p.0@, p.1@)),
        final(v)@.len() == old(v)@.len() + 1,
{
    let mut i: usize = v.len();
    while i > 0 && v[i - 1].1.last_seen > p.1.last_seen
        invariant
            i <= v@.len(),
            v@ == old(v)@,
            forall|k: int| i <= k < v@.len() ==> (#[trigger] v@[k]).1.last_seen > p.1.last_seen,
        decreases i,
    {
        i = i - 1;
    }
    let ghost before = save::player_views(v@);
    let ghost e = (p.0@, p.1@);
    proof {
        views_of_insert(v@, i as int, p);
        insert_adds_one(before, i as int, e);
        assert forall|a: int, b: int| 0 <= a <= b < before.len() + 1 implies (#[trigger] before.insert(
            i as int,
            e,
        )[a]).1.last_seen <= (#[trigger] before.insert(i as int, e)[b]).1.last_seen by {
            let after = before.insert(i as int, e);
            if a < i {
                assert(after[a] == before[a]);
                assert(before[a].1.last_seen <= before[i - 1].1.last_seen);
            } else if a > i {
                assert(after[a] == before[a - 1]);
            }
            if b < i {
                assert(after[b] == before[b]);
            } else if b > i {
                assert(after[b] == before[b - 1]);
                assert(v@[b - 1].1.last_seen > p.1.last_seen);
            }
        }
    }
    v.insert(i, p);
}

/// A list of players in order of age.
fn sort_by_age(mut players: Vec<Player>) -> (v: Vec<Player>)
    ensures
        by_age(save::player_views(v@)),
        save::player_views(v@).to_multiset() == save::player_views(players@).to_multiset(),
        v@.len() == players@.len(),
{
    broadcast use vstd::seq_lib::group_to_multiset_ensures;

    let ghost all = save::player_views(players@);
    let ghost n = players@.len();
    let mut v: Vec<Player> = Vec::new();
    assert(save::player_views(v@) =~= Seq::<(Seq<u8>, RecordView)>::empty());
    assert(save::player_views(v@).to_multiset().add(all.to_multiset()) =~= all.to_multiset());
    while players.len() > 0
        invariant
            by_age(save::player_views(v@)),
            v@.len() + players@.len() == n,
            save::player_views(v@).to_multiset().add(save::player_views(players@).to_multiset())
                == all.to_multiset(),
        decreases players@.len(),
    {
        let ghost left = save::player_views(players@);
        let ghost done = save::player_views(v@);
        match players.pop() {
            Some(p) => {
                let ghost e = (p.0@, p.1@);
                proof {
                    assert(left =~= save::player_views(players@).push(e));
                }
                insert_by_age(&mut v, p);
                proof {
                    let now = save::player_views(players@);
                    vstd::seq_lib::to_multiset_build(now, e);
                    assert(save::player_views(v@).to_multiset().add(now.to_multiset())
                        =~= done.to_multiset().add(left.to_multiset()));
                }
            },
            None => {},
        }
    }
    assert(save::player_views(players@) =~= Seq::<(Seq<u8>, RecordView)>::empty());
    assert(save::player_views(v@).to_multiset().add(save::player_views(players@).to_multiset())
        =~= save::player_views(v@).to_multiset());
    v
}

impl PlayerRecord {
    /// The same record again.
    pub fn copied(&self) -> (r: PlayerRecord)
        ensures
            r@ == self@,
    {
        PlayerRecord {
            pos: self.pos,
            yaw: self.yaw,
            pitch: self.pitch,
            name: self.name.clone(),
            color: self.color,
            last_seen: self.last_seen,
        }
    }
}

impl PlayerRegistry {
    /// Whether each token is held once, and not too many are.
    pub closed spec fn wf(self) -> bool {
        &&& distinct(save::player_views(self.records@))
        &&& self.records@.len() <= MAX_PLAYER_RECORDS
    }

    /// A registry that remembers nobody.
    pub fn empty() -> (r: PlayerRegistry)
        ensures
            r.wf(),
            r@ == Map::<Seq<u8>, RecordView>::empty(),
    {
        PlayerRegistry { records: Vec::new() }
    }

    /// Where a token is held.
    fn find(&self, token: &[u8; 16]) -> (r: Option<usize>)
        requires
            self.wf(),
        ensures
            match r {
                Some(i) => {
                    &&& i < self.records@.len()
                    &&& self.records@[i as int].0@ == token@
                    &&& self@.contains_key(token@)
                    &&& self@[token@] == self.records@[i as int].1@
                },
                None => !self@.contains_key(token@),
            },
    {
        let ghost s = save::player_views(self.records@);
        let mut i: usize = 0;
        while i < self.records.len()
            invariant
                i <= self.records@.len(),
                self.wf(),
                s == save::player_views(self.records@),
                forall|k: int| 0 <= k < i ==> (#[trigger] s[k]).0 != token@,
            decreases self.records@.len() - i,
        {
            if same_token(&self.records[i].0, token) {
                proof {
                    collected_value(s, i as int);
                }
                return Some(i);
            }
            i = i + 1;
        }
        proof {
            collected_keys(s, token@);
        }
        None
    }

    /// What is remembered under a token.
    pub fn get(&self, token: &[u8; 16]) -> (r: Option<&PlayerRecord>)
        requires
            self.wf(),
        ensures
            match r {
                Some(p) => self@.contains_key(token@) && p@ == self@[token@],
                None => !self@.contains_key(token@),
            },
    {
        match self.find(token) {
            Some(i) => Some(&self.records[i].1),
            None => None,
        }
    }

    /// Remembers a player, in place of what was under the token.
    fn put(&mut self, token: [u8; 16], record: PlayerRecord)
        requires
            old(self).wf(),
            old(self).records@.len() < MAX_PLAYER_RECORDS || old(self)@.contains_key(token@),
        ensures
            final(self).wf(),
            final(self)@ == old(self)@.insert(token@, record@),
            final(self).records@.len() <= old(self).records@.len() + 1,
    {
        let ghost s = save::player_views(self.records@);
        let ghost e = (token@, record@);
        match self.find(&token) {
            Some(i) => {
                self.records.set(i, (token, record));
                proof {
                    let t = save::player_views(self.records@);
                    assert(t =~= s.update(i as int, e));
                    assert(distinct(t)) by {
                        assert forall|a: int, b: int|
                            0 <= a < t.len() && 0 <= b < t.len() && a != b implies (
                        #[trigger] t[a]).0 != (#[trigger] t[b]).0 by {
                            assert(s[a].0 != s[b].0);
                        }
                    }
                    assert forall|u: Seq<u8>| collected(t).contains_key(u) == collected(s).insert(
                        e.0,
                        e.1,
                    ).contains_key(u) by {
                        collected_keys(t, u);
                        collected_keys(s, u);
                        if collected(t).contains_key(u) {
                            let k = choose|k: int| 0 <= k < t.len() && (#[trigger] t[k]).0 == u;
                            assert(s[k].0 == u);
                        }
                        if collected(s).contains_key(u) {
                            let k = choose|k: int| 0 <= k < s.len() && (#[trigger] s[k]).0 == u;
                            assert(t[k].0 == u);
                        }
                        if u == e.0 {
                            assert(t[i as int].0 == u);
                        }
                    }
                    assert forall|u: Seq<u8>| collected(t).contains_key(u) implies collected(t)[u]
                        == collected(s).insert(e.0, e.1)[u] by {
                        collected_keys(t, u);
                        let k = choose|k: int| 0 <= k < t.len() && (#[trigger] t[k]).0 == u;
                        collected_value(t, k);
                        collected_value(s, k);
                        if k != i {
                            assert(s[k].0 != s[i as int].0);
                        }
                    }
                    assert(collected(t) =~= collected(s).insert(e.0, e.1));
                }
            },
            None => {
                self.records.push((token, record));
                proof {
                    let t = save::player_views(self.records@);
                    assert(t =~= s.push(e));
                    assert(t.drop_last() =~= s);
                    collected_keys(s, token@);
                    assert forall|a: int, b: int|
                        0 <= a < t.len() && 0 <= b < t.len() && a != b implies (#[trigger] t[a]).0
                        != (#[trigger] t[b]).0 by {
                        if a < s.len() {
                            assert(t[a] == s[a]);
                        }
                        if b < s.len() {
                            assert(t[b] == s[b]);
                        }
                    }
                }
            },
        }
    }

    /// Forgets the player at a place.
    fn forget(&mut self, i: usize)
        requires
            old(self).wf(),
            i < old(self).records@.len(),
        ensures
            final(self).wf(),
            final(self)@ == old(self)@.remove(old(self).records@[i as int].0@),
            final(self).records@.len() == old(self).records@.len() - 1,
    {
        let ghost s = save::player_views(self.records@);
        let _ = self.records.remove(i);
        proof {
            let t = save::player_views(self.records@);
            let gone = s[i as int].0;
            assert(t =~= s.remove(i as int));
            assert forall|a: int, b: int|
                0 <= a < t.len() && 0 <= b < t.len() && a != b implies (#[trigger] t[a]).0 != (
            #[trigger] t[b]).0 by {
                let x = if a < i {
                    a
                } else {
                    a + 1
                };
                let y = if b < i {
                    b
                } else {
                    b + 1
                };
                assert(t[a] == s[x] && t[b] == s[y]);
            }
            assert forall|u: Seq<u8>| collected(t).contains_key(u) == collected(s).remove(
                gone,
            ).contains_key(u) by {
                collected_keys(t, u);
                collected_keys(s, u);
                if collected(t).contains_key(u) {
                    let k = choose|k: int| 0 <= k < t.len() && (#[trigger] t[k]).0 == u;
                    let x = if k < i {
                        k
                    } else {
                        k + 1
                    };
                    assert(s[x] == t[k]);
                    assert(s[x].0 != s[i as int].0);
                }
                if collected(s).contains_key(u) && u != gone {
                    let k = choose|k: int| 0 <= k < s.len() && (#[trigger] s[k]).0 == u;
                    let x = if k < i {
                        k
                    } else {
                        k - 1
                    };
                    assert(t[x] == s[k]);
                }
            }
            assert forall|u: Seq<u8>| collected(t).contains_key(u) implies collected(t)[u]
                == collected(s).remove(gone)[u] by {
                collected_keys(t, u);
                let k = choose|k: int| 0 <= k < t.len() && (#[trigger] t[k]).0 == u;
                let x = if k < i {
                    k
                } else {
                    k + 1
                };
                assert(s[x] == t[k]);
                collected_value(t, k);
                collected_value(s, x);
            }
            assert(collected(t) =~= collected(s).remove(gone));
        }
    }

    /// The place of a player whom nobody left before.
    fn oldest(&self) -> (i: usize)
        requires
            self.wf(),
            self.records@.len() > 0,
        ensures
            i < self.records@.len(),
            is_oldest(self@, self.records@[i as int].0@),
    {
        let ghost s = save::player_views(self.records@);
        let mut best: usize = 0;
        let mut k: usize = 1;
        while k < self.records.len()
            invariant
                1 <= k <= self.records@.len(),
                best < k,
                forall|j: int|
                    0 <= j < k ==> self.records@[best as int].1.last_seen <= (
                    #[trigger] self.records@[j]).1.last_seen,
            decreases self.records@.len() - k,
        {
            if self.records[k].1.last_seen < self.records[best].1.last_seen {
                best = k;
            }
            k = k + 1;
        }
        proof {
            let t = s[best as int].0;
            collected_value(s, best as int);
            assert forall|u: Seq<u8>| #[trigger] self@.contains_key(u) implies self@[t].last_seen
                <= self@[u].last_seen by {
                collected_keys(s, u);
                let j = choose|j: int| 0 <= j < s.len() && (#[trigger] s[j]).0 == u;
                collected_value(s, j);
                assert(self.records@[best as int].1.last_seen <= self.records@[j].1.last_seen);
            }
        }
        best
    }

    /// Remembers a player who leaves. Where the registry is full and does not know
    /// the token, it forgets one whom nobody left before.
    pub fn upsert(&mut self, token: [u8; 16], record: PlayerRecord)
        requires
            old(self).wf(),
        ensures
            final(self).wf(),
            old(self)@.contains_key(token@) || old(self)@.dom().len() < MAX_PLAYER_RECORDS
                ==> final(self)@ == old(self)@.insert(token@, record@),
            !old(self)@.contains_key(token@) && old(self)@.dom().len() >= MAX_PLAYER_RECORDS
                ==> exists|t: Seq<u8>| #[trigger]
                is_oldest(old(self)@, t) && final(self)@ == old(self)@.remove(t).insert(
                    token@,
                    record@,
                ),
    {
        proof {
            collected_size(save::player_views(self.records@));
        }
        if self.records.len() >= MAX_PLAYER_RECORDS {
            let known = self.find(&token);
            if known.is_none() {
                let i: usize = self.oldest();
                let ghost t = self.records@[i as int].0@;
                self.forget(i);
                self.put(token, record);
                assert(is_oldest(old(self)@, t));
                return;
            }
        }
        self.put(token, record);
    }

    /// The registry of a save: the players who left last, as many as it holds. Of
    /// those with one token the one who left last counts.
    pub fn new(records: Vec<Player>) -> (r: PlayerRegistry)
        ensures
            r.wf(),
            exists|s: Seq<(Seq<u8>, RecordView)>|
                {
                    &&& #[trigger] by_age(s)
                    &&& s.to_multiset() == save::player_views(records@).to_multiset()
                    &&& r@ == collected(newest(s))
                },
    {
        let sorted = sort_by_age(records);
        let ghost s = save::player_views(sorted@);
        let n: usize = sorted.len();
        let start: usize = if n > MAX_PLAYER_RECORDS {
            n - MAX_PLAYER_RECORDS
        } else {
            0
        };
        let ghost kept = newest(s);
        let mut r = PlayerRegistry { records: Vec::new() };
        let mut k: usize = start;
        assert(kept.take(0) =~= Seq::<(Seq<u8>, RecordView)>::empty());
        while k < n
            invariant
                start <= k <= n,
                n == sorted@.len(),
                n - start <= MAX_PLAYER_RECORDS,
                s == save::player_views(sorted@),
                kept == newest(s),
                kept == s.skip(start as int),
                r.wf(),
                r.records@.len() <= k - start,
                r@ == collected(kept.take(k - start)),
            decreases n - k,
        {
            let p = &sorted[k];
            r.put(p.0, p.1.copied());
            proof {
                let next = kept.take(k - start + 1);
                assert(next.drop_last() =~= kept.take(k - start));
                assert(next.last() == s[k as int]);
            }
            k = k + 1;
        }
        assert(kept.take(k - start) =~= kept);
        assert(by_age(s));
        r
    }

    /// Everyone whom the registry remembers, each once.
    pub fn snapshot(&self) -> (v: Vec<Player>)
        requires
            self.wf(),
        ensures
            distinct(save::player_views(v@)),
            collected(save::player_views(v@)) == self@,
            v@.len() <= MAX_PLAYER_RECORDS,
    {
        let mut v: Vec<Player> = Vec::new();
        let mut i: usize = 0;
        while i < self.records.len()
            invariant
                i <= self.records@.len(),
                v@.len() == i,
                forall|k: int|
                    0 <= k < i ==> (#[trigger] v@[k]).0 == self.records@[k].0 && v@[k].1@
                        == self.records@[k].1@,
            decreases self.records@.len() - i,
        {
            let p = &self.records[i];
            v.push((p.0, p.1.copied()));
            i = i + 1;
        }
        assert(save::player_views(v@) =~= save::player_views(self.records@));
        v
    }

    /// How many players the registry remembers.
    pub fn len(&self) -> (n: usize)
        requires
            self.wf(),
        ensures
            self@.dom().finite(),
            n == self@.dom().len(),
            n <= MAX_PLAYER_RECORDS,
    {
        proof {
            collected_size(save::player_views(self.records@));
        }
        self.records.len()
    }

    /// Whether the registry remembers nobody.
    pub fn is_empty(&self) -> (r: bool)
        requires
            self.wf(),
        ensures
            r == (self@ == Map::<Seq<u8>, RecordView>::empty()),
    {
        proof {
            collected_size(save::player_views(self.records@));
            if self@.dom().len() == 0 {
                assert(self@.dom() =~= Set::<Seq<u8>>::empty());
                assert(self@ =~= Map::<Seq<u8>, RecordView>::empty());
            }
        }
        self.len() == 0
    }
}

impl Default for PlayerRegistry {
    fn default() -> (r: PlayerRegistry)
        ensures
            r.wf(),
            r@ == Map::<Seq<u8>, RecordView>::empty(),
    {
        PlayerRegistry::empty()
    }
}

// ---- Laws ----------------------------------------------------------------------

/// The order in which a save lists the players does not matter: a registry with
/// room for all of them, built from any order of a snapshot, remembers what the
/// first one did.
pub proof fn registries_survive_a_save(
    snapshot: Seq<(Seq<u8>, RecordView)>,
    s: Seq<(Seq<u8>, RecordView)>,
)
    requires
        distinct(snapshot),
        snapshot.len() <= MAX_PLAYER_RECORDS,
        s.to_multiset() == snapshot.to_multiset(),
    ensures
        collected(newest(s)) == collected(snapshot),
{
    broadcast use vstd::seq_lib::group_to_multiset_ensures;

    assert(s.to_multiset().len() == s.len() && snapshot.to_multiset().len() == snapshot.len());
    assert(snapshot.no_duplicates());
    snapshot.lemma_multiset_has_no_duplicates();
    s.lemma_multiset_has_no_duplicates_conv();
    assert forall|i: int| 0 <= i < s.len() implies snapshot.contains(#[trigger] s[i]) by {
        assert(s.contains(s[i]));
        assert(s.to_multiset().count(s[i]) > 0);
    }
    assert forall|i: int| 0 <= i < snapshot.len() implies s.contains(#[trigger] snapshot[i]) by {
        assert(snapshot.contains(snapshot[i]));
        assert(snapshot.to_multiset().count(snapshot[i]) > 0);
    }
    assert(distinct(s)) by {
        assert forall|i: int, j: int| 0 <= i < s.len() && 0 <= j < s.len() && i != j implies (
        #[trigger] s[i]).0 != (#[trigger] s[j]).0 by {
            let a = choose|a: int| 0 <= a < snapshot.len() && snapshot[a] == s[i];
            let b = choose|b: int| 0 <= b < snapshot.len() && snapshot[b] == s[j];
            assert(s[i] != s[j]);
            assert(snapshot[a].0 != snapshot[b].0);
        }
    }
    same_players_same_map(s, snapshot);
}

/// Where one token comes more than once in order of age, what its player was like
/// when they left last counts.
pub proof fn the_latest_record_counts(s: Seq<(Seq<u8>, RecordView)>, i: int)
    requires
        by_age(s),
        0 <= i < s.len(),
    ensures
        collected(s).contains_key(s[i].0),
        collected(s)[s[i].0].last_seen >= s[i].1.last_seen,
    decreases s.len(),
{
    let init = s.drop_last();
    if s.last().0 != s[i].0 {
        assert(by_age(init)) by {
            assert forall|a: int, b: int| 0 <= a <= b < init.len() implies (
            #[trigger] init[a]).1.last_seen <= (#[trigger] init[b]).1.last_seen by {
                assert(init[a] == s[a] && init[b] == s[b]);
            }
        }
        assert(init[i] == s[i]);
        the_latest_record_counts(init, i);
    } else {
        assert(s[i].1.last_seen <= s[s.len() - 1].1.last_seen);
    }
}

/// A token is kept as it was drawn, but for that of zeros alone, which stands for none:
/// its first byte becomes one.
pub proof fn tokens_are_not_zero(t: Seq<u8>)
    requires
        t.len() == 16,
    ensures
        token_of(t).len() == 16,
        forall|k: int| 1 <= k < 16 ==> token_of(t)[k] == t[k],
        (exists|k: int| 0 <= k < 16 && (#[trigger] t[k]) != 0) ==> token_of(t) == t,
        (forall|k: int| 0 <= k < 16 ==> (#[trigger] t[k]) == 0) ==> token_of(t)[0] == 1,
{
    if forall|k: int| 0 <= k < 16 ==> (#[trigger] t[k]) == 0 {
        assert(is_none_token(t));
    }
    if exists|k: int| 0 <= k < 16 && (#[trigger] t[k]) != 0 {
        let k = choose|k: int| 0 <= k < 16 && (#[trigger] t[k]) != 0;
        assert(Seq::new(16, |i: int| 0u8)[k] == 0);
    }
}

} // verus!
