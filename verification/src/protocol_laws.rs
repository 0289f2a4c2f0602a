//! What is sent arrives as it was meant.
use vstd::prelude::*;
use vstd::utf8;

use crate::agent::AgentView;
use crate::coords::ChunkPos;
use crate::protocol;
use crate::protocol::{Action, ClientView, ServerView};
use crate::stats::{CacheStats, ServerStats};
use crate::wire;

verus! {

broadcast use crate::wire::group_number_lengths;

proof fn slices_of_concatenation(a: Seq<u8>, b: Seq<u8>)
    ensures
        (a + b).subrange(0, a.len() as int) == a,
        (a + b).subrange(a.len() as int, (a + b).len() as int) == b,
{
    assert((a + b).subrange(0, a.len() as int) =~= a);
    assert((a + b).subrange(a.len() as int, (a + b).len() as int) =~= b);
}

/// Actions are read back as they were written.
proof fn actions_read_back(a: Action)
    ensures
        protocol::action_of(protocol::action_bytes(a)) == Some(a),
{
    let s = protocol::action_bytes(a);
    match a {
        Action::Break { yaw, pitch } => {
            assert(s.subrange(1, 5) =~= wire::le4(yaw));
            wire::number4_reads_back(s, 1, yaw);
            assert(s.subrange(5, 9) =~= wire::le4(pitch));
            wire::number4_reads_back(s, 5, pitch);
        },
        Action::Place { yaw, pitch } => {
            assert(s.subrange(1, 5) =~= wire::le4(yaw));
            wire::number4_reads_back(s, 1, yaw);
            assert(s.subrange(5, 9) =~= wire::le4(pitch));
            wire::number4_reads_back(s, 5, pitch);
        },
        _ => {},
    }
}

proof fn chunks_length(v: Seq<ChunkPos>)
    ensures
        protocol::chunks_bytes(v).len() == 12 * v.len(),
    decreases v.len(),
{
    if v.len() > 0 {
        chunks_length(v.drop_last());
    }
}

proof fn chunk_reads_back(v: Seq<ChunkPos>, k: int)
    requires
        0 <= k < v.len(),
    ensures
        protocol::chunks_bytes(v).len() == 12 * v.len(),
        protocol::chunks_bytes(v).subrange(12 * k, 12 * k + 12) == wire::triple_bytes(
            v[k].x,
            v[k].y,
            v[k].z,
        ),
    decreases v.len(),
{
    chunks_length(v);
    let init = v.drop_last();
    chunks_length(init);
    let all = protocol::chunks_bytes(v);
    if k < init.len() {
        chunk_reads_back(init, k);
        assert(all.subrange(12 * k, 12 * k + 12) =~= protocol::chunks_bytes(init).subrange(
            12 * k,
            12 * k + 12,
        ));
    } else {
        assert(all.subrange(12 * k, 12 * k + 12) =~= wire::triple_bytes(
            v[k].x,
            v[k].y,
            v[k].z,
        ));
    }
}

proof fn client_payload_reads_back(m: ClientView)
    requires
        m.acceptable(),
    ensures
        protocol::client_of(m.frame_type(), m.payload()) == Some(m),
        m.payload().len() < 4294967296,
{
    let s = m.payload();
    match m {
        ClientView::Input { keys, dx, dy } => {
            assert(s.subrange(0, 4) =~= wire::le4(keys));
            wire::number4_reads_back(s, 0, keys);
            assert(s.subrange(4, 8) =~= wire::le4(dx));
            wire::number4_reads_back(s, 4, dx);
            assert(s.subrange(8, 12) =~= wire::le4(dy));
            wire::number4_reads_back(s, 8, dy);
        },
        ClientView::Action(a) => {
            actions_read_back(a);
        },
        ClientView::Evicted(v) => {
            chunks_length(v);
            let n = v.len() as u32;
            assert(s.subrange(0, 4) =~= wire::le4(n));
            wire::number4_reads_back(s, 0, n);
            assert(wire::val4(s, 0) == n);
            let got = Seq::new(n as nat, |k: int| protocol::chunk_at(s, 4 + 12 * k));
            assert forall|k: int| 0 <= k < v.len() implies got[k] == v[k] by {
                chunk_reads_back(v, k);
                let i = 4 + 12 * k;
                assert(s.subrange(i, i + 12) =~= protocol::chunks_bytes(v).subrange(
                    12 * k,
                    12 * k + 12,
                ));
                wire::triple_reads_back(s, i, v[k].x, v[k].y, v[k].z);
            }
            assert(got =~= v);
        },
        ClientView::SetNpcLoad { count, spacing } => {
            assert(s.subrange(0, 4) =~= wire::le4(count));
            wire::number4_reads_back(s, 0, count);
            assert(s.subrange(4, 8) =~= wire::le4(spacing));
            wire::number4_reads_back(s, 4, spacing);
        },
        ClientView::Profile { name, color } => {
            wire::text_reads_back(name);
            let n = utf8::encode_utf8(name).len() as u16;
            assert(s.subrange(0, 2) =~= wire::le2(n));
            wire::number2_reads_back(s, 0, n);
            assert(wire::val2(s, 0) == n);
            assert(s.subrange(2, 2 + n) =~= utf8::encode_utf8(name));
            assert(s.subrange(2 + n, 5 + n) =~= color);
        },
    }
}

/// What a client sends is what its frame is read as.
pub proof fn client_messages_round_trip(m: ClientView)
    requires
        m.acceptable(),
    ensures
        protocol::client_message(m.frame()) == Some(m),
{
    client_payload_reads_back(m);
    wire::frames_read_back(m.frame_type(), m.payload(), Seq::empty());
    assert(m.frame() + Seq::<u8>::empty() =~= m.frame());
}

/// A frame in front of other bytes is read first and whole, and what follows it
/// is read as if it stood alone.
pub proof fn client_streams_concatenate(m: ClientView, rest: Seq<u8>)
    requires
        m.acceptable(),
    ensures
        protocol::client_stream(m.frame() + rest) == (
            seq![m] + protocol::client_stream(rest).0,
            m.frame().len() + protocol::client_stream(rest).1,
        ),
{
    client_payload_reads_back(m);
    client_messages_round_trip(m);
    wire::frames_read_back(m.frame_type(), m.payload(), rest);
    let s = m.frame() + rest;
    let total = m.frame().len() as int;
    assert(s.take(total) =~= m.frame());
    assert(s.skip(total) =~= rest);
}

/// A frame that has not arrived whole is left where it is, and yields nothing.
pub proof fn partial_client_frames_are_left_over(m: ClientView, n: int)
    requires
        m.acceptable(),
        0 <= n < m.frame().len(),
    ensures
        protocol::client_stream(m.frame().take(n)) == (Seq::<ClientView>::empty(), 0int),
{
    client_payload_reads_back(m);
    wire::frames_read_back(m.frame_type(), m.payload(), Seq::empty());
    assert(m.frame() + Seq::<u8>::empty() =~= m.frame());
    let s = m.frame().take(n);
    if n >= 5 {
        assert(wire::val4(s, 1) == wire::val4(m.frame(), 1)) by {
            reveal(wire::val4);
        }
    }
}

proof fn agent_length(a: AgentView)
    requires
        protocol::named_shortly(a),
    ensures
        protocol::agent_head(a).len() == 36,
        protocol::agent_bytes(a).len() == 39 + (if a.target is Some {
            12int
        } else {
            0
        }) + utf8::encode_utf8(a.name).len(),
{
    reveal(protocol::agent_bytes);
}

proof fn head_reads_back(s: Seq<u8>, i: int, a: AgentView)
    requires
        protocol::named_shortly(a),
        0 <= i,
        i + 36 <= s.len(),
        s.subrange(i, i + 36) == protocol::agent_head(a),
    ensures
        wire::val4(s, i) == a.id,
        s[i + 4] == protocol::flag_byte(a),
        wire::val4(s, i + 5) == a.pos.x,
        wire::val4(s, i + 9) == a.pos.y,
        wire::val4(s, i + 13) == a.pos.z,
        wire::val4(s, i + 17) == a.yaw,
        wire::val4(s, i + 21) == a.pitch,
        wire::val4(s, i + 25) == a.fly_speed,
        s.subrange(i + 29, i + 32) == a.color,
        wire::val4(s, i + 32) == a.radius,
{
    let t = s.subrange(i, i + 36);
    assert forall|k: int, n: int| 0 <= k <= n <= 36 implies #[trigger] s.subrange(i + k, i + n)
        == t.subrange(k, n) by {
        assert(s.subrange(i + k, i + n) =~= t.subrange(k, n));
    }
    assert(s.subrange(i + 0, i + 4) == t.subrange(0, 4));
    assert(t.subrange(0, 4) =~= wire::le4(a.id));
    wire::number4_reads_back(s, i, a.id);
    assert(t[4] == s[i + 4]);
    assert(t.subrange(5, 9) =~= wire::le4(a.pos.x));
    assert(s.subrange(i + 5, i + 9) == t.subrange(5, 9));
    wire::number4_reads_back(s, i + 5, a.pos.x);
    assert(t.subrange(9, 13) =~= wire::le4(a.pos.y));
    assert(s.subrange(i + 9, i + 13) == t.subrange(9, 13));
    wire::number4_reads_back(s, i + 9, a.pos.y);
    assert(t.subrange(13, 17) =~= wire::le4(a.pos.z));
    assert(s.subrange(i + 13, i + 17) == t.subrange(13, 17));
    wire::number4_reads_back(s, i + 13, a.pos.z);
    assert(t.subrange(17, 21) =~= wire::le4(a.yaw));
    assert(s.subrange(i + 17, i + 21) == t.subrange(17, 21));
    wire::number4_reads_back(s, i + 17, a.yaw);
    assert(t.subrange(21, 25) =~= wire::le4(a.pitch));
    assert(s.subrange(i + 21, i + 25) == t.subrange(21, 25));
    wire::number4_reads_back(s, i + 21, a.pitch);
    assert(t.subrange(25, 29) =~= wire::le4(a.fly_speed));
    assert(s.subrange(i + 25, i + 29) == t.subrange(25, 29));
    wire::number4_reads_back(s, i + 25, a.fly_speed);
    assert(t.subrange(29, 32) =~= a.color);
    assert(s.subrange(i + 29, i + 32) == t.subrange(29, 32));
    assert(t.subrange(32, 36) =~= wire::le4(a.radius));
    assert(s.subrange(i + 32, i + 36) == t.subrange(32, 36));
    wire::number4_reads_back(s, i + 32, a.radius);
}

/// An agent is read back wherever its bytes stand.
proof fn agent_reads_back(s: Seq<u8>, i: int, a: AgentView)
    requires
        protocol::named_shortly(a),
        0 <= i,
        i + protocol::agent_bytes(a).len() <= s.len(),
        s.subrange(i, i + protocol::agent_bytes(a).len() as int) == protocol::agent_bytes(a),
    ensures
        protocol::agent_at(s, i) == Some((a, i + protocol::agent_bytes(a).len() as int)),
{
    reveal(protocol::agent_bytes);
    reveal(protocol::agent_at);
    agent_length(a);
    let all = protocol::agent_bytes(a);
    let t = s.subrange(i, i + all.len() as int);
    assert(s.subrange(i, i + 36) =~= t.subrange(0, 36));
    assert(t.subrange(0, 36) =~= protocol::agent_head(a));
    head_reads_back(s, i, a);
    assert(t[36] == s[i + 36]);
    let j: int = match a.target {
        Some(p) => {
            assert(s.subrange(i + 37, i + 49) =~= t.subrange(37, 49));
            assert(t.subrange(37, 49) =~= wire::triple_bytes(p.x, p.y, p.z));
            wire::triple_reads_back(s, i + 37, p.x, p.y, p.z);
            49
        },
        None => 37,
    };
    let n = utf8::encode_utf8(a.name).len() as int;
    assert(s.subrange(i + j, i + j + 2 + n) =~= t.subrange(j, j + 2 + n));
    assert(t.subrange(j, j + 2 + n) =~= wire::text_bytes(a.name));
    wire::text_reads_back_at(s, i + j, a.name);
    let f = s[i + 4];
    assert((f % 2 == 1) == a.is_player);
    assert((f / 2 % 2 == 1) == a.on_ground);
    assert((f / 4 % 2 == 1) == a.fly);
    let got = protocol::agent_at(s, i)->0;
    assert(got.0 =~= a);
}

proof fn agents_split(v: Seq<AgentView>)
    requires
        v.len() > 0,
    ensures
        protocol::agents_bytes(v) == protocol::agent_bytes(v[0]) + protocol::agents_bytes(
            v.skip(1),
        ),
    decreases v.len(),
{
    let init = v.drop_last();
    if init.len() == 0 {
        assert(v.skip(1) =~= Seq::<AgentView>::empty());
        assert(protocol::agents_bytes(init) =~= Seq::<u8>::empty());
        assert(protocol::agents_bytes(v) =~= protocol::agent_bytes(v[0])
            + protocol::agents_bytes(v.skip(1)));
    } else {
        agents_split(init);
        assert(init.skip(1) =~= v.skip(1).drop_last());
        assert(v.skip(1).last() == v.last());
        assert(protocol::agents_bytes(v) =~= protocol::agent_bytes(v[0])
            + protocol::agents_bytes(v.skip(1)));
    }
}

proof fn agents_read_back(s: Seq<u8>, i: int, v: Seq<AgentView>)
    requires
        forall|k: int| 0 <= k < v.len() ==> protocol::named_shortly(#[trigger] v[k]),
        0 <= i,
        i + protocol::agents_bytes(v).len() <= s.len(),
        s.subrange(i, i + protocol::agents_bytes(v).len() as int) == protocol::agents_bytes(v),
    ensures
        protocol::agents_at(s, i, v.len()) == Some(
            (v, i + protocol::agents_bytes(v).len() as int),
        ),
    decreases v.len(),
{
    if v.len() == 0 {
        assert(v =~= Seq::<AgentView>::empty());
    } else {
        agents_split(v);
        let first = protocol::agent_bytes(v[0]);
        let rest = protocol::agents_bytes(v.skip(1));
        let n = first.len() as int;
        let t = s.subrange(i, i + (first + rest).len() as int);
        slices_of_concatenation(first, rest);
        assert(s.subrange(i, i + n) =~= t.subrange(0, n));
        agent_reads_back(s, i, v[0]);
        assert(s.subrange(i + n, i + n + rest.len() as int) =~= t.subrange(
            n,
            n + rest.len() as int,
        ));
        assert forall|k: int| 0 <= k < v.skip(1).len() implies protocol::named_shortly(
            #[trigger] v.skip(1)[k],
        ) by {
            assert(v.skip(1)[k] == v[k + 1]);
        }
        agents_read_back(s, i + n, v.skip(1));
        assert(seq![v[0]] + v.skip(1) =~= v);
    }
}

proof fn world_counts_read_back(s: Seq<u8>, st: ServerStats)
    requires
        ServerView::Stats(st).acceptable(),
        s.len() >= 20,
        s.subrange(0, 20) == protocol::world_counts(st),
    ensures
        wire::val4(s, 0) == st.chunks_generated,
        wire::val4(s, 4) == st.chunks_sent,
        wire::val4(s, 8) == st.deltas,
        wire::val4(s, 12) == st.agents,
        wire::val4(s, 16) == st.npcs,
{
    let t = s.subrange(0, 20);
    concatenation_of_five(
        4,
        protocol::count_bytes(st.chunks_generated),
        protocol::count_bytes(st.chunks_sent),
        protocol::count_bytes(st.deltas),
        protocol::count_bytes(st.agents),
        protocol::count_bytes(st.npcs),
    );
    assert(s.subrange(0, 4) =~= t.subrange(0, 4));
    wire::number4_reads_back(s, 0, st.chunks_generated as u32);
    assert(s.subrange(4, 8) =~= t.subrange(4, 8));
    wire::number4_reads_back(s, 4, st.chunks_sent as u32);
    assert(s.subrange(8, 12) =~= t.subrange(8, 12));
    wire::number4_reads_back(s, 8, st.deltas as u32);
    assert(s.subrange(12, 16) =~= t.subrange(12, 16));
    wire::number4_reads_back(s, 12, st.agents as u32);
    assert(s.subrange(16, 20) =~= t.subrange(16, 20));
    wire::number4_reads_back(s, 16, st.npcs as u32);
}

proof fn cache_counts_read_back(s: Seq<u8>, c: CacheStats)
    requires
        s.len() == 60,
        s.subrange(20, 60) == protocol::cache_counts(c),
    ensures
        wire::val8(s, 20) == c.lookups,
        wire::val8(s, 28) == c.hits,
        wire::val8(s, 36) == c.solid_misses,
        wire::val8(s, 44) == c.rebuilds,
        wire::val8(s, 52) == c.rebuild_probes,
{
    let t = s.subrange(20, 60);
    let a = wire::le8(c.lookups);
    let b = wire::le8(c.hits);
    let d = wire::le8(c.solid_misses);
    let e = wire::le8(c.rebuilds);
    let f = wire::le8(c.rebuild_probes);
    concatenation_of_five(8, a, b, d, e, f);
    assert(s.subrange(20, 28) =~= t.subrange(0, 8));
    wire::number8_reads_back(s, 20, c.lookups);
    assert(s.subrange(28, 36) =~= t.subrange(8, 16));
    wire::number8_reads_back(s, 28, c.hits);
    assert(s.subrange(36, 44) =~= t.subrange(16, 24));
    wire::number8_reads_back(s, 36, c.solid_misses);
    assert(s.subrange(44, 52) =~= t.subrange(24, 32));
    wire::number8_reads_back(s, 44, c.rebuilds);
    assert(s.subrange(52, 60) =~= t.subrange(32, 40));
    wire::number8_reads_back(s, 52, c.rebuild_probes);
}

proof fn concatenation_of_five(n: int, a: Seq<u8>, b: Seq<u8>, c: Seq<u8>, d: Seq<u8>, e: Seq<u8>)
    requires
        a.len() == n,
        b.len() == n,
        c.len() == n,
        d.len() == n,
        e.len() == n,
    ensures
        (a + b + c + d + e).subrange(0, n) == a,
        (a + b + c + d + e).subrange(n, 2 * n) == b,
        (a + b + c + d + e).subrange(2 * n, 3 * n) == c,
        (a + b + c + d + e).subrange(3 * n, 4 * n) == d,
        (a + b + c + d + e).subrange(4 * n, 5 * n) == e,
{
    let all = a + b + c + d + e;
    assert(all.subrange(0, n) =~= a);
    assert(all.subrange(n, 2 * n) =~= b);
    assert(all.subrange(2 * n, 3 * n) =~= c);
    assert(all.subrange(3 * n, 4 * n) =~= d);
    assert(all.subrange(4 * n, 5 * n) =~= e);
}

proof fn stats_read_back(st: ServerStats)
    requires
        ServerView::Stats(st).acceptable(),
    ensures
        protocol::stats_bytes(st).len() == 60,
        protocol::stats_of(protocol::stats_bytes(st)) == st,
{
    reveal(protocol::stats_bytes);
    let s = protocol::stats_bytes(st);
    assert(s.len() == 60);
    assert(s.subrange(0, 20) =~= protocol::world_counts(st));
    assert(s.subrange(20, 60) =~= protocol::cache_counts(st.cache));
    world_counts_read_back(s, st);
    cache_counts_read_back(s, st.cache);
}

proof fn server_payload_reads_back(m: ServerView)
    requires
        m.acceptable(),
    ensures
        protocol::server_of(m.frame_type(), m.payload()) == Some(m),
{
    let s = m.payload();
    match m {
        ServerView::Hello { version, seed, player_id } => {
            assert(s.subrange(1, 9) =~= wire::le8(seed));
            wire::number8_reads_back(s, 1, seed);
            assert(s.subrange(9, 13) =~= wire::le4(player_id));
            wire::number4_reads_back(s, 9, player_id);
        },
        ServerView::PlayerState(a) => {
            assert(s.subrange(0, s.len() as int) =~= s);
            agent_reads_back(s, 0, a);
        },
        ServerView::Agents(v) => {
            let n = v.len() as u32;
            assert(s.subrange(0, 4) =~= wire::le4(n));
            wire::number4_reads_back(s, 0, n);
            assert(wire::val4(s, 0) == n);
            assert(s.subrange(4, s.len() as int) =~= protocol::agents_bytes(v));
            agents_read_back(s, 4, v);
        },
        ServerView::Chunk { pos, data } => {
            assert(s.subrange(0, 12) =~= wire::triple_bytes(pos.x, pos.y, pos.z));
            wire::triple_reads_back(s, 0, pos.x, pos.y, pos.z);
            assert(s.subrange(12, 16) =~= wire::le4(data.len() as u32));
            wire::number4_reads_back(s, 12, data.len() as u32);
            assert(s.subrange(16, s.len() as int) =~= data);
        },
        ServerView::Stats(st) => {
            stats_read_back(st);
        },
        ServerView::NpcLoad { count, spacing } => {
            assert(s.subrange(0, 4) =~= wire::le4(count));
            wire::number4_reads_back(s, 0, count);
            assert(s.subrange(4, 8) =~= wire::le4(spacing));
            wire::number4_reads_back(s, 4, spacing);
        },
    }
}

/// What a server sends is what its frame is read as.
pub proof fn server_messages_round_trip(m: ServerView)
    requires
        m.acceptable(),
    ensures
        protocol::server_message(m.frame()) == Some(m),
{
    server_payload_reads_back(m);
    wire::frames_read_back(m.frame_type(), m.payload(), Seq::empty());
    assert(m.frame() + Seq::<u8>::empty() =~= m.frame());
}

/// A frame in front of other bytes is read first and whole, and what follows it
/// is read as if it stood alone.
pub proof fn server_streams_concatenate(m: ServerView, rest: Seq<u8>)
    requires
        m.acceptable(),
    ensures
        protocol::server_stream(m.frame() + rest) == (
            seq![m] + protocol::server_stream(rest).0,
            m.frame().len() + protocol::server_stream(rest).1,
        ),
{
    server_messages_round_trip(m);
    wire::frames_read_back(m.frame_type(), m.payload(), rest);
    let s = m.frame() + rest;
    let total = m.frame().len() as int;
    assert(s.take(total) =~= m.frame());
    assert(s.skip(total) =~= rest);
}

/// A frame that has not arrived whole is left where it is, and yields nothing.
pub proof fn partial_server_frames_are_left_over(m: ServerView, n: int)
    requires
        m.acceptable(),
        0 <= n < m.frame().len(),
    ensures
        protocol::server_stream(m.frame().take(n)) == (Seq::<ServerView>::empty(), 0int),
{
    server_messages_round_trip(m);
    wire::frames_read_back(m.frame_type(), m.payload(), Seq::empty());
    assert(m.frame() + Seq::<u8>::empty() =~= m.frame());
    let s = m.frame().take(n);
    if n >= 5 {
        assert(wire::val4(s, 1) == wire::val4(m.frame(), 1)) by {
            reveal(wire::val4);
        }
    }
}

/// A client's frame means nothing to a reader of server messages, nor the
/// reverse.
pub proof fn directions_do_not_mix(m: ClientView, n: ServerView)
    requires
        m.acceptable(),
        n.acceptable(),
    ensures
        protocol::server_message(m.frame()) is None,
        protocol::client_message(n.frame()) is None,
{
    client_payload_reads_back(m);
    wire::frames_read_back(m.frame_type(), m.payload(), Seq::empty());
    assert(m.frame() + Seq::<u8>::empty() =~= m.frame());
    wire::frames_read_back(n.frame_type(), n.payload(), Seq::empty());
    assert(n.frame() + Seq::<u8>::empty() =~= n.frame());
}

/// A whole frame that stands for no message is passed over, and what follows it is
/// read as if it stood alone.
pub proof fn client_streams_skip_what_they_do_not_know(ty: u8, payload: Seq<u8>, rest: Seq<u8>)
    requires
        payload.len() < 4294967296,
        protocol::client_message(wire::framed(ty, payload)) is None,
    ensures
        protocol::client_stream(wire::framed(ty, payload) + rest) == (
            protocol::client_stream(rest).0,
            5 + payload.len() + protocol::client_stream(rest).1,
        ),
{
    wire::frames_read_back(ty, payload, rest);
    let frame = wire::framed(ty, payload);
    let s = frame + rest;
    assert(s.take(frame.len() as int) =~= frame);
    assert(s.skip(frame.len() as int) =~= rest);
}

/// A whole frame that stands for no message is passed over, and what follows it is
/// read as if it stood alone.
pub proof fn server_streams_skip_what_they_do_not_know(ty: u8, payload: Seq<u8>, rest: Seq<u8>)
    requires
        payload.len() < 4294967296,
        protocol::server_message(wire::framed(ty, payload)) is None,
    ensures
        protocol::server_stream(wire::framed(ty, payload) + rest) == (
            protocol::server_stream(rest).0,
            5 + payload.len() + protocol::server_stream(rest).1,
        ),
{
    wire::frames_read_back(ty, payload, rest);
    let frame = wire::framed(ty, payload);
    let s = frame + rest;
    assert(s.take(frame.len() as int) =~= frame);
    assert(s.skip(frame.len() as int) =~= rest);
}

proof fn actions_write_back(s: Seq<u8>)
    requires
        protocol::action_of(s) is Some,
    ensures
        protocol::action_bytes(protocol::action_of(s)->Some_0) == s,
{
    if s.len() == 9 {
        wire::number4_writes_back(s, 1);
        wire::number4_writes_back(s, 5);
    }
    assert(protocol::action_bytes(protocol::action_of(s)->Some_0) =~= s);
}

proof fn chunks_write_back(s: Seq<u8>, n: nat)
    requires
        4 + 12 * n <= s.len(),
    ensures
        protocol::chunks_bytes(Seq::new(n, |k: int| protocol::chunk_at(s, 4 + 12 * k)))
            == s.subrange(4, 4 + 12 * n as int),
    decreases n,
{
    let v = Seq::new(n, |k: int| protocol::chunk_at(s, 4 + 12 * k));
    if n == 0 {
        assert(s.subrange(4, 4) =~= Seq::<u8>::empty());
    } else {
        let m = (n - 1) as nat;
        let i = 4 + 12 * m as int;
        chunks_write_back(s, m);
        assert(v.drop_last() =~= Seq::new(m, |k: int| protocol::chunk_at(s, 4 + 12 * k)));
        wire::number4_writes_back(s, i);
        wire::number4_writes_back(s, i + 4);
        wire::number4_writes_back(s, i + 8);
        assert(wire::triple_bytes(v.last().x, v.last().y, v.last().z) =~= s.subrange(i, i + 12));
        assert(s.subrange(4, i + 12) =~= s.subrange(4, i) + s.subrange(i, i + 12));
    }
}

/// A payload that is read as a message of a client is the payload of that message, byte
/// for byte: nothing in it is passed over, and there is no second way to say the same.
pub proof fn client_messages_write_back(ty: u8, s: Seq<u8>)
    requires
        protocol::client_of(ty, s) is Some,
    ensures
        ({
            let m = protocol::client_of(ty, s)->Some_0;
            m.frame_type() == ty && m.payload() == s && m.acceptable()
        }),
{
    let m = protocol::client_of(ty, s)->Some_0;
    match m {
        ClientView::Input { keys, dx, dy } => {
            wire::number4_writes_back(s, 0);
            wire::number4_writes_back(s, 4);
            wire::number4_writes_back(s, 8);
            assert(m.payload() =~= s);
        },
        ClientView::Action(a) => {
            actions_write_back(s);
        },
        ClientView::Evicted(v) => {
            wire::number4_writes_back(s, 0);
            chunks_write_back(s, wire::val4(s, 0) as nat);
            assert(m.payload() =~= s);
        },
        ClientView::SetNpcLoad { count, spacing } => {
            wire::number4_writes_back(s, 0);
            wire::number4_writes_back(s, 4);
            assert(m.payload() =~= s);
        },
        ClientView::Profile { name, color } => {
            wire::number2_writes_back(s, 0);
            let n = wire::val2(s, 0);
            utf8::decode_utf8_encode_utf8(s.subrange(2, 2 + n));
            assert(utf8::encode_utf8(name) == s.subrange(2, 2 + n));
            assert(wire::text_bytes(name) =~= s.subrange(0, 2 + n));
            assert(m.payload() =~= s);
        },
    }
}

/// Each message has its type and its length. A client gives back at most 65536 chunks at
/// once, and a name has at most 64 bytes.
pub proof fn messages_have_their_types(m: ClientView, n: ServerView)
    ensures
        match m {
            ClientView::Input { .. } => m.frame_type() == 1 && m.payload().len() == 12
                && m.acceptable(),
            ClientView::Action(a) => m.frame_type() == 2 && m.acceptable() && m.payload().len() == (
            if a is Break || a is Place {
                9int
            } else {
                1
            }),
            ClientView::Evicted(v) => m.frame_type() == 3 && m.payload().len() == 4 + 12 * v.len()
                && (m.acceptable() <==> v.len() <= 65536),
            ClientView::SetNpcLoad { .. } => m.frame_type() == 4 && m.payload().len() == 8
                && m.acceptable(),
            ClientView::Profile { name, color } => m.frame_type() == 5 && (m.acceptable()
                <==> utf8::encode_utf8(name).len() <= 64 && color.len() == 3),
        },
        match n {
            ServerView::Hello { .. } => n.frame_type() == 16 && n.payload().len() == 13,
            ServerView::PlayerState(a) => n.frame_type() == 17 && (n.acceptable()
                ==> utf8::encode_utf8(a.name).len() <= 64),
            ServerView::Agents(_) => n.frame_type() == 18,
            ServerView::Chunk { data, .. } => n.frame_type() == 19 && n.payload().len() == 16
                + data.len(),
            ServerView::Stats(_) => n.frame_type() == 20 && n.payload().len() == 60,
            ServerView::NpcLoad { .. } => n.frame_type() == 21 && n.payload().len() == 8,
        },
{
    if m is Evicted {
        chunks_length(m->Evicted_0);
    }
    reveal(protocol::stats_bytes);
}

/// A payload that is read as a message of a server has the length of that message: what
/// is short or goes on behind it is no message.
pub proof fn server_messages_have_their_length(ty: u8, s: Seq<u8>)
    requires
        protocol::server_of(ty, s) is Some,
    ensures
        match protocol::server_of(ty, s)->Some_0 {
            ServerView::Hello { version, seed, player_id } => ty == 16 && s.len() == 13 && s[0]
                == version && wire::val8(s, 1) == seed && wire::val4(s, 9) == player_id,
            ServerView::PlayerState(a) => ty == 17 && s.len() >= 39,
            ServerView::Agents(v) => ty == 18 && v.len() == wire::val4(s, 0),
            ServerView::Chunk { pos, data } => ty == 19 && s.len() == 16 + data.len()
                && wire::val4(s, 12) == data.len() && data == s.skip(16),
            ServerView::Stats(_) => ty == 20 && s.len() == 60,
            ServerView::NpcLoad { count, spacing } => ty == 21 && s.len() == 8 && wire::val4(s, 0)
                == count && wire::val4(s, 4) == spacing,
        },
{
    reveal(protocol::agent_at);
    if ty == 18 {
        agents_are_counted(s, 4, wire::val4(s, 0) as nat);
    }
    if ty == 19 {
        assert(s.subrange(16, s.len() as int) =~= s.skip(16));
    }
}

proof fn agents_are_counted(s: Seq<u8>, i: int, n: nat)
    ensures
        protocol::agents_at(s, i, n) matches Some((v, end)) ==> v.len() == n,
    decreases n,
{
    if n > 0 && protocol::agent_at(s, i) is Some {
        let j = (protocol::agent_at(s, i)->Some_0).1;
        agents_are_counted(s, j, (n - 1) as nat);
    }
}

/// The numbers of a message stand in its payload one behind the other, in this order.
pub proof fn client_fields_stand_in_place(ty: u8, s: Seq<u8>)
    ensures
        protocol::client_of(ty, s) matches Some(m) ==> match m {
            ClientView::Input { keys, dx, dy } => keys == wire::val4(s, 0) && dx == wire::val4(s, 4)
                && dy == wire::val4(s, 8),
            ClientView::Action(Action::Break { yaw, pitch }) => s[0] == 0 && yaw == wire::val4(s, 1)
                && pitch == wire::val4(s, 5),
            ClientView::Action(Action::Place { yaw, pitch }) => s[0] == 1 && yaw == wire::val4(s, 1)
                && pitch == wire::val4(s, 5),
            ClientView::Action(a) => s[0] == (match a {
                Action::ToggleFly => 2u8,
                Action::FlyFaster => 3,
                Action::FlySlower => 4,
                Action::NpcLoad => 5,
                Action::NpcClear => 6,
                Action::NpcCountUp => 7,
                Action::NpcCountDown => 8,
                Action::NpcSpacingUp => 9,
                _ => 10,
            }),
            ClientView::Evicted(v) => v.len() == wire::val4(s, 0) && forall|k: int|
                0 <= k < v.len() ==> (#[trigger] v[k]).x == wire::ival4(s, 4 + 12 * k) && v[k].y
                    == wire::ival4(s, 8 + 12 * k) && v[k].z == wire::ival4(s, 12 + 12 * k),
            ClientView::SetNpcLoad { count, spacing } => count == wire::val4(s, 0) && spacing
                == wire::val4(s, 4),
            ClientView::Profile { name, color } => color == s.subrange(s.len() - 3, s.len() as int)
                && wire::val2(s, 0) == s.len() - 5,
        },
{
}

/// What is said of an agent stands in this order: its number, its flags, where it is and
/// where it looks, how fast it flies, its colour and its size.
pub proof fn agent_fields_stand_in_place(s: Seq<u8>, i: int)
    ensures
        protocol::agent_at(s, i) matches Some((a, end)) ==> {
            &&& a.id == wire::val4(s, i)
            &&& a.is_player <==> s[i + 4] % 2 == 1
            &&& a.on_ground <==> s[i + 4] / 2 % 2 == 1
            &&& a.fly <==> s[i + 4] / 4 % 2 == 1
            &&& a.pos.x == wire::val4(s, i + 5)
            &&& a.pos.y == wire::val4(s, i + 9)
            &&& a.pos.z == wire::val4(s, i + 13)
            &&& a.yaw == wire::val4(s, i + 17)
            &&& a.pitch == wire::val4(s, i + 21)
            &&& a.fly_speed == wire::val4(s, i + 25)
            &&& a.color == s.subrange(i + 29, i + 32)
            &&& a.radius == wire::val4(s, i + 32)
            &&& a.target is Some <==> s[i + 36] == 1
            &&& a.target matches Some(t) ==> t.x == wire::ival4(s, i + 37) && t.y == wire::ival4(
                s,
                i + 41,
            ) && t.z == wire::ival4(s, i + 45)
        },
{
    reveal(protocol::agent_at);
}

/// The counters of a server stand in this order, four bytes each for those of the world
/// and eight for those of the cache.
pub proof fn counters_stand_in_place(s: Seq<u8>)
    ensures
        ({
            let t = protocol::stats_of(s);
            &&& t.chunks_generated == wire::val4(s, 0)
            &&& t.chunks_sent == wire::val4(s, 4)
            &&& t.deltas == wire::val4(s, 8)
            &&& t.agents == wire::val4(s, 12)
            &&& t.npcs == wire::val4(s, 16)
            &&& t.cache.lookups == wire::val8(s, 20)
            &&& t.cache.hits == wire::val8(s, 28)
            &&& t.cache.solid_misses == wire::val8(s, 36)
            &&& t.cache.rebuilds == wire::val8(s, 44)
            &&& t.cache.rebuild_probes == wire::val8(s, 52)
        }),
{
}

} // verus!
