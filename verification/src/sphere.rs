//! The shape of an agent: a ball of rings and segments, and which balls are drawn.
use vstd::prelude::*;

use crate::agent::AgentState;

verus! {

/// Rings of the ball, from pole to pole.
pub const RINGS: u32 = 10;

/// Segments of each ring.
pub const SEGMENTS: u32 = 16;

/// Vertices of the ball.
pub const SPHERE_VERTICES: u32 = 176;

/// The vertex of a ring and a segment; segments go round.
pub open spec fn on_ball(ring: int, segment: int) -> int {
    ring * SEGMENTS + segment % (SEGMENTS as int)
}

/// The six indices of the patch behind a ring and a segment: two triangles.
pub open spec fn patch(ring: int, segment: int) -> Seq<u32> {
    let a = on_ball(ring, segment) as u32;
    let b = on_ball(ring, segment + 1) as u32;
    let c = on_ball(ring + 1, segment) as u32;
    let d = on_ball(ring + 1, segment + 1) as u32;
    seq![a, b, c, b, d, c]
}

/// The indices of the ball: patch by patch, ring by ring.
pub open spec fn ball() -> Seq<u32> {
    Seq::new(960, |k: int| patch(k / 96, k / 6 % 16)[k % 6])
}

/// The indices of the ball.
pub fn sphere_indices() -> (v: Vec<u32>)
    ensures
        v@ == ball(),
{
    let mut v: Vec<u32> = Vec::new();
    let mut i: u32 = 0;
    while i < RINGS
        invariant
            i <= RINGS,
            v@ == ball().take(96 * i),
        decreases RINGS - i,
    {
        let mut j: u32 = 0;
        while j < SEGMENTS
            invariant
                i < RINGS,
                j <= SEGMENTS,
                v@ == ball().take(96 * i + 6 * j),
            decreases SEGMENTS - j,
        {
            let a: u32 = i * SEGMENTS + j;
            let b: u32 = i * SEGMENTS + (j + 1) % SEGMENTS;
            let c: u32 = (i + 1) * SEGMENTS + j;
            let d: u32 = (i + 1) * SEGMENTS + (j + 1) % SEGMENTS;
            let ghost before = v@;
            v.push(a);
            v.push(b);
            v.push(c);
            v.push(b);
            v.push(d);
            v.push(c);
            proof {
                assert forall|m: int| 0 <= m < 6 implies #[trigger] ball()[96 * i + 6 * j + m]
                    == v@[96 * i + 6 * j + m] by {
                    let k = 96 * i + 6 * j + m;
                    assert(k / 96 == i && k / 6 % 16 == j && k % 6 == m);
                    assert(patch(i as int, j as int) =~= seq![a, b, c, b, d, c]);
                }
                assert forall|k: int| 0 <= k < 96 * i + 6 * j + 6 implies v@[k] == ball()[k] by {
                    if k < 96 * i + 6 * j {
                        assert(v@[k] == before[k]);
                    } else {
                        let m = k - (96 * i + 6 * j);
                        assert(ball()[96 * i + 6 * j + m] == v@[96 * i + 6 * j + m]);
                    }
                }
                assert(v@ =~= ball().take(96 * i + 6 * j + 6));
            }
            j = j + 1;
        }
        i = i + 1;
    }
    assert(ball().take(960) =~= ball());
    v
}

// ---- Which agents are drawn ----------------------------------------------------------

/// Whether one of the agents has an id.
pub open spec fn listed(states: Seq<AgentState>, id: u32) -> bool {
    exists|i: int| 0 <= i < states.len() && (#[trigger] states[i]).id == id
}

/// The ids of the agents drawn, in order: all but the one that looks.
pub open spec fn drawn_ids(states: Seq<AgentState>, own: u32) -> Seq<u32>
    decreases states.len(),
{
    if states.len() == 0 {
        Seq::empty()
    } else if states.last().id == own {
        drawn_ids(states.drop_last(), own)
    } else {
        drawn_ids(states.drop_last(), own).push(states.last().id)
    }
}

/// Those of the balls drawn so far whose agents are gone.
pub open spec fn stale_ids(held: Seq<u32>, states: Seq<AgentState>) -> Seq<u32> {
    held.filter(|id: u32| !listed(states, id))
}

fn is_listed(states: &[AgentState], id: u32) -> (r: bool)
    ensures
        r == listed(states@, id),
{
    let mut i: usize = 0;
    while i < states.len()
        invariant
            i <= states@.len(),
            forall|k: int| 0 <= k < i ==> (#[trigger] states@[k]).id != id,
        decreases states@.len() - i,
    {
        if states[i].id == id {
            return true;
        }
        i = i + 1;
    }
    false
}

/// What becomes of the balls when the agents are `states`: which of those held go,
/// and for which agents one is drawn.
pub fn set_agents(held: &[u32], states: &[AgentState], own: u32) -> (r: (Vec<u32>, Vec<u32>))
    ensures
        r.0@ == stale_ids(held@, states@),
        r.1@ == drawn_ids(states@, own),
{
    let mut gone: Vec<u32> = Vec::new();
    let mut i: usize = 0;
    let ghost p = |id: u32| !listed(states@, id);
    assert(held@.take(0).filter(p) =~= Seq::<u32>::empty()) by {
        reveal(Seq::filter);
    }
    while i < held.len()
        invariant
            i <= held@.len(),
            p == (|id: u32| !listed(states@, id)),
            gone@ == held@.take(i as int).filter(p),
        decreases held@.len() - i,
    {
        proof {
            reveal(Seq::filter);
            assert(held@.take(i as int + 1).drop_last() =~= held@.take(i as int));
        }
        if !is_listed(states, held[i]) {
            gone.push(held[i]);
        }
        i = i + 1;
    }
    assert(held@.take(i as int) =~= held@);
    let mut drawn: Vec<u32> = Vec::new();
    let mut k: usize = 0;
    while k < states.len()
        invariant
            k <= states@.len(),
            drawn@ == drawn_ids(states@.take(k as int), own),
        decreases states@.len() - k,
    {
        assert(states@.take(k as int + 1).drop_last() =~= states@.take(k as int));
        if states[k].id != own {
            drawn.push(states[k].id);
        }
        k = k + 1;
    }
    assert(states@.take(k as int) =~= states@);
    (gone, drawn)
}

// ---- Laws ------------------------------------------------------------------------------

/// Every index of the ball names one of its vertices.
pub proof fn ball_indices_name_vertices(k: int)
    requires
        0 <= k < ball().len(),
    ensures
        ball()[k] < SPHERE_VERTICES,
{
    let i = k / 96;
    let j = k / 6 % 16;
    assert(0 <= i < 10 && 0 <= j < 16);
    assert(0 <= k % 6 < 6);
}

/// Nobody sees themselves, and everybody else is drawn.
pub proof fn one_does_not_see_oneself(states: Seq<AgentState>, own: u32, id: u32)
    ensures
        drawn_ids(states, own).contains(id) <==> id != own && listed(states, id),
    decreases states.len(),
{
    if states.len() > 0 {
        let before = states.drop_last();
        one_does_not_see_oneself(before, own, id);
        let d = drawn_ids(before, own);
        if listed(before, id) {
            let i = choose|i: int| 0 <= i < before.len() && (#[trigger] before[i]).id == id;
            assert(states[i].id == id);
        }
        if listed(states, id) && states.last().id != id {
            let i = choose|i: int| 0 <= i < states.len() && (#[trigger] states[i]).id == id;
            assert(before[i].id == id);
        }
        if states.last().id != own {
            let all = d.push(states.last().id);
            assert(all.last() == states.last().id);
            if d.contains(id) {
                let i = choose|i: int| 0 <= i < d.len() && d[i] == id;
                assert(all[i] == id);
            }
            if all.contains(id) && states.last().id != id {
                let i = choose|i: int| 0 <= i < all.len() && all[i] == id;
                assert(d[i] == id);
            }
            if states.last().id == id {
                assert(states[states.len() - 1].id == id);
            }
        }
    }
}

} // verus!
