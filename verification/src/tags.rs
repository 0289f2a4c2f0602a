//! The names that float over other players.
use vstd::prelude::*;

use crate::agent::AgentState;
use crate::text;
use crate::text::{chars_of, push_number, text_of, trim};

verus! {

/// The name that a player goes by, from what they typed.
pub open spec fn profile_name(typed: Seq<char>) -> Seq<char> {
    if text::trimmed(typed).len() == 0 {
        "Player"@
    } else {
        text::trimmed(typed)
    }
}

/// The name that a player goes by, from what they typed.
pub fn player_name(typed: &str) -> (s: String)
    ensures
        s@ == profile_name(typed@),
{
    let t = trim(chars_of(typed).as_slice());
    if t.len() == 0 {
        "Player".to_owned()
    } else {
        text_of(t.as_slice())
    }
}

/// What a tag says: the name, or the letter P and the id where there is none.
pub open spec fn label(name: Seq<char>, id: u32) -> Seq<char> {
    if name.len() == 0 {
        "P"@ + text::decimal(id as nat)
    } else {
        name
    }
}

/// Whether an agent has a tag: it is a player, and not the one that looks.
pub open spec fn is_tagged(s: AgentState, own: u32) -> bool {
    s.is_player && s.id != own
}

/// The tags of agents, in order.
pub open spec fn tags_of(states: Seq<AgentState>, own: u32) -> Seq<(u32, Seq<char>)>
    decreases states.len(),
{
    if states.len() == 0 {
        Seq::empty()
    } else if is_tagged(states.last(), own) {
        tags_of(states.drop_last(), own).push(
            (states.last().id, label(states.last().name@, states.last().id)),
        )
    } else {
        tags_of(states.drop_last(), own)
    }
}

/// Whether one of the agents has a tag and an id.
pub open spec fn tagged(states: Seq<AgentState>, own: u32, id: u32) -> bool {
    exists|i: int|
        0 <= i < states.len() && (#[trigger] states[i]).id == id && is_tagged(states[i], own)
}

/// A tag.
pub struct Tag {
    pub id: u32,
    pub label: String,
}

/// What tags say.
pub open spec fn tag_views(v: Seq<Tag>) -> Seq<(u32, Seq<char>)> {
    Seq::new(v.len(), |i: int| (v[i].id, v[i].label@))
}

fn is_kept(states: &[AgentState], own: u32, id: u32) -> (r: bool)
    ensures
        r == tagged(states@, own, id),
{
    let mut i: usize = 0;
    while i < states.len()
        invariant
            i <= states@.len(),
            forall|k: int|
                0 <= k < i ==> !((#[trigger] states@[k]).id == id && is_tagged(states@[k], own)),
        decreases states@.len() - i,
    {
        if states[i].id == id && states[i].is_player && id != own {
            return true;
        }
        i = i + 1;
    }
    false
}

fn label_of(name: &String, id: u32) -> (s: String)
    ensures
        s@ == label(name@, id),
{
    let c = chars_of(name.as_str());
    if c.len() == 0 {
        let mut s = "P".to_owned();
        push_number(&mut s, id as u64);
        s
    } else {
        text_of(c.as_slice())
    }
}

/// The tags to show, and those held so far that go because their players left.
pub fn update_name_tags(held: &[u32], states: &[AgentState], own: u32) -> (r: (Vec<Tag>, Vec<u32>))
    ensures
        tag_views(r.0@) == tags_of(states@, own),
        r.1@ == held@.filter(|id: u32| !tagged(states@, own, id)),
{
    let mut tags: Vec<Tag> = Vec::new();
    let mut k: usize = 0;
    while k < states.len()
        invariant
            k <= states@.len(),
            tag_views(tags@) == tags_of(states@.take(k as int), own),
        decreases states@.len() - k,
    {
        assert(states@.take(k as int + 1).drop_last() =~= states@.take(k as int));
        if states[k].is_player && states[k].id != own {
            let ghost before = tags@;
            let id: u32 = states[k].id;
            let t = Tag { id, label: label_of(&states[k].name, id) };
            tags.push(t);
            assert(tag_views(tags@) =~= tag_views(before).push((id, t.label@)));
        }
        k = k + 1;
    }
    assert(states@.take(k as int) =~= states@);
    let mut gone: Vec<u32> = Vec::new();
    let mut i: usize = 0;
    let ghost p = |id: u32| !tagged(states@, own, id);
    assert(held@.take(0).filter(p) =~= Seq::<u32>::empty()) by {
        reveal(Seq::filter);
    }
    while i < held.len()
        invariant
            i <= held@.len(),
            p == (|id: u32| !tagged(states@, own, id)),
            gone@ == held@.take(i as int).filter(p),
        decreases held@.len() - i,
    {
        proof {
            reveal(Seq::filter);
            assert(held@.take(i as int + 1).drop_last() =~= held@.take(i as int));
        }
        if !is_kept(states, own, held[i]) {
            gone.push(held[i]);
        }
        i = i + 1;
    }
    assert(held@.take(i as int) =~= held@);
    (tags, gone)
}

// ---- Laws --------------------------------------------------------------------------

/// No tag is blank, whatever names players have.
pub proof fn tags_are_never_blank(name: Seq<char>, id: u32)
    ensures
        label(name, id).len() > 0,
        profile_name(name).len() > 0,
{
    reveal_strlit("P");
    reveal_strlit("Player");
}

} // verus!
