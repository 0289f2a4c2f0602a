//! What a server does for its players: who they are when they come back, what their
//! requests lead to, when the world is saved, and what its pages and options are.
use vstd::prelude::*;
use vstd::utf8;

use crate::agent::AgentView;
use crate::block::Block;
use crate::http;
use crate::http::Route;
use crate::input::Action;
use crate::opts;
use crate::opts::{Flag, OptError, OptStep, OptionsView};
use crate::pages;
use crate::pages::Page;
use crate::protocol;
use crate::protocol::ClientMsg;
use crate::registry;
use crate::save;
use crate::save::RecordView;
use crate::session;
use crate::session::{Effect, IdentityView, LoadError, Request, RosterView, SaveSchedule};
use crate::text;
use crate::text::NumberError;
use crate::text_laws;
use crate::wire;
use crate::world::{Edit, WorldView};

verus! {

// ---- Identities --------------------------------------------------------------------------

/// A player without a token is new; one whose token is in use is refused; one who is
/// remembered is as they were; all others are unknown. Only who is remembered and away
/// keeps the token that they show.
pub proof fn claims_are_settled(w: RosterView, t: Seq<u8>, minted: Seq<u8>)
    ensures
        w.settle(None) == IdentityView::Fresh,
        w.token_for(None, minted) == minted,
        session::is_here(w.active, t) ==> w.settle(Some(t)) == IdentityView::Denied && w.token_for(
            Some(t),
            minted,
        ) == minted,
        !session::is_here(w.active, t) && w.known.contains_key(t) ==> w.settle(Some(t))
            == IdentityView::Restored(w.known[t]) && w.token_for(Some(t), minted) == t,
        !session::is_here(w.active, t) && !w.known.contains_key(t) ==> w.settle(Some(t))
            == IdentityView::Unknown && w.token_for(Some(t), minted) == minted,
{
}

/// A player is here exactly while someone on the list has their token. Who leaves is off
/// the list, and all others stay on it.
pub proof fn leaving_takes_one_off_the_list(
    active: Seq<(Seq<u8>, u32)>,
    token: Seq<u8>,
    e: (Seq<u8>, u32),
)
    ensures
        session::without(active, token).contains(e) <==> active.contains(e) && e.0 != token,
        active.contains(e) ==> session::is_here(active, e.0),
    decreases active.len(),
{
    if active.contains(e) {
        let i = choose|i: int| 0 <= i < active.len() && active[i] == e;
        assert(active[i].0 == e.0);
    }
    if active.len() > 0 {
        let init = active.drop_last();
        let last = active.last();
        leaving_takes_one_off_the_list(init, token, e);
        let kept = session::without(init, token);
        let all = session::without(active, token);
        assert(active =~= init.push(last));
        if init.contains(e) {
            let i = choose|i: int| 0 <= i < init.len() && init[i] == e;
            assert(active[i] == e);
        }
        if active.contains(e) && e != last {
            let i = choose|i: int| 0 <= i < active.len() && active[i] == e;
            assert(init[i] == e);
        }
        if e == last {
            assert(active[active.len() - 1] == e);
        }
        if last.0 != token {
            if kept.contains(e) {
                let i = choose|i: int| 0 <= i < kept.len() && kept[i] == e;
                assert(all[i] == e);
            }
            if e == last {
                assert(all[kept.len() as int] == e);
            }
            if all.contains(e) && e != last {
                let i = choose|i: int| 0 <= i < all.len() && all[i] == e;
                assert(kept[i] == e);
            }
        }
    }
}

/// Who leaves is remembered. Nobody else is forgotten for it, unless 64 others are
/// remembered already: then one of those who left longest ago is, and only one.
pub proof fn the_longest_gone_makes_room(
    before: Map<Seq<u8>, RecordView>,
    token: Seq<u8>,
    r: RecordView,
    after: Map<Seq<u8>, RecordView>,
    t: Seq<u8>,
    u: Seq<u8>,
)
    requires
        session::remembered(before, token, r, after),
        t != token,
        u != token,
        before.contains_key(t),
        before.contains_key(u),
    ensures
        after.contains_key(token),
        after[token] == r,
        after.contains_key(t) ==> after[t] == before[t],
        !after.contains_key(t) ==> !before.contains_key(token) && before.dom().len() >= 64
            && before[t].last_seen <= before[u].last_seen,
        t != u ==> after.contains_key(t) || after.contains_key(u),
        before.contains_key(token) || before.dom().len() < 64 ==> after.contains_key(t),
{
}

/// Of 64 who are remembered, one is forgotten for each who is new.
pub proof fn no_more_than_sixty_four_are_remembered(
    before: Map<Seq<u8>, RecordView>,
    token: Seq<u8>,
    r: RecordView,
    after: Map<Seq<u8>, RecordView>,
)
    requires
        session::remembered(before, token, r, after),
        before.dom().finite(),
    ensures
        before.dom().len() < 64 ==> after.dom().len() <= 64,
        before.dom().len() >= 64 ==> after.dom().len() == before.dom().len(),
{
    if before.contains_key(token) {
        assert(after.dom() =~= before.dom());
    } else if before.dom().len() < 64 {
        assert(after.dom() =~= before.dom().insert(token));
    } else {
        let t = choose|t: Seq<u8>| #[trigger]
            registry::is_oldest(before, t) && after == before.remove(t).insert(token, r);
        assert(after.dom() =~= before.dom().remove(t).insert(token));
    }
}

/// What is remembered of a player is where they stood, where they looked, their name and
/// their colour, and when they left.
pub proof fn players_are_remembered_as_they_were(s: AgentView, now: u64)
    ensures
        session::record_view(s, now).pos == s.pos,
        session::record_view(s, now).yaw == s.yaw,
        session::record_view(s, now).pitch == s.pitch,
        session::record_view(s, now).name == s.name,
        session::record_view(s, now).color == s.color,
        session::record_view(s, now).last_seen == now,
{
}

/// The registry that a save is loaded into holds no more than 64 players, the last of the
/// list, and all of them where there are no more.
pub proof fn registries_hold_sixty_four(s: Seq<(Seq<u8>, RecordView)>)
    ensures
        registry::newest(s).len() <= 64,
        s.len() <= 64 ==> registry::newest(s) == s,
        s.len() > 64 ==> registry::newest(s) =~= s.subrange(s.len() - 64, s.len() as int),
{
}

// ---- Requests -----------------------------------------------------------------------------

/// What a client does is what the server hears of it, action by action, at the same aim.
/// Only the block to place is not sent: what is placed then is grass.
pub proof fn actions_are_heard_as_they_are(a: Action)
    ensures
        match a {
            Action::Place { yaw, pitch, .. } => session::action_heard(session::action_told(a)) == (
            Action::Place { yaw, pitch, block: 1 }),
            _ => session::action_heard(session::action_told(a)) == a,
        },
        session::action_heard(protocol::Action::ToggleFly) == Action::ToggleFly,
        session::action_heard(protocol::Action::FlyFaster) == Action::FlyFaster,
        session::action_heard(protocol::Action::FlySlower) == Action::FlySlower,
        session::action_heard(protocol::Action::NpcLoad) == Action::NpcLoad,
        session::action_heard(protocol::Action::NpcClear) == Action::NpcClear,
        session::action_heard(protocol::Action::NpcCountUp) == Action::NpcCountUp,
        session::action_heard(protocol::Action::NpcCountDown) == Action::NpcCountDown,
        session::action_heard(protocol::Action::NpcSpacingUp) == Action::NpcSpacingUp,
        session::action_heard(protocol::Action::NpcSpacingDown) == Action::NpcSpacingDown,
{
}

/// Every message of a client is a request of the same kind with the same contents.
pub proof fn messages_are_requests(m: ClientMsg)
    ensures
        match m {
            ClientMsg::Input { keys, dx, dy } => session::asked(m) matches Request::Input {
                keys: k,
                dx: x,
                dy: y,
                ..
            } && k == keys && x == dx && y == dy,
            ClientMsg::Action(a) => session::asked(m) == Request::Action(session::action_heard(a)),
            ClientMsg::Evicted(v) => session::asked(m) == Request::Evicted(v),
            ClientMsg::SetNpcLoad { count, spacing } => session::asked(m) == (Request::SetNpcLoad {
                count,
                spacing,
            }),
            ClientMsg::Profile { name, color } => session::asked(m) == (Request::Profile {
                name,
                color,
            }),
        },
{
}

/// A request leads to what it says and to nothing else: an edit to an edit of that block,
/// a question to the block that is there, a load of NPCs to that load and its spawning. A
/// token is only taken when a player joins, and does nothing later.
pub proof fn requests_do_what_they_say(w: WorldView, m: Request, e: Seq<Effect>)
    requires
        session::answers(w, m, e),
    ensures
        m matches Request::SetBlock { pos, block } ==> e.len() == 1 && e[0] == (Effect::Edit {
            pos,
            block: Block::spec_from_u8(block),
        }),
        m matches Request::GetBlock { pos } ==> e.len() == 1 && e[0] == (Effect::TellBlock {
            pos,
            block: w.content(pos).id(),
        }),
        m matches Request::SetNpcLoad { count, spacing } ==> e.len() == 2 && e[0] == (
        Effect::SetNpcLoad { count, spacing }) && e[1] == Effect::PushAction(Action::NpcLoad),
        m matches Request::Action(a) ==> e.len() == 1 && e[0] == Effect::PushAction(a),
        m matches Request::Evicted(v) ==> e.len() == 1 && e[0] == Effect::Forget(v),
        m matches Request::Resync(v) ==> e.len() == 1 && e[0] == Effect::Resend(v),
        m matches Request::Teleport { pos } ==> e.len() == 1 && e[0] == (Effect::Teleport { pos }),
        m matches Request::Profile { name, color } ==> e.len() == 1 && e[0] == (
        Effect::SetProfile { name, color }),
        m matches Request::Input { keys, dx, dy, analog_x, analog_y } ==> e.len() == 1 && (
        e[0] matches Effect::SetInput(i) && i.keys.spec_bits() == keys && i.mouse_dx == dx
            && i.mouse_dy == dy && i.analog_x == analog_x && i.analog_y == analog_y),
        m is Rejoin ==> e.len() == 0,
{
}

// ---- Saving -------------------------------------------------------------------------------

/// A save is due as soon as 64 edits are not on disk, and after five seconds when
/// anything is not; never while another one is written, and never for nothing.
pub proof fn saves_are_due_in_time(s: SaveSchedule, edits: int, roster: RosterView, now: int)
    ensures
        s.in_flight is Some ==> !s.spec_due(edits, roster, now),
        edits <= s.disk_edits && !roster.dirty && !roster.held ==> !s.spec_due(edits, roster, now),
        s.in_flight is None && edits - s.disk_edits >= 64 ==> s.spec_due(edits, roster, now),
        s.in_flight is None && (edits > s.disk_edits || roster.dirty) && now - s.last_try >= 5000
            ==> s.spec_due(edits, roster, now),
        edits - s.disk_edits < 64 && now - s.last_try < 5000 ==> !s.spec_due(edits, roster, now),
{
}

/// A last save is made when the server stops if any edit is not on disk, if any player
/// is remembered that the disk lacks, or if anyone is still here.
pub proof fn stopping_saves_what_is_left(s: SaveSchedule, edits: int, roster: RosterView)
    ensures
        s.last_save_needed(edits, roster) <==> edits > s.disk_edits || roster.dirty || roster.held
            || roster.active.len() > 0,
{
}

/// A save counts once it is written: then the disk has the edits that it began with, and
/// not before.
pub proof fn saves_count_when_written(s: SaveSchedule, edits: usize, now: u64)
    ensures
        s.begun(edits, now).disk_edits == s.disk_edits,
        s.begun(edits, now).last_try == now,
        s.begun(edits, now).in_flight == Some(edits),
        s.begun(edits, now).finished(true).disk_edits == edits,
        s.begun(edits, now).finished(false).disk_edits == s.disk_edits,
        s.begun(edits, now).finished(true).in_flight is None,
        s.begun(edits, now).finished(false).in_flight is None,
        s.begun(edits, now).finished(true).last_try == now,
{
}

/// Without a file the world is new. A file gives its edits and its players to the server
/// of its seed, and to no other.
pub proof fn files_are_loaded_whole(bytes: Seq<u8>, seed: u64)
    ensures
        session::loaded(None, seed) matches Ok((edits, players)) && edits is None && players.len()
            == 0,
        save::save_of(bytes) matches Ok(s) ==> {
            &&& s.seed == seed ==> (session::loaded(Some(bytes), seed) matches Ok((edits, players))
                && edits == Some(s.edits) && players == s.players)
            &&& s.seed != seed ==> (session::loaded(Some(bytes), seed) matches Err(e) && e == (
            LoadError::OtherSeed { saved: s.seed }))
        },
        save::save_of(bytes) matches Err(why) ==> (session::loaded(Some(bytes), seed) matches Err(e)
            && e == LoadError::Corrupt(why)),
{
}

// ---- Options -----------------------------------------------------------------------------

/// An option sets what it names to the value that follows it. A number that is none, or
/// that is too big, is refused.
pub proof fn options_set_what_they_name(o: OptionsView, v: Seq<char>)
    ensures
        opts::with_option(o, Flag::Bind, v) matches Ok(p) && p.bind == v,
        opts::with_option(o, Flag::Cert, v) matches Ok(p) && p.cert == Some(v),
        opts::with_option(o, Flag::Key, v) matches Ok(p) && p.key == Some(v),
        text::number_of(v, 18446744073709551615) matches Ok(n) ==> (opts::with_option(
            o,
            Flag::Seed,
            v,
        ) matches Ok(p) && p.seed == n as u64),
        text::number_of(v, 65535) matches Ok(n) ==> (opts::with_option(
            o,
            Flag::Port,
            v,
        ) matches Ok(p) && p.port == n as u16),
        text::number_of(v, 18446744073709551615) is Err ==> opts::with_option(o, Flag::Seed, v)
            is Err,
        text::number_of(v, 65535) is Err ==> opts::with_option(o, Flag::Port, v) is Err,
{
}

/// Each option takes its value with it, one without a value is refused, and so is one
/// that there is not.
pub proof fn options_take_their_values(args: Seq<String>, i: int, o: OptionsView, f: Flag)
    requires
        0 <= i < args.len(),
        args[i]@ == f.spec_name(),
    ensures
        i + 1 == args.len() ==> opts::option_at(args, i, o) == Err::<
            (OptStep, OptionsView, int),
            OptError,
        >(OptError::MissingValue { flag: f }),
        i + 1 < args.len() && opts::with_option(o, f, args[i + 1]@) is Ok ==> (opts::option_at(
            args,
            i,
            o,
        ) matches Ok((step, p, next)) && next == i + 2 && opts::with_option(
            o,
            f,
            args[i + 1]@,
        ) == Ok::<OptionsView, OptError>(p) && !(step is Help)),
        i + 1 < args.len() && opts::with_option(o, f, args[i + 1]@) is Err ==> opts::option_at(
            args,
            i,
            o,
        ) is Err,
{
    opts::flags_read_back(f);
    reveal_strlit("-h");
    reveal_strlit("--help");
    reveal_strlit("--seed");
    reveal_strlit("--port");
    reveal_strlit("--bind");
    reveal_strlit("--cert");
    reveal_strlit("--key");
    let a = args[i]@;
    assert(a.len() == 6 || a.len() == 5);
    assert(a != "-h"@);
    if a.len() == 6 {
        assert(a[2] == 's' || a[2] == 'p' || a[2] == 'b' || a[2] == 'c');
        assert("--help"@[2] == 'h');
    }
    assert(a != "--help"@);
}

// ---- Numbers -----------------------------------------------------------------------------

/// The number that digits stand for.
pub open spec fn value_of(s: Seq<char>) -> int
    decreases s.len(),
{
    if s.len() == 0 {
        0
    } else {
        10 * value_of(s.drop_last()) + (s.last() as int - 48)
    }
}

/// A text is read as a number exactly where it has digits and nothing else, but for a
/// plus before them, and their number is not too big: then as that number.
pub proof fn digits_are_numbers(s: Seq<char>, max: int)
    requires
        s.len() > 0,
        max >= 0,
        forall|i: int| 0 <= i < s.len() ==> '0' <= #[trigger] s[i] <= '9',
    ensures
        value_of(s) <= max ==> text::number_of(s, max) == Ok::<int, NumberError>(value_of(s)),
        value_of(s) > max ==> text::number_of(s, max) == Err::<int, NumberError>(
            NumberError::TooLarge,
        ),
{
    assert(s.take(0) =~= Seq::<char>::empty());
    digits_go_on(s, 0, max);
    assert('0' <= s[0] <= '9');
}

proof fn digits_go_on(s: Seq<char>, i: int, max: int)
    requires
        0 <= i <= s.len(),
        0 <= value_of(s.take(i)) <= max,
        forall|k: int| 0 <= k < s.len() ==> '0' <= #[trigger] s[k] <= '9',
    ensures
        value_of(s) <= max ==> text::digits_from(s, i, value_of(s.take(i)), max) == Ok::<
            int,
            NumberError,
        >(value_of(s)),
        value_of(s) > max ==> text::digits_from(s, i, value_of(s.take(i)), max) == Err::<
            int,
            NumberError,
        >(NumberError::TooLarge),
        value_of(s.take(i)) <= value_of(s),
    decreases s.len() - i,
{
    if i == s.len() {
        assert(s.take(i) =~= s);
    } else {
        let next = s.take(i + 1);
        assert(next.drop_last() =~= s.take(i));
        assert(next.last() == s[i]);
        assert('0' <= s[i] <= '9');
        if value_of(next) <= max {
            digits_go_on(s, i + 1, max);
        } else {
            values_grow(s, i + 1);
        }
    }
}

proof fn values_grow(s: Seq<char>, i: int)
    requires
        0 <= i <= s.len(),
        forall|k: int| 0 <= k < s.len() ==> '0' <= #[trigger] s[k] <= '9',
    ensures
        0 <= value_of(s.take(i)) <= value_of(s),
    decreases s.len(),
{
    if s.len() == 0 {
        assert(s.take(i) =~= s);
    } else {
        let init = s.drop_last();
        assert('0' <= s[s.len() - 1] <= '9');
        assert forall|k: int| 0 <= k < init.len() implies '0' <= #[trigger] init[k] <= '9' by {
            assert(init[k] == s[k]);
        }
        values_grow(init, if i < s.len() { i } else { 0 });
        assert(init.take(0) =~= Seq::<char>::empty());
        if i == s.len() {
            assert(s.take(i) =~= s);
        } else {
            assert(init.take(i) =~= s.take(i));
        }
    }
}

/// Nothing is a number that has no digits or anything else among them.
pub proof fn other_texts_are_no_numbers(s: Seq<char>, max: int, i: int)
    requires
        0 <= i < s.len(),
        !('0' <= s[i] <= '9'),
        i > 0 || s[0] != '+',
    ensures
        text::number_of(s, max) is Err,
        text::number_of(Seq::<char>::empty(), max) is Err,
{
    if s[0] == '+' {
        if s.len() > 1 {
            a_stranger_stops(s, 1, 0, max, i);
        }
    } else {
        a_stranger_stops(s, 0, 0, max, i);
    }
}

proof fn a_stranger_stops(s: Seq<char>, k: int, acc: int, max: int, i: int)
    requires
        0 <= k <= i < s.len(),
        !('0' <= s[i] <= '9'),
    ensures
        text::digits_from(s, k, acc, max) is Err,
    decreases i - k,
{
    if k < i {
        a_stranger_stops(s, k + 1, 10 * acc + (s[k] as int - '0' as int), max, i);
    }
}

// ---- Pages -------------------------------------------------------------------------------

/// The path of an address is what is before the first question mark, and the query what
/// is behind it.
pub proof fn addresses_are_path_and_query(t: Seq<char>, i: int)
    requires
        0 <= i < t.len(),
        t[i] == '?',
        forall|k: int| 0 <= k < i ==> #[trigger] t[k] != '?',
    ensures
        pages::path_of(t) == t.subrange(0, i),
        pages::query_of(t) == t.subrange(i + 1, t.len() as int),
{
    marks_are_found(t, 0, i);
}

/// An address without a question mark is all path.
pub proof fn addresses_without_query_are_path(t: Seq<char>)
    requires
        forall|k: int| 0 <= k < t.len() ==> #[trigger] t[k] != '?',
    ensures
        pages::path_of(t) == t,
        pages::query_of(t).len() == 0,
{
    no_mark_is_found(t, 0);
    assert(t.subrange(0, t.len() as int) =~= t);
}

proof fn marks_are_found(t: Seq<char>, k: int, i: int)
    requires
        0 <= k <= i < t.len(),
        t[i] == '?',
        forall|j: int| 0 <= j < i ==> #[trigger] t[j] != '?',
    ensures
        text::next_char(t, '?', k) == i,
    decreases i - k,
{
    if k < i {
        assert(t[k] != '?');
        marks_are_found(t, k + 1, i);
    }
}

proof fn no_mark_is_found(t: Seq<char>, k: int)
    requires
        0 <= k <= t.len(),
        forall|j: int| 0 <= j < t.len() ==> #[trigger] t[j] != '?',
    ensures
        text::next_char(t, '?', k) == t.len(),
    decreases t.len() - k,
{
    if k < t.len() {
        assert(t[k] != '?');
        no_mark_is_found(t, k + 1);
    }
}

/// Each page has its path, whatever is asked behind it, and there are no others. A map is
/// by default of 128 columns on a side, round the spawn.
pub proof fn pages_have_their_paths(t: Seq<char>)
    ensures
        pages::path_of(t) == "/healthz"@ ==> pages::answer_to(t) == Page::Health,
        pages::path_of(t) == "/api/status"@ ==> pages::answer_to(t) == Page::Status,
        pages::path_of(t) == "/ws"@ ==> pages::answer_to(t) == Page::UpgradeNeeded,
        pages::path_of(t) == "/dashboard"@ ==> pages::answer_to(t) == Page::ToDashboard,
        pages::path_of(t) == "/dashboard/"@ ==> pages::answer_to(t) == Page::Dashboard,
        pages::path_of(t) == "/"@ ==> pages::answer_to(t) == Page::Game,
        pages::path_of(t) == "/api/map"@ ==> pages::answer_to(t) is Chart,
        pages::path_of(t) == "/api/map"@ && pages::query_of(t).len() == 0 ==> pages::answer_to(t)
            == (Page::Chart { x: 8, z: 8, w: 128, h: 128 }),
        pages::answer_to(t) == Page::Missing <==> pages::path_of(t) != "/healthz"@
            && pages::path_of(t) != "/api/status"@ && pages::path_of(t) != "/ws"@ && pages::path_of(
            t,
        ) != "/dashboard"@ && pages::path_of(t) != "/dashboard/"@ && pages::path_of(t) != "/"@
            && pages::path_of(t) != "/api/map"@,
{
    reveal_strlit("/healthz");
    reveal_strlit("/api/status");
    reveal_strlit("/api/map");
    reveal_strlit("/ws");
    reveal_strlit("/dashboard");
    reveal_strlit("/dashboard/");
    reveal_strlit("/");
    reveal_strlit("x=");
    reveal_strlit("z=");
    reveal_strlit("w=");
    reveal_strlit("h=");
    assert("/healthz"@.len() == 8 && "/healthz"@[1] == 'h');
    assert("/api/map"@.len() == 8 && "/api/map"@[1] == 'a');
    assert("/api/status"@.len() == 11 && "/api/status"@[1] == 'a');
    assert("/dashboard/"@.len() == 11 && "/dashboard/"@[1] == 'd');
    assert("/dashboard"@.len() == 10);
    assert("/ws"@.len() == 3);
    assert("/"@.len() == 1);
    let q = pages::query_of(t);
    if q.len() == 0 {
        assert(q.subrange(0, 0) =~= Seq::<char>::empty());
        assert(text::next_char(q, '&', 0) == 0);
        assert(pages::number_from(q, 0, "x="@) is None);
        assert(pages::number_from(q, 0, "z="@) is None);
        assert(pages::number_from(q, 0, "w="@) is None);
        assert(pages::number_from(q, 0, "h="@) is None);
    }
}

/// In text that is quoted, quotes and backslashes get a backslash before them, control
/// characters are written by their number, and everything else stays.
pub proof fn texts_are_quoted_char_by_char(s: Seq<char>, c: char)
    ensures
        pages::quoted_text(s.push(c)) == pages::quoted_text(s) + pages::quoted_char(c),
        pages::quoted_text(Seq::<char>::empty()) == Seq::<char>::empty(),
        c != '"' && c != '\\' && !('\u{0}' <= c <= '\u{1f}') ==> pages::quoted_char(c) == seq![c],
        c == '"' || c == '\\' ==> pages::quoted_char(c) == seq!['\\', c],
        pages::quoted_char('\u{a}') == seq!['\\', 'u', '0', '0', '0', 'a'],
        pages::quoted_char('\u{1b}') == seq!['\\', 'u', '0', '0', '1', 'b'],
{
    assert(s.push(c).drop_last() =~= s);
}

// ---- Routes ------------------------------------------------------------------------------

/// A session is opened for exactly those requests that ask for the game's path, with or
/// without a query, and for the WebSocket protocol. All others get a page.
pub proof fn sessions_open_on_request(head: Seq<u8>)
    ensures
        http::route_of(head) == Route::Session <==> {
            &&& http::upgrade_asked(head)
            &&& http::target_of(head) matches Some(t) && t.len() >= 3 && t[0] == '/' && t[1] == 'w'
                && t[2] == 's' && (t.len() == 3 || t[3] == '?')
        },
{
    reveal_strlit("/ws");
    if http::target_of(head) is Some {
        let t = http::target_of(head)->Some_0;
        if t.len() >= 3 {
            assert(t.take(3) == "/ws"@ <==> t[0] == '/' && t[1] == 'w' && t[2] == 's') by {
                if t[0] == '/' && t[1] == 'w' && t[2] == 's' {
                    assert(t.take(3) =~= "/ws"@);
                }
                if t.take(3) == "/ws"@ {
                    assert(t.take(3)[0] == '/' && t.take(3)[1] == 'w' && t.take(3)[2] == 's');
                }
            }
        }
    }
}

/// The request line is what is before the first line feed.
pub proof fn the_first_line_ends_at_the_first_feed(s: Seq<u8>, i: int)
    requires
        0 <= i <= s.len(),
        i < s.len() ==> s[i] == 10,
        forall|k: int| 0 <= k < i ==> #[trigger] s[k] != 10,
    ensures
        http::first_line(s) == s.take(i),
    decreases s.len(),
{
    if i == 0 {
        assert(s.take(0) =~= Seq::<u8>::empty());
    } else {
        assert(s[0] != 10);
        let rest = s.skip(1);
        assert forall|k: int| 0 <= k < i - 1 implies #[trigger] rest[k] != 10 by {
            assert(rest[k] == s[k + 1]);
        }
        the_first_line_ends_at_the_first_feed(rest, i - 1);
        assert(s.take(i) =~= seq![s[0]] + rest.take(i - 1));
    }
}

// ---- Rosters -----------------------------------------------------------------------------

/// A token of zeros claims nothing, and any other one claims itself.
pub proof fn zeros_claim_nothing(t: [u8; 16])
    ensures
        session::claim_of(None) is None,
        (forall|k: int| 0 <= k < 16 ==> (#[trigger] t@[k]) == 0) ==> session::claim_of(Some(t))
            is None,
        (exists|k: int| 0 <= k < 16 && (#[trigger] t@[k]) != 0) ==> session::claim_of(Some(t))
            == Some(t@),
{
    if forall|k: int| 0 <= k < 16 ==> (#[trigger] t@[k]) == 0 {
        assert(registry::is_none_token(t@));
    }
    if exists|k: int| 0 <= k < 16 && (#[trigger] t@[k]) != 0 {
        let k = choose|k: int| 0 <= k < 16 && (#[trigger] t@[k]) != 0;
        assert(Seq::new(16, |i: int| 0u8)[k] == 0);
    }
}

/// What is remembered is off the disk until a save with it is written: handing it over
/// does not change that, a save that is lost brings it back, and one that is written ends
/// it unless more came meanwhile.
pub proof fn records_are_kept_until_written(w: RosterView)
    ensures
        w.off_disk() <==> w.dirty || w.held,
        w.handed_over().off_disk() == w.off_disk(),
        !w.handed_over().dirty,
        w.handed_over().taken_back(false).dirty == w.off_disk(),
        !w.handed_over().taken_back(true).off_disk(),
        w.taken_back(true).dirty == w.dirty,
        w.handed_over().known == w.known,
        w.handed_over().active == w.active,
        w.taken_back(true).known == w.known,
        w.taken_back(false).active == w.active,
{
}

/// A new token is nobody's: not the one that was shown, not that of anyone who is here,
/// and not that of anyone who is remembered.
pub proof fn new_tokens_are_nobodys(w: RosterView, t: Seq<u8>, other: Seq<u8>)
    ensures
        !w.unused(Some(t), t),
        session::is_here(w.active, t) ==> !w.unused(None, t),
        w.known.contains_key(t) ==> !w.unused(None, t),
        t != other && !session::is_here(w.active, t) && !w.known.contains_key(t) ==> w.unused(
            Some(other),
            t,
        ) && w.unused(None, t),
{
}

/// A save begins with four letters, its version, the seed and how many edits there are;
/// thirteen bytes for each edit follow.
pub proof fn saves_begin_with_their_header(w: save::SaveView)
    requires
        w.edits.len() <= u64::MAX,
    ensures
        w.bytes().len() >= 24 + 13 * w.edits.len() + 8,
        w.bytes()[0] == 81,
        w.bytes()[1] == 87,
        w.bytes()[2] == 67,
        w.bytes()[3] == 83,
        wire::val4(w.bytes(), 4) == 2,
        wire::val8(w.bytes(), 8) == w.seed,
        wire::val8(w.bytes(), 16) == w.edits.len(),
        wire::val8(w.bytes(), 24 + 13 * w.edits.len() as int) == w.players.len() as u64,
{
    broadcast use wire::group_number_lengths;

    save::entries_length(w.edits);
    let s = w.bytes();
    let at = 24 + 13 * w.edits.len() as int;
    assert(s.subrange(4, 8) =~= wire::le4(2));
    assert(s.subrange(8, 16) =~= wire::le8(w.seed));
    assert(s.subrange(16, 24) =~= wire::le8(w.edits.len() as u64));
    assert(s.subrange(at, at + 8) =~= wire::le8(w.players.len() as u64));
    wire::number4_reads_back(s, 4, 2);
    wire::number8_reads_back(s, 8, w.seed);
    wire::number8_reads_back(s, 16, w.edits.len() as u64);
    wire::number8_reads_back(s, at, w.players.len() as u64);
}

/// Each edit of a save is where its coordinates and its block stand in it.
pub proof fn saved_edits_stand_in_order(w: save::SaveView, k: int)
    requires
        0 <= k < w.edits.len(),
    ensures
        ({
            let i = 24 + 13 * k;
            let e = w.edits[k];
            &&& wire::ival4(w.bytes(), i) == e.pos.x
            &&& wire::ival4(w.bytes(), i + 4) == e.pos.y
            &&& wire::ival4(w.bytes(), i + 8) == e.pos.z
            &&& w.bytes()[i + 12] == e.block.id()
        }),
{
    broadcast use wire::group_number_lengths;

    let i = 24 + 13 * k;
    let e = w.edits[k];
    let s = w.bytes();
    save::entries_length(w.edits);
    saved_edits_are_in_turn(w.edits, k);
    let body = save::entries_bytes(w.edits);
    assert(s.subrange(24, 24 + body.len() as int) =~= body);
    assert(s.subrange(i, i + 13) =~= body.subrange(13 * k, 13 * k + 13));
    assert(s.subrange(i, i + 12) =~= s.subrange(i, i + 13).subrange(0, 12));
    assert(save::entry_bytes(e).subrange(0, 12) =~= wire::triple_bytes(e.pos.x, e.pos.y, e.pos.z));
    wire::triple_reads_back(s, i, e.pos.x, e.pos.y, e.pos.z);
    assert(s[i + 12] == s.subrange(i, i + 13)[12]);
}

proof fn saved_edits_are_in_turn(v: Seq<Edit>, k: int)
    requires
        0 <= k < v.len(),
    ensures
        save::entries_bytes(v).len() == 13 * v.len(),
        save::entries_bytes(v).subrange(13 * k, 13 * k + 13) == save::entry_bytes(v[k]),
    decreases v.len(),
{
    broadcast use wire::group_number_lengths;

    let init = v.drop_last();
    save::entries_length(v);
    save::entries_length(init);
    let before = save::entries_bytes(init);
    if k < init.len() {
        saved_edits_are_in_turn(init, k);
        assert(save::entries_bytes(v).subrange(13 * k, 13 * k + 13) =~= before.subrange(
            13 * k,
            13 * k + 13,
        ));
    } else {
        assert(save::entries_bytes(v).subrange(13 * k, 13 * k + 13) =~= save::entry_bytes(v[k]));
    }
}

/// A save that was written counts only where one was begun.
pub proof fn only_begun_saves_land(s: SaveSchedule, written: bool)
    ensures
        s.lands(written) <==> written && s.in_flight is Some,
        !s.lands(written) ==> s.finished(written).disk_edits == s.disk_edits,
        s.finished(written).last_try == s.last_try,
{
}

/// There are five options, by these names; help is asked for by two; anything else is
/// unknown. An address to listen on is told apart, for it may not be one.
pub proof fn options_have_their_names(args: Seq<String>, i: int, o: OptionsView)
    requires
        0 <= i < args.len(),
    ensures
        Flag::Seed.spec_name() == "--seed"@,
        Flag::Port.spec_name() == "--port"@,
        Flag::Bind.spec_name() == "--bind"@,
        Flag::Cert.spec_name() == "--cert"@,
        Flag::Key.spec_name() == "--key"@,
        args[i]@ == "-h"@ || args[i]@ == "--help"@ ==> opts::option_at(args, i, o) == Ok::<
            (OptStep, OptionsView, int),
            OptError,
        >((OptStep::Help, o, i + 1)),
        args[i]@ != "-h"@ && args[i]@ != "--help"@ && args[i]@ != "--seed"@ && args[i]@
            != "--port"@ && args[i]@ != "--bind"@ && args[i]@ != "--cert"@ && args[i]@ != "--key"@
            ==> opts::option_at(args, i, o) == Err::<(OptStep, OptionsView, int), OptError>(
            OptError::Unknown { index: i as usize },
        ),
        opts::option_at(args, i, o) matches Ok((step, p, next)) ==> (step is Bind <==> args[i]@
            == "--bind"@) && (step is Help <==> args[i]@ == "-h"@ || args[i]@ == "--help"@),
{
    reveal_strlit("--seed");
    reveal_strlit("--port");
    reveal_strlit("--bind");
    reveal_strlit("--cert");
    reveal_strlit("--key");
    reveal_strlit("-h");
    reveal_strlit("--help");
    assert("--bind"@.len() == 6 && "--bind"@[2] == 'b');
    assert("--help"@.len() == 6 && "--help"@[2] == 'h');
    assert("--seed"@.len() == 6 && "--seed"@[2] == 's');
    assert("--port"@.len() == 6 && "--port"@[2] == 'p');
    assert("--cert"@.len() == 6 && "--cert"@[2] == 'c');
    assert("--key"@.len() == 5);
    assert("-h"@.len() == 2);
}

/// Of more than 64 players in a file, those are kept who left last.
pub proof fn the_latest_leavers_are_kept(s: Seq<(Seq<u8>, RecordView)>, gone: int, kept: int)
    requires
        registry::by_age(s),
        0 <= gone < s.len() - 64,
        0 <= kept < 64,
    ensures
        registry::newest(s).len() == 64,
        s[gone].1.last_seen <= registry::newest(s)[kept].1.last_seen,
{
    assert(registry::newest(s)[kept] == s[s.len() - 64 + kept]);
}

/// Several players are remembered one after the other: first those before the last, and
/// then the last.
pub proof fn players_are_remembered_in_turn(
    before: Map<Seq<u8>, RecordView>,
    players: Seq<(Seq<u8>, RecordView)>,
    after: Map<Seq<u8>, RecordView>,
)
    requires
        session::all_remembered(before, players, after),
    ensures
        players.len() == 0 ==> after == before,
        players.len() > 0 ==> exists|between: Map<Seq<u8>, RecordView>|
            #![trigger session::all_remembered(before, players.drop_last(), between)]
            session::all_remembered(before, players.drop_last(), between) && session::remembered(
                between,
                players.last().0,
                players.last().1,
                after,
            ),
{
    let maps = choose|maps: Seq<Map<Seq<u8>, RecordView>>| #[trigger]
        session::is_history(maps, players) && maps[0] == before && maps.last() == after;
    if players.len() > 0 {
        let n = players.len() as int;
        let init = players.drop_last();
        let m = maps.drop_last();
        assert(players[n - 1] == players.last());
        assert forall|i: int| 0 <= i < init.len() implies session::remembered(
            m[i],
            (#[trigger] init[i]).0,
            init[i].1,
            m[i + 1],
        ) by {
            assert(init[i] == players[i]);
        }
        assert(session::is_history(m, init));
        assert(session::all_remembered(before, init, m.last()));
    }
}

/// The target of a request is the second word of its first line.
pub proof fn targets_are_second_words(
    head: Seq<u8>,
    method: Seq<char>,
    target: Seq<char>,
    rest: Seq<char>,
)
    requires
        utf8::valid_utf8(http::first_line(head)),
        utf8::decode_utf8(http::first_line(head)) == method.push(' ') + target + rest,
        method.len() > 0,
        target.len() > 0,
        forall|k: int| 0 <= k < method.len() ==> !#[trigger] text::is_space(method[k]),
        forall|k: int| 0 <= k < target.len() ==> !#[trigger] text::is_space(target[k]),
        rest.len() > 0 ==> text::is_space(rest[0]),
    ensures
        http::target_of(head) == Some(target),
{
    text_laws::second_words_are_second(method, target, rest);
}

} // verus!
